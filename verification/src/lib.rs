//! A compact, self-describing binary encoding for typed structured values.
//!
//! Every value is written as a one-byte header — a four-bit kind and a
//! four-bit modifier — followed by a payload whose shape the header
//! determines.  Numbers are trimmed to a minimal byte class, containers
//! carry their element types inline, and nominal types are referenced
//! through a compact [`TypeId`].  Encoding and decoding are exact
//! inverses; the proofs live in [`roundtrip`].

use vstd::prelude::*;

pub mod casting;
pub mod model;
pub mod reader;
pub mod roundtrip;
pub mod wire;
pub mod writer;

verus! {

/// Identifies a variant of an `Enum` or `CEnum` value.
pub type EnumVariantId = u64;

/// Registry coordinate of a nominal type: a schema byte and a type number.
///
/// On the wire the schema byte doubles as the `TypeId` selector byte, so a
/// well-formed `StdId` keeps `schema` strictly between the `Anonymous`
/// selector (0x00) and the `Hash` selector (0xff).
#[derive(Debug, Clone, Copy, PartialEq, Eq, Hash)]
pub struct StdId {
    pub schema: u8,
    pub id: u16,
}

/// Content-address of a nominal type: seven hash bytes.
#[derive(Debug, Clone, Copy, PartialEq, Eq, Hash)]
pub struct HashId {
    pub hash: [u8; 7],
}

/// Identity of a nominal type: absent, registry-numbered, or content-hashed.
#[derive(Debug, Clone, Copy, PartialEq, Eq, Hash)]
pub enum TypeId {
    Anonymous,
    Std(StdId),
    Hash(HashId),
}

/// A recursive descriptor of a value's shape: primitive leaves, structural
/// wrappers carrying their element types, fixed-arity tuples, and nominal
/// wrappers carrying only a [`TypeId`].
#[derive(Debug, PartialEq, Eq)]
pub enum Type {
    Unknown,
    Unit,
    Bool,
    Int,
    UInt,
    Float,
    String,
    Bytes,
    Option(Box<Type>),
    List(Box<Type>),
    Mapping(Box<Type>, Box<Type>),
    Tuple(Vec<Type>),
    Alias(TypeId),
    CEnum(TypeId),
    Enum(TypeId),
    Struct(TypeId),
    Type,
    TypeId,
}

/// A tagged tree of data mirroring [`Type`].
///
/// Floating-point values are carried as raw bit patterns, never decoded to
/// a native float.  `Option`, `List` and `Mapping` carry their element
/// types even when empty, so an encoding describes itself without a
/// schema.  `Mapping` is an ordered association sequence: duplicate keys
/// are representable and never rejected.
#[derive(Debug, PartialEq, Eq)]
pub enum Value {
    Unit,
    Bool(bool),
    Int(i64),
    UInt(u64),
    Float(u64),
    String(String),
    Bytes(Vec<u8>),
    Option(Type, Box<Option<Value>>),
    List(Type, Vec<Value>),
    Mapping(Type, Type, Vec<(Value, Value)>),
    Tuple(Vec<Value>),
    Alias(TypeId, Box<Value>),
    CEnum(TypeId, EnumVariantId),
    Enum(TypeId, EnumVariantId, Box<Value>),
    Struct(TypeId, Vec<Value>),
    Type(Type),
    TypeId(TypeId),
}

/// What went wrong while decoding.
#[derive(Debug, Clone, PartialEq, Eq)]
pub enum Error {
    /// The input ended before a required byte or field.
    Truncated,
    /// A header byte that matches no entry of the dispatch table.
    Tag(u8),
    /// A type-descriptor tag byte that names no `Type` variant.
    TypeTag(u8),
    /// A length or arity magnitude that does not fit the platform size type.
    TooLongLen(u64),
    /// A string payload that is not valid UTF-8.
    Utf8,
    /// Input nested more deeply than `MAX_DEPTH`.
    DepthLimit,
    /// Bytes were left over after a whole-input decode.
    TrailingBytes,
    /// An accessor expected one variant and found another; carries the
    /// selector of what was actually there.
    WrongVariant(crate::casting::Tag),
}

/// A decoding failure together with the byte position at which it was
/// detected and the input it was detected in.
#[derive(Debug, Clone, PartialEq, Eq)]
pub struct FullError {
    pub err: Error,
    pub buf: Vec<u8>,
    pub pos: usize,
}

/// Deepest nesting the decoder will follow before failing with
/// [`Error::DepthLimit`].
pub const MAX_DEPTH: u64 = 100;

} // verus!
