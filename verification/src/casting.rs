//! The header codec: packing and unpacking of the one-byte value header,
//! and the trimming rules for variable-width numeric payloads.
//!
//! A header byte holds a four-bit *kind* in its high nibble ([`H4`]) and a
//! four-bit *modifier* in its low nibble.  What the modifier means depends
//! on the kind: under [`H4::Ext1`] it selects one of the eight payload-less
//! extension markers ([`Ext1`]); under [`H4::Float`] it is the payload byte
//! length; under every other kind it is a small inline magnitude or one of
//! the [`EXT8`]..[`EXT64`] sentinels announcing an explicit 1/2/4/8-byte
//! magnitude.

use vstd::prelude::*;
use crate::Error;
use crate::model::{
    type_seq_view,
    type_view,
    value_as_type,
    value_pair_seq_view,
    value_seq_as_type,
    value_seq_view,
    value_seq_view_props,
    value_view,
    TypeView,
    ValueView,
};
use crate::{EnumVariantId, Type, TypeId, Value};

verus! {

/// The kind nibble of a header byte (high four bits).
#[derive(Debug, Clone, Copy, PartialEq, Eq)]
pub enum H4 {
    /// Extension-marker family: the modifier picks an [`Ext1`] marker.
    Ext1,
    Int,
    UInt,
    Float,
    String,
    Bytes,
    List,
    Mapping,
    Tuple,
    CEnum,
    Enum,
    Struct,
}

/// The eight payload-less extension markers, selected by the modifier
/// nibble of an [`H4::Ext1`] header.
#[derive(Debug, Clone, Copy, PartialEq, Eq)]
pub enum Ext1 {
    Unit,
    False,
    True,
    Absent,
    Present,
    Alias,
    Type,
    TypeId,
}

/// Smallest modifier value that is a magnitude sentinel rather than an
/// inline magnitude: [`EXT8`] announces a 1-byte magnitude, [`EXT16`],
/// [`EXT32`] and [`EXT64`] a 2-, 4- and 8-byte one.
pub const EXT8: u8 = 0xc;

pub const EXT16: u8 = 0xd;

pub const EXT32: u8 = 0xe;

pub const EXT64: u8 = 0xf;

impl H4 {
    /// The numeric value of this kind nibble.
    pub open spec fn spec_nibble(self) -> u8 {
        match self {
            H4::Ext1 => 0x0,
            H4::Int => 0x1,
            H4::UInt => 0x2,
            H4::Float => 0x3,
            H4::String => 0x4,
            H4::Bytes => 0x5,
            H4::List => 0x6,
            H4::Mapping => 0x7,
            H4::Tuple => 0x8,
            H4::CEnum => 0x9,
            H4::Enum => 0xa,
            H4::Struct => 0xb,
        }
    }

    /// The numeric value of this kind nibble.
    #[verifier::when_used_as_spec(spec_nibble)]
    pub fn nibble(self) -> (r: u8)
        ensures
            r == self.spec_nibble(),
    {
        match self {
            H4::Ext1 => 0x0,
            H4::Int => 0x1,
            H4::UInt => 0x2,
            H4::Float => 0x3,
            H4::String => 0x4,
            H4::Bytes => 0x5,
            H4::List => 0x6,
            H4::Mapping => 0x7,
            H4::Tuple => 0x8,
            H4::CEnum => 0x9,
            H4::Enum => 0xa,
            H4::Struct => 0xb,
        }
    }

    /// True of the kinds whose payload is a single number: `Int`, `UInt`
    /// and `Float`.
    pub open spec fn spec_is_num(&self) -> bool {
        *self is Int || *self is UInt || *self is Float
    }

    /// True of the kinds whose payload is a single number: `Int`, `UInt`
    /// and `Float`.
    #[verifier::when_used_as_spec(spec_is_num)]
    pub fn is_num(&self) -> (r: bool)
        ensures
            r == self.spec_is_num(),
    {
        matches!(*self, H4::Int | H4::UInt | H4::Float)
    }
}

/// The kind named by a nibble value, or `None` for the four nibble values
/// (0xc..0xf) that name no kind.
pub open spec fn spec_h4_of_nibble(k: u8) -> Option<H4> {
    if k == 0x0 {
        Some(H4::Ext1)
    } else if k == 0x1 {
        Some(H4::Int)
    } else if k == 0x2 {
        Some(H4::UInt)
    } else if k == 0x3 {
        Some(H4::Float)
    } else if k == 0x4 {
        Some(H4::String)
    } else if k == 0x5 {
        Some(H4::Bytes)
    } else if k == 0x6 {
        Some(H4::List)
    } else if k == 0x7 {
        Some(H4::Mapping)
    } else if k == 0x8 {
        Some(H4::Tuple)
    } else if k == 0x9 {
        Some(H4::CEnum)
    } else if k == 0xa {
        Some(H4::Enum)
    } else if k == 0xb {
        Some(H4::Struct)
    } else {
        None
    }
}

/// The header byte with kind `h4` and modifier `l4`.
pub open spec fn spec_header(h4: H4, l4: u8) -> u8
    recommends
        l4 < 16,
{
    (h4.spec_nibble() * 16 + l4) as u8
}

/// Packs a kind and a modifier into one header byte.
pub fn from_h4l4(h4: H4, l4: u8) -> (r: u8)
    requires
        l4 < 16,
    ensures
        r == spec_header(h4, l4),
{
    let n = h4.nibble();
    proof {
        assert((n << 4) | l4 == n * 16 + l4) by (bit_vector)
            requires
                n < 16 && l4 < 16,
        ;
    }
    (n << 4) | l4
}

/// Splits a header byte into its kind and modifier; a high nibble that
/// names no kind is a tag error identifying the byte.
pub fn to_h4l4(n: u8) -> (r: Result<(H4, u8), Error>)
    ensures
        match r {
            Ok((h4, l4)) => spec_h4_of_nibble(n / 16) == Some(h4) && l4 == n % 16 && l4 < 16
                && spec_header(h4, l4) == n,
            Err(e) => e == Error::Tag(n) && spec_h4_of_nibble(n / 16) is None,
        },
{
    let k = n >> 4;
    let l4 = n & 0xf;
    proof {
        assert(n >> 4 == n / 16 && (n & 0xf) == n % 16 && n / 16 < 16 && (n / 16) * 16 + n % 16
            == n) by (bit_vector);
    }
    let h4 = match k {
        0x0 => H4::Ext1,
        0x1 => H4::Int,
        0x2 => H4::UInt,
        0x3 => H4::Float,
        0x4 => H4::String,
        0x5 => H4::Bytes,
        0x6 => H4::List,
        0x7 => H4::Mapping,
        0x8 => H4::Tuple,
        0x9 => H4::CEnum,
        0xa => H4::Enum,
        0xb => H4::Struct,
        _ => {
            return Err(Error::Tag(n));
        },
    };
    Ok((h4, l4))
}

impl Ext1 {
    /// The modifier nibble that encodes this marker under [`H4::Ext1`].
    pub open spec fn spec_marker(self) -> u8 {
        match self {
            Ext1::Unit => 0x0,
            Ext1::False => 0x1,
            Ext1::True => 0x2,
            Ext1::Absent => 0x3,
            Ext1::Present => 0x4,
            Ext1::Alias => 0x5,
            Ext1::Type => 0x6,
            Ext1::TypeId => 0x7,
        }
    }

    /// The modifier nibble that encodes this marker under [`H4::Ext1`].
    #[verifier::when_used_as_spec(spec_marker)]
    pub fn marker(self) -> (r: u8)
        ensures
            r == self.spec_marker(),
    {
        match self {
            Ext1::Unit => 0x0,
            Ext1::False => 0x1,
            Ext1::True => 0x2,
            Ext1::Absent => 0x3,
            Ext1::Present => 0x4,
            Ext1::Alias => 0x5,
            Ext1::Type => 0x6,
            Ext1::TypeId => 0x7,
        }
    }
}

/// The marker named by a modifier nibble, or `None` for the eight values
/// (0x8..0xf) that name no marker.
pub open spec fn spec_ext1_of_marker(m: u8) -> Option<Ext1> {
    if m == 0x0 {
        Some(Ext1::Unit)
    } else if m == 0x1 {
        Some(Ext1::False)
    } else if m == 0x2 {
        Some(Ext1::True)
    } else if m == 0x3 {
        Some(Ext1::Absent)
    } else if m == 0x4 {
        Some(Ext1::Present)
    } else if m == 0x5 {
        Some(Ext1::Alias)
    } else if m == 0x6 {
        Some(Ext1::Type)
    } else if m == 0x7 {
        Some(Ext1::TypeId)
    } else {
        None
    }
}

/// The marker selected by the modifier of an [`H4::Ext1`] header byte;
/// modifiers 0x8..0xf name no marker.
pub fn ext1_of_marker(m: u8) -> (r: Option<Ext1>)
    ensures
        r == spec_ext1_of_marker(m),
{
    match m {
        0x0 => Some(Ext1::Unit),
        0x1 => Some(Ext1::False),
        0x2 => Some(Ext1::True),
        0x3 => Some(Ext1::Absent),
        0x4 => Some(Ext1::Present),
        0x5 => Some(Ext1::Alias),
        0x6 => Some(Ext1::Type),
        0x7 => Some(Ext1::TypeId),
        _ => None,
    }
}

/// The zigzag image of a signed integer: non-negative `i` becomes `2*i`,
/// negative `i` becomes `-2*i - 1`, so small magnitudes of either sign
/// stay small.
pub open spec fn spec_zigzag(i: i64) -> u64 {
    if i >= 0 {
        (2 * (i as int)) as u64
    } else {
        (-(2 * (i as int)) - 1) as u64
    }
}

/// The signed integer a zigzag image stands for.
pub open spec fn spec_unzigzag(u: u64) -> i64 {
    if u % 2 == 0 {
        (u / 2) as i64
    } else {
        (-(((u as int) + 1) / 2)) as i64
    }
}

/// Computes the zigzag image of a signed integer.
pub fn zigzag(i: i64) -> (r: u64)
    ensures
        r == spec_zigzag(i),
{
    if i >= 0 {
        (i as u64) * 2
    } else {
        (-(i + 1)) as u64 * 2 + 1
    }
}

/// Recovers the signed integer a zigzag image stands for.
pub fn unzigzag(u: u64) -> (r: i64)
    ensures
        r == spec_unzigzag(u),
{
    let h = (u / 2) as i64;
    if u % 2 == 0 {
        h
    } else {
        -h - 1
    }
}

/// Zigzag and its inverse cancel, in both orders.
pub proof fn lemma_zigzag_inverse(i: i64, u: u64)
    ensures
        spec_unzigzag(spec_zigzag(i)) == i,
        spec_zigzag(spec_unzigzag(u)) == u,
{
}

/// Length of the minimal suffix of an 8-byte big-endian buffer that still
/// carries its unsigned value: everything before it is zero, and at least
/// one byte is always kept.
pub open spec fn spec_bytevar_ulen(s: Seq<u8>) -> int
    recommends
        s.len() == 8,
{
    if s[0] != 0 {
        8
    } else if s[1] != 0 {
        7
    } else if s[2] != 0 {
        6
    } else if s[3] != 0 {
        5
    } else if s[4] != 0 {
        4
    } else if s[5] != 0 {
        3
    } else if s[6] != 0 {
        2
    } else {
        1
    }
}

/// Length of the minimal prefix of an 8-byte buffer that still carries a
/// floating-point bit pattern stored left-aligned: everything after it is
/// zero, and at least one byte is always kept.
pub open spec fn spec_bytevar_flen(s: Seq<u8>) -> int
    recommends
        s.len() == 8,
{
    if s[7] != 0 {
        8
    } else if s[6] != 0 {
        7
    } else if s[5] != 0 {
        6
    } else if s[4] != 0 {
        5
    } else if s[3] != 0 {
        4
    } else if s[2] != 0 {
        3
    } else if s[1] != 0 {
        2
    } else {
        1
    }
}

/// How many trailing bytes of the big-endian scratch buffer an unsigned
/// value needs: leading zero bytes are stripped, one byte at least stays.
pub fn bytevar_ulen(buf: &[u8; 8]) -> (len: usize)
    ensures
        len == spec_bytevar_ulen(buf@),
        1 <= len <= 8,
        forall|j: int| 0 <= j < 8 - len ==> buf@[j] == 0,
{
    let mut i: usize = 0;
    while i < 8
        invariant
            i <= 8,
            forall|j: int| 0 <= j < i ==> buf@[j] == 0,
        decreases 8 - i,
    {
        if buf[i] != 0 {
            return 8 - i;
        }
        i = i + 1;
    }
    1
}

/// How many leading bytes of the scratch buffer a left-aligned
/// floating-point bit pattern needs: trailing zero bytes are stripped, one
/// byte at least stays.
pub fn bytevar_flen(buf: &[u8; 8]) -> (len: usize)
    ensures
        len == spec_bytevar_flen(buf@),
        1 <= len <= 8,
        forall|j: int| len <= j < 8 ==> buf@[j] == 0,
{
    let mut i: usize = 0;
    while i < 8
        invariant
            i <= 8,
            forall|j: int| 8 - i <= j < 8 ==> buf@[j] == 0,
        decreases 8 - i,
    {
        if buf[7 - i] != 0 {
            return 8 - i;
        }
        i = i + 1;
    }
    1
}

/// Start index, within the 8-byte big-endian scratch buffer, of the
/// `len`-byte suffix that an unsigned value is transmitted as.
pub fn bytevar_urange(len: usize) -> (start: usize)
    requires
        1 <= len <= 8,
    ensures
        start == 8 - len,
{
    8 - len
}

/// End index, within the 8-byte scratch buffer, of the `len`-byte prefix
/// that a floating-point bit pattern is transmitted as.
pub fn bytevar_frange(len: usize) -> (end: usize)
    requires
        1 <= len <= 8,
    ensures
        end == len,
{
    len
}

/// One stable selector for every `Type` and `Value` variant, shared by
/// the writer's and the reader's dispatch tables.
#[derive(Debug, Clone, Copy, PartialEq, Eq)]
pub enum Tag {
    Unknown,
    Unit,
    Bool,
    Int,
    UInt,
    Float,
    String,
    Bytes,
    Option,
    List,
    Mapping,
    Tuple,
    Alias,
    CEnum,
    Enum,
    Struct,
    Type,
    TypeId,
}

impl Tag {
    /// The tag byte this selector is written as.
    pub open spec fn spec_code(self) -> u8 {
        match self {
            Tag::Unknown => 0x00,
            Tag::Unit => 0x01,
            Tag::Bool => 0x02,
            Tag::Int => 0x03,
            Tag::UInt => 0x04,
            Tag::Float => 0x05,
            Tag::String => 0x06,
            Tag::Bytes => 0x07,
            Tag::Option => 0x08,
            Tag::List => 0x09,
            Tag::Mapping => 0x0a,
            Tag::Tuple => 0x0b,
            Tag::Alias => 0x0c,
            Tag::CEnum => 0x0d,
            Tag::Enum => 0x0e,
            Tag::Struct => 0x0f,
            Tag::Type => 0x10,
            Tag::TypeId => 0x11,
        }
    }

    /// The tag byte this selector is written as.
    #[verifier::when_used_as_spec(spec_code)]
    pub fn code(self) -> (r: u8)
        ensures
            r == self.spec_code(),
    {
        match self {
            Tag::Unknown => 0x00,
            Tag::Unit => 0x01,
            Tag::Bool => 0x02,
            Tag::Int => 0x03,
            Tag::UInt => 0x04,
            Tag::Float => 0x05,
            Tag::String => 0x06,
            Tag::Bytes => 0x07,
            Tag::Option => 0x08,
            Tag::List => 0x09,
            Tag::Mapping => 0x0a,
            Tag::Tuple => 0x0b,
            Tag::Alias => 0x0c,
            Tag::CEnum => 0x0d,
            Tag::Enum => 0x0e,
            Tag::Struct => 0x0f,
            Tag::Type => 0x10,
            Tag::TypeId => 0x11,
        }
    }
}

/// The selector of a type descriptor's variant.
pub open spec fn spec_type_as_tag(t: TypeView) -> Tag {
    match t {
        TypeView::Unknown => Tag::Unknown,
        TypeView::Unit => Tag::Unit,
        TypeView::Bool => Tag::Bool,
        TypeView::Int => Tag::Int,
        TypeView::UInt => Tag::UInt,
        TypeView::Float => Tag::Float,
        TypeView::String => Tag::String,
        TypeView::Bytes => Tag::Bytes,
        TypeView::Option(_) => Tag::Option,
        TypeView::List(_) => Tag::List,
        TypeView::Mapping(_, _) => Tag::Mapping,
        TypeView::Tuple(_) => Tag::Tuple,
        TypeView::Alias(_) => Tag::Alias,
        TypeView::CEnum(_) => Tag::CEnum,
        TypeView::Enum(_) => Tag::Enum,
        TypeView::Struct(_) => Tag::Struct,
        TypeView::Type => Tag::Type,
        TypeView::TypeId => Tag::TypeId,
    }
}

/// The selector of a value's variant; values have no `Unknown`.
pub open spec fn spec_value_as_tag(v: ValueView) -> Tag {
    match v {
        ValueView::Unit => Tag::Unit,
        ValueView::Bool(_) => Tag::Bool,
        ValueView::Int(_) => Tag::Int,
        ValueView::UInt(_) => Tag::UInt,
        ValueView::Float(_) => Tag::Float,
        ValueView::String(_) => Tag::String,
        ValueView::Bytes(_) => Tag::Bytes,
        ValueView::Option(_, _) => Tag::Option,
        ValueView::List(_, _) => Tag::List,
        ValueView::Mapping(_, _, _) => Tag::Mapping,
        ValueView::Tuple(_) => Tag::Tuple,
        ValueView::Alias(_, _) => Tag::Alias,
        ValueView::CEnum(_, _) => Tag::CEnum,
        ValueView::Enum(_, _, _) => Tag::Enum,
        ValueView::Struct(_, _) => Tag::Struct,
        ValueView::Type(_) => Tag::Type,
        ValueView::TypeId(_) => Tag::TypeId,
    }
}

impl Type {
    /// The selector of this descriptor's variant.
    pub fn as_tag(&self) -> (r: Tag)
        ensures
            r == spec_type_as_tag(self@),
    {
        match self {
            Type::Unknown => Tag::Unknown,
            Type::Unit => Tag::Unit,
            Type::Bool => Tag::Bool,
            Type::Int => Tag::Int,
            Type::UInt => Tag::UInt,
            Type::Float => Tag::Float,
            Type::String => Tag::String,
            Type::Bytes => Tag::Bytes,
            Type::Option(_) => Tag::Option,
            Type::List(_) => Tag::List,
            Type::Mapping(_, _) => Tag::Mapping,
            Type::Tuple(_) => Tag::Tuple,
            Type::Alias(_) => Tag::Alias,
            Type::CEnum(_) => Tag::CEnum,
            Type::Enum(_) => Tag::Enum,
            Type::Struct(_) => Tag::Struct,
            Type::Type => Tag::Type,
            Type::TypeId => Tag::TypeId,
        }
    }
}

impl Value {
    /// The selector of this value's variant.
    pub fn as_tag(&self) -> (r: Tag)
        ensures
            r == spec_value_as_tag(self@),
    {
        match self {
            Value::Unit => Tag::Unit,
            Value::Bool(_) => Tag::Bool,
            Value::Int(_) => Tag::Int,
            Value::UInt(_) => Tag::UInt,
            Value::Float(_) => Tag::Float,
            Value::String(_) => Tag::String,
            Value::Bytes(_) => Tag::Bytes,
            Value::Option(_, _) => Tag::Option,
            Value::List(_, _) => Tag::List,
            Value::Mapping(_, _, _) => Tag::Mapping,
            Value::Tuple(_) => Tag::Tuple,
            Value::Alias(_, _) => Tag::Alias,
            Value::CEnum(_, _) => Tag::CEnum,
            Value::Enum(_, _, _) => Tag::Enum,
            Value::Struct(_, _) => Tag::Struct,
            Value::Type(_) => Tag::Type,
            Value::TypeId(_) => Tag::TypeId,
        }
    }
}

/// A structural copy of a type descriptor.
fn clone_type(t: &Type) -> (r: Type)
    ensures
        r@ == t@,
    decreases *t, 0nat,
{
    match t {
        Type::Unknown => Type::Unknown,
        Type::Unit => Type::Unit,
        Type::Bool => Type::Bool,
        Type::Int => Type::Int,
        Type::UInt => Type::UInt,
        Type::Float => Type::Float,
        Type::String => Type::String,
        Type::Bytes => Type::Bytes,
        Type::Option(inner) => Type::Option(Box::new(clone_type(inner))),
        Type::List(inner) => Type::List(Box::new(clone_type(inner))),
        Type::Mapping(k, v) => Type::Mapping(Box::new(clone_type(k)), Box::new(clone_type(v))),
        Type::Tuple(s) => Type::Tuple(clone_type_vec(s)),
        Type::Alias(id) => Type::Alias(*id),
        Type::CEnum(id) => Type::CEnum(*id),
        Type::Enum(id) => Type::Enum(*id),
        Type::Struct(id) => Type::Struct(*id),
        Type::Type => Type::Type,
        Type::TypeId => Type::TypeId,
    }
}

/// Structural copies of a vector of type descriptors, in order.
fn clone_type_vec(s: &Vec<Type>) -> (r: Vec<Type>)
    ensures
        type_seq_view(r@) == type_seq_view(s@),
        r@.len() == s@.len(),
    decreases s@, 1nat,
{
    let mut out: Vec<Type> = Vec::new();
    let mut i: usize = 0;
    proof {
        assert(type_seq_view(out@) =~= type_seq_view(s@.take(0)));
    }
    while i < s.len()
        invariant
            i <= s.len(),
            out@.len() == i,
            type_seq_view(out@) == type_seq_view(s@.take(i as int)),
        decreases s.len() - i,
    {
        let ghost prev = out@;
        out.push(clone_type(&s[i]));
        proof {
            assert(out@.drop_last() =~= prev);
            assert(s@.take(i as int + 1).drop_last() =~= s@.take(i as int));
            assert(type_seq_view(out@) == type_seq_view(prev).push(type_view(out@.last())));
        }
        i = i + 1;
    }
    proof {
        assert(s@.take(s.len() as int) =~= s@);
    }
    out
}

impl Clone for Type {
    /// A structural copy: the clone has the same model.
    fn clone(&self) -> (r: Type)
        ensures
            r@ == self@,
    {
        clone_type(self)
    }
}

/// A structural copy of a value.
fn clone_value(v: &Value) -> (r: Value)
    ensures
        r@ == v@,
    decreases *v, 0nat,
{
    match v {
        Value::Unit => Value::Unit,
        Value::Bool(b) => Value::Bool(*b),
        Value::Int(x) => Value::Int(*x),
        Value::UInt(u) => Value::UInt(*u),
        Value::Float(f) => Value::Float(*f),
        Value::String(s) => Value::String(s.clone()),
        Value::Bytes(b) => Value::Bytes(clone_bytes(b)),
        Value::Option(t, ov) => Value::Option(
            clone_type(t),
            match &**ov {
                Option::Some(inner) => Box::new(Option::Some(clone_value(inner))),
                Option::None => Box::new(Option::None),
            },
        ),
        Value::List(t, s) => Value::List(clone_type(t), clone_value_vec(s)),
        Value::Mapping(tk, tv, s) => Value::Mapping(
            clone_type(tk),
            clone_type(tv),
            clone_pair_vec(s),
        ),
        Value::Tuple(s) => Value::Tuple(clone_value_vec(s)),
        Value::Alias(id, inner) => Value::Alias(*id, Box::new(clone_value(inner))),
        Value::CEnum(id, ev) => Value::CEnum(*id, *ev),
        Value::Enum(id, ev, inner) => Value::Enum(*id, *ev, Box::new(clone_value(inner))),
        Value::Struct(id, s) => Value::Struct(*id, clone_value_vec(s)),
        Value::Type(t) => Value::Type(clone_type(t)),
        Value::TypeId(id) => Value::TypeId(*id),
    }
}

/// A copy of a byte vector, element for element.
fn clone_bytes(b: &Vec<u8>) -> (r: Vec<u8>)
    ensures
        r@ == b@,
{
    let mut out: Vec<u8> = Vec::new();
    let mut i: usize = 0;
    while i < b.len()
        invariant
            i <= b.len(),
            out@ == b@.take(i as int),
        decreases b.len() - i,
    {
        out.push(b[i]);
        proof {
            assert(out@ =~= b@.take(i as int + 1));
        }
        i = i + 1;
    }
    proof {
        assert(b@.take(b.len() as int) =~= b@);
    }
    out
}

/// Structural copies of a vector of values, in order.
fn clone_value_vec(s: &Vec<Value>) -> (r: Vec<Value>)
    ensures
        value_seq_view(r@) == value_seq_view(s@),
        r@.len() == s@.len(),
    decreases s@, 1nat,
{
    let mut out: Vec<Value> = Vec::new();
    let mut i: usize = 0;
    proof {
        assert(value_seq_view(out@) =~= value_seq_view(s@.take(0)));
    }
    while i < s.len()
        invariant
            i <= s.len(),
            out@.len() == i,
            value_seq_view(out@) == value_seq_view(s@.take(i as int)),
        decreases s.len() - i,
    {
        let ghost prev = out@;
        out.push(clone_value(&s[i]));
        proof {
            assert(out@.drop_last() =~= prev);
            assert(s@.take(i as int + 1).drop_last() =~= s@.take(i as int));
            assert(value_seq_view(out@) == value_seq_view(prev).push(value_view(out@.last())));
        }
        i = i + 1;
    }
    proof {
        assert(s@.take(s.len() as int) =~= s@);
    }
    out
}

/// Structural copies of a vector of key-value pairs, in order.
fn clone_pair_vec(s: &Vec<(Value, Value)>) -> (r: Vec<(Value, Value)>)
    ensures
        value_pair_seq_view(r@) == value_pair_seq_view(s@),
        r@.len() == s@.len(),
    decreases s@, 1nat,
{
    let mut out: Vec<(Value, Value)> = Vec::new();
    let mut i: usize = 0;
    proof {
        assert(value_pair_seq_view(out@) =~= value_pair_seq_view(s@.take(0)));
    }
    while i < s.len()
        invariant
            i <= s.len(),
            out@.len() == i,
            value_pair_seq_view(out@) == value_pair_seq_view(s@.take(i as int)),
        decreases s.len() - i,
    {
        let ghost prev = out@;
        let k = clone_value(&s[i].0);
        let v = clone_value(&s[i].1);
        out.push((k, v));
        proof {
            assert(out@.drop_last() =~= prev);
            assert(s@.take(i as int + 1).drop_last() =~= s@.take(i as int));
            assert(value_pair_seq_view(out@) == value_pair_seq_view(prev).push(
                (value_view(out@.last().0), value_view(out@.last().1)),
            ));
        }
        i = i + 1;
    }
    proof {
        assert(s@.take(s.len() as int) =~= s@);
    }
    out
}

impl Clone for Value {
    /// A structural copy: the clone has the same model.
    fn clone(&self) -> (r: Value)
        ensures
            r@ == self@,
    {
        clone_value(self)
    }
}

impl Value {
    /// The shape of this value: exact for structural variants, carrying
    /// only the type id for nominal ones.
    pub fn as_type(&self) -> (r: Type)
        ensures
            r@ == value_as_type(self@),
        decreases *self, 2nat,
    {
        match self {
            Value::Unit => Type::Unit,
            Value::Bool(_) => Type::Bool,
            Value::Int(_) => Type::Int,
            Value::UInt(_) => Type::UInt,
            Value::Float(_) => Type::Float,
            Value::String(_) => Type::String,
            Value::Bytes(_) => Type::Bytes,
            Value::Option(t, _) => Type::Option(Box::new(clone_type(t))),
            Value::List(t, _) => Type::List(Box::new(clone_type(t))),
            Value::Mapping(tk, tv, _) => Type::Mapping(
                Box::new(clone_type(tk)),
                Box::new(clone_type(tv)),
            ),
            Value::Tuple(s) => Type::Tuple(as_type_vec(s)),
            Value::Alias(id, _) => Type::Alias(*id),
            Value::CEnum(id, _) => Type::CEnum(*id),
            Value::Enum(id, _, _) => Type::Enum(*id),
            Value::Struct(id, _) => Type::Struct(*id),
            Value::Type(_) => Type::Type,
            Value::TypeId(_) => Type::TypeId,
        }
    }
}

/// The shapes of a vector of values, in order.
fn as_type_vec(s: &Vec<Value>) -> (r: Vec<Type>)
    ensures
        type_seq_view(r@) == value_seq_as_type(value_seq_view(s@)),
    decreases s@, 3nat,
{
    let mut out: Vec<Type> = Vec::new();
    let mut i: usize = 0;
    proof {
        value_seq_view_props(s@);
        assert(type_seq_view(out@) =~= value_seq_as_type(value_seq_view(s@.take(0))));
    }
    while i < s.len()
        invariant
            i <= s.len(),
            out@.len() == i,
            type_seq_view(out@) == value_seq_as_type(value_seq_view(s@.take(i as int))),
        decreases s.len() - i,
    {
        let ghost prev = out@;
        out.push(s[i].as_type());
        proof {
            assert(out@.drop_last() =~= prev);
            assert(s@.take(i as int + 1).drop_last() =~= s@.take(i as int));
            assert(type_seq_view(out@) == type_seq_view(prev).push(type_view(out@.last())));
            assert(value_seq_view(s@.take(i as int + 1)) == value_seq_view(
                s@.take(i as int),
            ).push(value_view(s@[i as int])));
            let pushed = value_seq_view(s@.take(i as int)).push(value_view(s@[i as int]));
            assert(pushed.drop_last() =~= value_seq_view(s@.take(i as int)));
            assert(pushed.last() == value_view(s@[i as int]));
            assert(value_seq_as_type(pushed) == value_seq_as_type(
                value_seq_view(s@.take(i as int)),
            ).push(value_as_type(value_view(s@[i as int]))));
        }
        i = i + 1;
    }
    proof {
        assert(s@.take(s.len() as int) =~= s@);
    }
    out
}


impl Value {
    /// This value as a unit, or a wrong-variant error naming what it is.
    pub fn into_unit(self) -> (r: Result<(), Error>)
        ensures
            r is Ok <==> self@ is Unit,
            r is Err ==> r == Err::<(), Error>(Error::WrongVariant(spec_value_as_tag(self@))),
    {
        match self {
            Value::Unit => Ok(()),
            v => Err(Error::WrongVariant(v.as_tag())),
        }
    }

    /// This value as a boolean, or a wrong-variant error.
    pub fn into_bool(self) -> (r: Result<bool, Error>)
        ensures
            match r {
                Ok(b) => self@ == ValueView::Bool(b),
                Err(e) => !(self@ is Bool) && e == Error::WrongVariant(
                    spec_value_as_tag(self@),
                ),
            },
    {
        match self {
            Value::Bool(b) => Ok(b),
            v => Err(Error::WrongVariant(v.as_tag())),
        }
    }

    /// This value as a signed integer, or a wrong-variant error.
    pub fn into_int(self) -> (r: Result<i64, Error>)
        ensures
            match r {
                Ok(x) => self@ == ValueView::Int(x),
                Err(e) => !(self@ is Int) && e == Error::WrongVariant(spec_value_as_tag(self@)),
            },
    {
        match self {
            Value::Int(x) => Ok(x),
            v => Err(Error::WrongVariant(v.as_tag())),
        }
    }

    /// This value as an unsigned integer, or a wrong-variant error.
    pub fn into_uint(self) -> (r: Result<u64, Error>)
        ensures
            match r {
                Ok(u) => self@ == ValueView::UInt(u),
                Err(e) => !(self@ is UInt) && e == Error::WrongVariant(
                    spec_value_as_tag(self@),
                ),
            },
    {
        match self {
            Value::UInt(u) => Ok(u),
            v => Err(Error::WrongVariant(v.as_tag())),
        }
    }

    /// This value as a floating-point bit pattern, or a wrong-variant
    /// error.
    pub fn into_float(self) -> (r: Result<u64, Error>)
        ensures
            match r {
                Ok(f) => self@ == ValueView::Float(f),
                Err(e) => !(self@ is Float) && e == Error::WrongVariant(
                    spec_value_as_tag(self@),
                ),
            },
    {
        match self {
            Value::Float(f) => Ok(f),
            v => Err(Error::WrongVariant(v.as_tag())),
        }
    }

    /// This value as a string, or a wrong-variant error.
    pub fn into_string(self) -> (r: Result<String, Error>)
        ensures
            match r {
                Ok(s) => self@ == ValueView::String(s@),
                Err(e) => !(self@ is String) && e == Error::WrongVariant(
                    spec_value_as_tag(self@),
                ),
            },
    {
        match self {
            Value::String(s) => Ok(s),
            v => Err(Error::WrongVariant(v.as_tag())),
        }
    }

    /// This value as a byte blob, or a wrong-variant error.
    pub fn into_bytes(self) -> (r: Result<Vec<u8>, Error>)
        ensures
            match r {
                Ok(b) => self@ == ValueView::Bytes(b@),
                Err(e) => !(self@ is Bytes) && e == Error::WrongVariant(
                    spec_value_as_tag(self@),
                ),
            },
    {
        match self {
            Value::Bytes(b) => Ok(b),
            v => Err(Error::WrongVariant(v.as_tag())),
        }
    }

    /// The element of an optional value — present or absent — or a
    /// wrong-variant error.
    pub fn into_option(self) -> (r: Result<Option<Value>, Error>)
        ensures
            match r {
                Ok(o) => self@ matches ValueView::Option(_, ov) && (match o {
                    Option::Some(x) => ov matches Option::Some(b) && x@ == *b,
                    Option::None => ov is None,
                }),
                Err(e) => !(self@ is Option) && e == Error::WrongVariant(
                    spec_value_as_tag(self@),
                ),
            },
    {
        match self {
            Value::Option(_t, ov) => Ok(*ov),
            v => Err(Error::WrongVariant(v.as_tag())),
        }
    }

    /// The elements of a list value, or a wrong-variant error.
    pub fn into_list(self) -> (r: Result<Vec<Value>, Error>)
        ensures
            match r {
                Ok(s) => self@ matches ValueView::List(_, vs) && value_seq_view(s@) == vs,
                Err(e) => !(self@ is List) && e == Error::WrongVariant(
                    spec_value_as_tag(self@),
                ),
            },
    {
        match self {
            Value::List(_t, s) => Ok(s),
            v => Err(Error::WrongVariant(v.as_tag())),
        }
    }

    /// The key-value pairs of a mapping value, or a wrong-variant error.
    pub fn into_mapping(self) -> (r: Result<Vec<(Value, Value)>, Error>)
        ensures
            match r {
                Ok(s) => self@ matches ValueView::Mapping(_, _, ps) && value_pair_seq_view(s@)
                    == ps,
                Err(e) => !(self@ is Mapping) && e == Error::WrongVariant(
                    spec_value_as_tag(self@),
                ),
            },
    {
        match self {
            Value::Mapping(_tk, _tv, s) => Ok(s),
            v => Err(Error::WrongVariant(v.as_tag())),
        }
    }

    /// The members of a tuple value, or a wrong-variant error.
    pub fn into_tuple(self) -> (r: Result<Vec<Value>, Error>)
        ensures
            match r {
                Ok(s) => self@ matches ValueView::Tuple(vs) && value_seq_view(s@) == vs,
                Err(e) => !(self@ is Tuple) && e == Error::WrongVariant(
                    spec_value_as_tag(self@),
                ),
            },
    {
        match self {
            Value::Tuple(s) => Ok(s),
            v => Err(Error::WrongVariant(v.as_tag())),
        }
    }

    /// The value behind an alias, or a wrong-variant error.
    pub fn into_alias(self) -> (r: Result<Value, Error>)
        ensures
            match r {
                Ok(x) => self@ matches ValueView::Alias(_, b) && x@ == *b,
                Err(e) => !(self@ is Alias) && e == Error::WrongVariant(
                    spec_value_as_tag(self@),
                ),
            },
    {
        match self {
            Value::Alias(_id, inner) => Ok(*inner),
            v => Err(Error::WrongVariant(v.as_tag())),
        }
    }

    /// The variant id of a unit-variant enum value, or a wrong-variant
    /// error.
    pub fn into_c_enum(self) -> (r: Result<EnumVariantId, Error>)
        ensures
            match r {
                Ok(ev) => self@ matches ValueView::CEnum(_, e) && ev == e,
                Err(e) => !(self@ is CEnum) && e == Error::WrongVariant(
                    spec_value_as_tag(self@),
                ),
            },
    {
        match self {
            Value::CEnum(_id, ev) => Ok(ev),
            v => Err(Error::WrongVariant(v.as_tag())),
        }
    }

    /// The variant id and payload of an enum value, or a wrong-variant
    /// error.
    pub fn into_enum(self) -> (r: Result<(EnumVariantId, Value), Error>)
        ensures
            match r {
                Ok(p) => self@ matches ValueView::Enum(_, e, b) && p.0 == e && p.1@ == *b,
                Err(e) => !(self@ is Enum) && e == Error::WrongVariant(
                    spec_value_as_tag(self@),
                ),
            },
    {
        match self {
            Value::Enum(_id, ev, inner) => Ok((ev, *inner)),
            v => Err(Error::WrongVariant(v.as_tag())),
        }
    }

    /// The fields of a struct value, or a wrong-variant error.
    pub fn into_struct(self) -> (r: Result<Vec<Value>, Error>)
        ensures
            match r {
                Ok(s) => self@ matches ValueView::Struct(_, vs) && value_seq_view(s@) == vs,
                Err(e) => !(self@ is Struct) && e == Error::WrongVariant(
                    spec_value_as_tag(self@),
                ),
            },
    {
        match self {
            Value::Struct(_id, s) => Ok(s),
            v => Err(Error::WrongVariant(v.as_tag())),
        }
    }

    /// The type descriptor a type value carries, or a wrong-variant
    /// error.
    pub fn into_type(self) -> (r: Result<Type, Error>)
        ensures
            match r {
                Ok(t) => self@ == ValueView::Type(t@),
                Err(e) => !(self@ is Type) && e == Error::WrongVariant(
                    spec_value_as_tag(self@),
                ),
            },
    {
        match self {
            Value::Type(t) => Ok(t),
            v => Err(Error::WrongVariant(v.as_tag())),
        }
    }

    /// The type id a type-id value carries, or a wrong-variant error.
    pub fn into_type_id(self) -> (r: Result<TypeId, Error>)
        ensures
            match r {
                Ok(id) => self@ == ValueView::TypeId(id@),
                Err(e) => !(self@ is TypeId) && e == Error::WrongVariant(
                    spec_value_as_tag(self@),
                ),
            },
    {
        match self {
            Value::TypeId(id) => Ok(id),
            v => Err(Error::WrongVariant(v.as_tag())),
        }
    }
}

/// A native type that maps itself to and from a [`Value`] tree.  The
/// codec transports such trees; what a faithful mapping means is the
/// implementing type's own business.
pub trait Schema: Sized {
    /// This native value as a [`Value`] tree.
    fn serialize(self) -> Value;

    /// The native value a [`Value`] tree stands for.
    fn deserialize(v: Value) -> Self;
}

impl Value {
    /// Builds a value from a native one through its [`Schema`].
    pub fn serialize_from<T: Schema>(val: T) -> Value {
        val.serialize()
    }

    /// Turns this value into a native one through its [`Schema`].
    pub fn deserialize_into<T: Schema>(self) -> T {
        T::deserialize(self)
    }
}

} // verus!
