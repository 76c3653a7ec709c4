//! Mathematical model of the data types.
//!
//! Each executable type has a ghost counterpart holding `Seq`s in place of
//! `Vec`s, `String`s and arrays, reached through `@`.  All wire-format
//! specifications and proofs speak about these model types.

use vstd::prelude::*;
use crate::{HashId, StdId, Type, TypeId, Value};

verus! {

/// Model of a [`TypeId`].
#[verifier::ext_equal]
pub enum TypeIdView {
    Anonymous,
    Std { schema: u8, id: u16 },
    Hash { hash: Seq<u8> },
}

impl View for StdId {
    type V = StdId;

    open spec fn view(&self) -> StdId {
        *self
    }
}

impl View for TypeId {
    type V = TypeIdView;

    open spec fn view(&self) -> TypeIdView {
        match *self {
            TypeId::Anonymous => TypeIdView::Anonymous,
            TypeId::Std(s) => TypeIdView::Std { schema: s.schema, id: s.id },
            TypeId::Hash(h) => TypeIdView::Hash { hash: h.hash@ },
        }
    }
}

/// Model of a [`Type`].
#[verifier::ext_equal]
pub enum TypeView {
    Unknown,
    Unit,
    Bool,
    Int,
    UInt,
    Float,
    String,
    Bytes,
    Option(Box<TypeView>),
    List(Box<TypeView>),
    Mapping(Box<TypeView>, Box<TypeView>),
    Tuple(Seq<TypeView>),
    Alias(TypeIdView),
    CEnum(TypeIdView),
    Enum(TypeIdView),
    Struct(TypeIdView),
    Type,
    TypeId,
}

/// Model of a [`Value`].
#[verifier::ext_equal]
pub enum ValueView {
    Unit,
    Bool(bool),
    Int(i64),
    UInt(u64),
    Float(u64),
    String(Seq<char>),
    Bytes(Seq<u8>),
    Option(TypeView, Option<Box<ValueView>>),
    List(TypeView, Seq<ValueView>),
    Mapping(TypeView, TypeView, Seq<(ValueView, ValueView)>),
    Tuple(Seq<ValueView>),
    Alias(TypeIdView, Box<ValueView>),
    CEnum(TypeIdView, u64),
    Enum(TypeIdView, u64, Box<ValueView>),
    Struct(TypeIdView, Seq<ValueView>),
    Type(TypeView),
    TypeId(TypeIdView),
}

/// The models of a sequence of type descriptors, in order.
pub open spec fn type_seq_view(s: Seq<Type>) -> Seq<TypeView>
    decreases s,
{
    if s.len() == 0 {
        Seq::empty()
    } else {
        type_seq_view(s.drop_last()).push(type_view(s.last()))
    }
}

/// The model of a type descriptor.
pub open spec fn type_view(t: Type) -> TypeView
    decreases t,
{
    match t {
        Type::Unknown => TypeView::Unknown,
        Type::Unit => TypeView::Unit,
        Type::Bool => TypeView::Bool,
        Type::Int => TypeView::Int,
        Type::UInt => TypeView::UInt,
        Type::Float => TypeView::Float,
        Type::String => TypeView::String,
        Type::Bytes => TypeView::Bytes,
        Type::Option(inner) => TypeView::Option(Box::new(type_view(*inner))),
        Type::List(inner) => TypeView::List(Box::new(type_view(*inner))),
        Type::Mapping(k, v) => TypeView::Mapping(
            Box::new(type_view(*k)),
            Box::new(type_view(*v)),
        ),
        Type::Tuple(s) => TypeView::Tuple(type_seq_view(s@)),
        Type::Alias(id) => TypeView::Alias(id@),
        Type::CEnum(id) => TypeView::CEnum(id@),
        Type::Enum(id) => TypeView::Enum(id@),
        Type::Struct(id) => TypeView::Struct(id@),
        Type::Type => TypeView::Type,
        Type::TypeId => TypeView::TypeId,
    }
}

impl View for Type {
    type V = TypeView;

    open spec fn view(&self) -> TypeView {
        type_view(*self)
    }
}

/// The models of a sequence of values, in order.
pub open spec fn value_seq_view(s: Seq<Value>) -> Seq<ValueView>
    decreases s,
{
    if s.len() == 0 {
        Seq::empty()
    } else {
        value_seq_view(s.drop_last()).push(value_view(s.last()))
    }
}

/// The models of a sequence of key-value pairs, in order.
pub open spec fn value_pair_seq_view(s: Seq<(Value, Value)>) -> Seq<(ValueView, ValueView)>
    decreases s,
{
    if s.len() == 0 {
        Seq::empty()
    } else {
        value_pair_seq_view(s.drop_last()).push(
            (value_view(s.last().0), value_view(s.last().1)),
        )
    }
}

/// The model of a value.
pub open spec fn value_view(v: Value) -> ValueView
    decreases v,
{
    match v {
        Value::Unit => ValueView::Unit,
        Value::Bool(b) => ValueView::Bool(b),
        Value::Int(i) => ValueView::Int(i),
        Value::UInt(u) => ValueView::UInt(u),
        Value::Float(f) => ValueView::Float(f),
        Value::String(s) => ValueView::String(s@),
        Value::Bytes(b) => ValueView::Bytes(b@),
        Value::Option(t, ov) => ValueView::Option(
            t@,
            match *ov {
                Option::Some(inner) => Option::Some(Box::new(value_view(inner))),
                Option::None => Option::None,
            },
        ),
        Value::List(t, s) => ValueView::List(t@, value_seq_view(s@)),
        Value::Mapping(tk, tv, s) => ValueView::Mapping(
            tk@,
            tv@,
            value_pair_seq_view(s@),
        ),
        Value::Tuple(s) => ValueView::Tuple(value_seq_view(s@)),
        Value::Alias(id, inner) => ValueView::Alias(id@, Box::new(value_view(*inner))),
        Value::CEnum(id, ev) => ValueView::CEnum(id@, ev),
        Value::Enum(id, ev, inner) => ValueView::Enum(id@, ev, Box::new(value_view(*inner))),
        Value::Struct(id, s) => ValueView::Struct(id@, value_seq_view(s@)),
        Value::Type(t) => ValueView::Type(t@),
        Value::TypeId(id) => ValueView::TypeId(id@),
    }
}

impl View for Value {
    type V = ValueView;

    open spec fn view(&self) -> ValueView {
        value_view(*self)
    }
}

/// Length and elementwise description of [`type_seq_view`].
pub broadcast proof fn type_seq_view_props(s: Seq<Type>)
    ensures
        (#[trigger] type_seq_view(s)).len() == s.len(),
        forall|i: int| 0 <= i < s.len() ==> type_seq_view(s)[i] == type_view(s[i]),
    decreases s,
{
    if s.len() > 0 {
        type_seq_view_props(s.drop_last());
    }
}

/// Length and elementwise description of [`value_seq_view`].
pub broadcast proof fn value_seq_view_props(s: Seq<Value>)
    ensures
        (#[trigger] value_seq_view(s)).len() == s.len(),
        forall|i: int| 0 <= i < s.len() ==> value_seq_view(s)[i] == value_view(s[i]),
    decreases s,
{
    if s.len() > 0 {
        value_seq_view_props(s.drop_last());
    }
}

/// Length and elementwise description of [`value_pair_seq_view`].
pub broadcast proof fn value_pair_seq_view_props(s: Seq<(Value, Value)>)
    ensures
        (#[trigger] value_pair_seq_view(s)).len() == s.len(),
        forall|i: int|
            0 <= i < s.len() ==> value_pair_seq_view(s)[i] == (
            value_view(s[i].0),
            value_view(s[i].1),
            ),
    decreases s,
{
    if s.len() > 0 {
        value_pair_seq_view_props(s.drop_last());
    }
}

/// The shape of a value: exact for structural variants, and carrying
/// only the type id for nominal ones.
pub open spec fn value_as_type(v: ValueView) -> TypeView
    decreases v,
{
    match v {
        ValueView::Unit => TypeView::Unit,
        ValueView::Bool(_) => TypeView::Bool,
        ValueView::Int(_) => TypeView::Int,
        ValueView::UInt(_) => TypeView::UInt,
        ValueView::Float(_) => TypeView::Float,
        ValueView::String(_) => TypeView::String,
        ValueView::Bytes(_) => TypeView::Bytes,
        ValueView::Option(t, _) => TypeView::Option(Box::new(t)),
        ValueView::List(t, _) => TypeView::List(Box::new(t)),
        ValueView::Mapping(tk, tv, _) => TypeView::Mapping(Box::new(tk), Box::new(tv)),
        ValueView::Tuple(s) => TypeView::Tuple(value_seq_as_type(s)),
        ValueView::Alias(id, _) => TypeView::Alias(id),
        ValueView::CEnum(id, _) => TypeView::CEnum(id),
        ValueView::Enum(id, _, _) => TypeView::Enum(id),
        ValueView::Struct(id, _) => TypeView::Struct(id),
        ValueView::Type(_) => TypeView::Type,
        ValueView::TypeId(_) => TypeView::TypeId,
    }
}

/// The shapes of a sequence of values, in order.
pub open spec fn value_seq_as_type(s: Seq<ValueView>) -> Seq<TypeView>
    decreases s,
{
    if s.len() == 0 {
        Seq::empty()
    } else {
        value_seq_as_type(s.drop_last()).push(value_as_type(s.last()))
    }
}

/// A well-formed `TypeId` model: the hash is seven bytes long, and a
/// registry id keeps its schema byte clear of the `Anonymous` (0x00) and
/// `Hash` (0xff) selector values it shares a byte with on the wire.
pub open spec fn type_id_wf(id: TypeIdView) -> bool {
    match id {
        TypeIdView::Anonymous => true,
        TypeIdView::Std { schema, id } => 0x00 < schema < 0xff,
        TypeIdView::Hash { hash } => hash.len() == 7,
    }
}

/// The larger of two depths.
pub open spec fn depth_max(a: nat, b: nat) -> nat {
    if a >= b {
        a
    } else {
        b
    }
}

/// A well-formed `Type` model: tuple arities fit the one-byte arity field,
/// and every nominal reference is well formed.
pub open spec fn type_wf(t: TypeView) -> bool
    decreases t,
{
    match t {
        TypeView::Option(inner) => type_wf(*inner),
        TypeView::List(inner) => type_wf(*inner),
        TypeView::Mapping(k, v) => type_wf(*k) && type_wf(*v),
        TypeView::Tuple(s) => s.len() <= 255 && type_seq_wf(s),
        TypeView::Alias(id) => type_id_wf(id),
        TypeView::CEnum(id) => type_id_wf(id),
        TypeView::Enum(id) => type_id_wf(id),
        TypeView::Struct(id) => type_id_wf(id),
        _ => true,
    }
}

/// Every type descriptor of the sequence is well formed.
pub open spec fn type_seq_wf(s: Seq<TypeView>) -> bool
    decreases s,
{
    s.len() == 0 || (type_seq_wf(s.drop_last()) && type_wf(s.last()))
}

/// A well-formed `Value` model: every embedded type and type id is well
/// formed, and every length fits the platform size type, as the decoder
/// demands.
pub open spec fn value_wf(v: ValueView) -> bool
    decreases v,
{
    match v {
        ValueView::String(s) => vstd::utf8::encode_utf8(s).len() <= usize::MAX,
        ValueView::Bytes(b) => b.len() <= usize::MAX,
        ValueView::Option(t, ov) => type_wf(t) && match ov {
            Option::Some(inner) => value_wf(*inner),
            Option::None => true,
        },
        ValueView::List(t, s) => type_wf(t) && s.len() <= usize::MAX && value_seq_wf(s),
        ValueView::Mapping(tk, tv, s) => type_wf(tk) && type_wf(tv) && s.len() <= usize::MAX
            && value_pair_seq_wf(s),
        ValueView::Tuple(s) => s.len() <= usize::MAX && value_seq_wf(s),
        ValueView::Alias(id, inner) => type_id_wf(id) && value_wf(*inner),
        ValueView::CEnum(id, ev) => type_id_wf(id),
        ValueView::Enum(id, ev, inner) => type_id_wf(id) && value_wf(*inner),
        ValueView::Struct(id, s) => type_id_wf(id) && s.len() <= usize::MAX && value_seq_wf(s),
        ValueView::Type(t) => type_wf(t),
        ValueView::TypeId(id) => type_id_wf(id),
        _ => true,
    }
}

/// Every value of the sequence is well formed.
pub open spec fn value_seq_wf(s: Seq<ValueView>) -> bool
    decreases s,
{
    s.len() == 0 || (value_seq_wf(s.drop_last()) && value_wf(s.last()))
}

/// Every key and value of the pair sequence is well formed.
pub open spec fn value_pair_seq_wf(s: Seq<(ValueView, ValueView)>) -> bool
    decreases s,
{
    s.len() == 0 || (value_pair_seq_wf(s.drop_last()) && value_wf(s.last().0) && value_wf(
        s.last().1,
    ))
}

/// Nesting depth of a type descriptor: the recursion budget a decoder
/// needs to read it back.
pub open spec fn type_depth(t: TypeView) -> nat
    decreases t,
{
    match t {
        TypeView::Option(inner) => 1 + type_depth(*inner),
        TypeView::List(inner) => 1 + type_depth(*inner),
        TypeView::Mapping(k, v) => 1 + depth_max(type_depth(*k), type_depth(*v)),
        TypeView::Tuple(s) => 1 + type_seq_depth(s),
        _ => 1,
    }
}

/// Largest depth among a sequence of type descriptors.
pub open spec fn type_seq_depth(s: Seq<TypeView>) -> nat
    decreases s,
{
    if s.len() == 0 {
        0
    } else {
        depth_max(type_seq_depth(s.drop_last()), type_depth(s.last()))
    }
}

/// Nesting depth of a value: the recursion budget a decoder needs to read
/// it back.
pub open spec fn value_depth(v: ValueView) -> nat
    decreases v,
{
    match v {
        ValueView::Option(t, ov) => 1 + depth_max(
            type_depth(t),
            match ov {
                Option::Some(inner) => value_depth(*inner),
                Option::None => 0,
            },
        ),
        ValueView::List(t, s) => 1 + depth_max(type_depth(t), value_seq_depth(s)),
        ValueView::Mapping(tk, tv, s) => 1 + depth_max(
            depth_max(type_depth(tk), type_depth(tv)),
            value_pair_seq_depth(s),
        ),
        ValueView::Tuple(s) => 1 + value_seq_depth(s),
        ValueView::Alias(id, inner) => 1 + value_depth(*inner),
        ValueView::Enum(id, ev, inner) => 1 + value_depth(*inner),
        ValueView::Struct(id, s) => 1 + value_seq_depth(s),
        ValueView::Type(t) => 1 + type_depth(t),
        _ => 1,
    }
}

/// Largest depth among a sequence of values.
pub open spec fn value_seq_depth(s: Seq<ValueView>) -> nat
    decreases s,
{
    if s.len() == 0 {
        0
    } else {
        depth_max(value_seq_depth(s.drop_last()), value_depth(s.last()))
    }
}

/// Largest depth among the keys and values of a pair sequence.
pub open spec fn value_pair_seq_depth(s: Seq<(ValueView, ValueView)>) -> nat
    decreases s,
{
    if s.len() == 0 {
        0
    } else {
        depth_max(
            value_pair_seq_depth(s.drop_last()),
            depth_max(value_depth(s.last().0), value_depth(s.last().1)),
        )
    }
}

/// A value the codec round-trips: well formed and within the decoder's
/// nesting budget.
pub open spec fn encodable(v: ValueView) -> bool {
    value_wf(v) && value_depth(v) <= crate::MAX_DEPTH
}

/// A sequence is well formed exactly when each member is.
pub proof fn lemma_type_seq_wf_char(s: Seq<TypeView>)
    ensures
        type_seq_wf(s) <==> (forall|i: int| 0 <= i < s.len() ==> type_wf(#[trigger] s[i])),
    decreases s.len(),
{
    if s.len() > 0 {
        lemma_type_seq_wf_char(s.drop_last());
        if forall|i: int| 0 <= i < s.len() ==> type_wf(#[trigger] s[i]) {
            assert(forall|i: int|
                0 <= i < s.drop_last().len() ==> type_wf(#[trigger] s.drop_last()[i]));
        }
        if type_seq_wf(s) {
            assert(forall|i: int| 0 <= i < s.len() ==> type_wf(#[trigger] s[i])) by {
                assert(forall|i: int|
                    0 <= i < s.len() - 1 ==> #[trigger] s[i] == s.drop_last()[i]);
            }
        }
    }
}

/// A sequence is well formed exactly when each member is.
pub proof fn lemma_value_seq_wf_char(s: Seq<ValueView>)
    ensures
        value_seq_wf(s) <==> (forall|i: int| 0 <= i < s.len() ==> value_wf(#[trigger] s[i])),
    decreases s.len(),
{
    if s.len() > 0 {
        lemma_value_seq_wf_char(s.drop_last());
        if forall|i: int| 0 <= i < s.len() ==> value_wf(#[trigger] s[i]) {
            assert(forall|i: int|
                0 <= i < s.drop_last().len() ==> value_wf(#[trigger] s.drop_last()[i]));
        }
        if value_seq_wf(s) {
            assert(forall|i: int| 0 <= i < s.len() ==> value_wf(#[trigger] s[i])) by {
                assert(forall|i: int|
                    0 <= i < s.len() - 1 ==> #[trigger] s[i] == s.drop_last()[i]);
            }
        }
    }
}

/// A pair sequence is well formed exactly when each key and value is.
pub proof fn lemma_value_pair_seq_wf_char(s: Seq<(ValueView, ValueView)>)
    ensures
        value_pair_seq_wf(s) <==> (forall|i: int|
            0 <= i < s.len() ==> value_wf((#[trigger] s[i]).0) && value_wf(s[i].1)),
    decreases s.len(),
{
    if s.len() > 0 {
        lemma_value_pair_seq_wf_char(s.drop_last());
        if forall|i: int| 0 <= i < s.len() ==> value_wf((#[trigger] s[i]).0) && value_wf(s[i].1) {
            assert(forall|i: int|
                0 <= i < s.drop_last().len() ==> value_wf((#[trigger] s.drop_last()[i]).0)
                    && value_wf(s.drop_last()[i].1));
        }
        if value_pair_seq_wf(s) {
            assert(forall|i: int|
                0 <= i < s.len() ==> value_wf((#[trigger] s[i]).0) && value_wf(s[i].1)) by {
                assert(forall|i: int|
                    0 <= i < s.len() - 1 ==> #[trigger] s[i] == s.drop_last()[i]);
            }
        }
    }
}

/// A sequence fits a depth budget exactly when each member does.
pub proof fn lemma_type_seq_depth_le(s: Seq<TypeView>, d: nat)
    ensures
        type_seq_depth(s) <= d <==> (forall|i: int|
            0 <= i < s.len() ==> type_depth(#[trigger] s[i]) <= d),
    decreases s.len(),
{
    if s.len() > 0 {
        lemma_type_seq_depth_le(s.drop_last(), d);
        assert(forall|i: int| 0 <= i < s.len() - 1 ==> #[trigger] s[i] == s.drop_last()[i]);
        if forall|i: int| 0 <= i < s.len() ==> type_depth(#[trigger] s[i]) <= d {
            assert(forall|i: int|
                0 <= i < s.drop_last().len() ==> type_depth(#[trigger] s.drop_last()[i]) <= d);
        }
    }
}

/// A sequence fits a depth budget exactly when each member does.
pub proof fn lemma_value_seq_depth_le(s: Seq<ValueView>, d: nat)
    ensures
        value_seq_depth(s) <= d <==> (forall|i: int|
            0 <= i < s.len() ==> value_depth(#[trigger] s[i]) <= d),
    decreases s.len(),
{
    if s.len() > 0 {
        lemma_value_seq_depth_le(s.drop_last(), d);
        assert(forall|i: int| 0 <= i < s.len() - 1 ==> #[trigger] s[i] == s.drop_last()[i]);
        if forall|i: int| 0 <= i < s.len() ==> value_depth(#[trigger] s[i]) <= d {
            assert(forall|i: int|
                0 <= i < s.drop_last().len() ==> value_depth(#[trigger] s.drop_last()[i]) <= d);
        }
    }
}

/// A pair sequence fits a depth budget exactly when each key and value
/// does.
pub proof fn lemma_value_pair_seq_depth_le(s: Seq<(ValueView, ValueView)>, d: nat)
    ensures
        value_pair_seq_depth(s) <= d <==> (forall|i: int|
            0 <= i < s.len() ==> value_depth((#[trigger] s[i]).0) <= d && value_depth(s[i].1)
                <= d),
    decreases s.len(),
{
    if s.len() > 0 {
        lemma_value_pair_seq_depth_le(s.drop_last(), d);
        assert(forall|i: int| 0 <= i < s.len() - 1 ==> #[trigger] s[i] == s.drop_last()[i]);
        if forall|i: int|
            0 <= i < s.len() ==> value_depth((#[trigger] s[i]).0) <= d && value_depth(s[i].1)
                <= d {
            assert(forall|i: int|
                0 <= i < s.drop_last().len() ==> value_depth(
                    (#[trigger] s.drop_last()[i]).0,
                ) <= d && value_depth(s.drop_last()[i].1) <= d);
        }
    }
}

/// Each member of a well-formed type-descriptor sequence is well formed.
pub proof fn lemma_type_seq_wf_index(s: Seq<TypeView>, i: int)
    requires
        type_seq_wf(s),
        0 <= i < s.len(),
    ensures
        type_wf(s[i]),
    decreases s.len(),
{
    if i < s.len() - 1 {
        lemma_type_seq_wf_index(s.drop_last(), i);
        assert(s.drop_last()[i] == s[i]);
    }
}

/// Each member of a well-formed value sequence is well formed.
pub proof fn lemma_value_seq_wf_index(s: Seq<ValueView>, i: int)
    requires
        value_seq_wf(s),
        0 <= i < s.len(),
    ensures
        value_wf(s[i]),
    decreases s.len(),
{
    if i < s.len() - 1 {
        lemma_value_seq_wf_index(s.drop_last(), i);
        assert(s.drop_last()[i] == s[i]);
    }
}

/// Each key and value of a well-formed pair sequence is well formed.
pub proof fn lemma_value_pair_seq_wf_index(s: Seq<(ValueView, ValueView)>, i: int)
    requires
        value_pair_seq_wf(s),
        0 <= i < s.len(),
    ensures
        value_wf(s[i].0),
        value_wf(s[i].1),
    decreases s.len(),
{
    if i < s.len() - 1 {
        lemma_value_pair_seq_wf_index(s.drop_last(), i);
        assert(s.drop_last()[i] == s[i]);
    }
}

} // verus!
