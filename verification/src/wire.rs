//! The wire format, stated as mathematics.
//!
//! [`spec_encode_value`] maps a value model to the byte sequence the
//! writer emits; [`spec_decode_value`] maps a byte sequence and a start
//! position to the value the reader parses, the position after it, or the
//! error that stops it.  The executable writer and reader are each proved
//! against their function here, and the two functions are proved inverse
//! in [`crate::roundtrip`].

use vstd::prelude::*;
use crate::Error;
use crate::casting::{
    Ext1,
    H4,
    spec_bytevar_flen,
    spec_zigzag,
    spec_unzigzag,
    spec_ext1_of_marker,
    spec_h4_of_nibble,
    spec_header,
    EXT16,
    EXT32,
    EXT64,
    EXT8,
};
use crate::model::{TypeIdView, TypeView, ValueView};

verus! {

/// The `n` big-endian bytes of the low `n` bytes of `x`: the last byte
/// is `x` modulo 256, and the bytes before it spell `x` divided by 256.
pub open spec fn spec_be_bytes(x: u64, n: nat) -> Seq<u8>
    decreases n,
{
    if n == 0 {
        Seq::empty()
    } else {
        spec_be_bytes(x / 256, (n - 1) as nat).push((x % 256) as u8)
    }
}

/// Big-endian bytes are as many as asked for.
pub broadcast proof fn lemma_be_bytes_len(x: u64, n: nat)
    ensures
        (#[trigger] spec_be_bytes(x, n)).len() == n,
    decreases n,
{
    if n > 0 {
        lemma_be_bytes_len(x / 256, (n - 1) as nat);
    }
}

/// The unsigned value of the `n` bytes at `i`, big-endian.
pub open spec fn spec_read_be(s: Seq<u8>, i: int, n: nat) -> int
    decreases n,
{
    if n == 0 {
        0
    } else {
        spec_read_be(s, i, (n - 1) as nat) * 256 + s[i + n - 1]
    }
}

/// A magnitude under kind `k`: inline in the modifier when it is below
/// [`EXT8`], else a sentinel modifier and an explicit 1-, 2-, 4- or 8-byte
/// big-endian tail — always the smallest class that holds it.
pub open spec fn spec_magnitude(k: H4, u: u64) -> Seq<u8> {
    if u < EXT8 as u64 {
        seq![spec_header(k, u as u8)]
    } else if u <= 0xff {
        seq![spec_header(k, EXT8), u as u8]
    } else if u <= 0xffff {
        seq![spec_header(k, EXT16)] + spec_be_bytes(u, 2)
    } else if u <= 0xffff_ffff {
        seq![spec_header(k, EXT32)] + spec_be_bytes(u, 4)
    } else {
        seq![spec_header(k, EXT64)] + spec_be_bytes(u, 8)
    }
}

/// The single header byte of an extension marker.
pub open spec fn spec_marker_byte(m: Ext1) -> u8 {
    spec_header(H4::Ext1, m.spec_marker())
}

/// Selector byte of the `Anonymous` type id.
pub const TYPE_ID_ANONYMOUS: u8 = 0x00;

/// Selector byte of the `Hash` type id.
pub const TYPE_ID_HASH: u8 = 0xff;

/// Encoding of a type id: the selector byte — which for a registry id is
/// the schema byte itself — then nothing, a 2-byte type number, or the
/// seven hash bytes.
pub open spec fn spec_encode_type_id(id: TypeIdView) -> Seq<u8> {
    match id {
        TypeIdView::Anonymous => seq![TYPE_ID_ANONYMOUS],
        TypeIdView::Std { schema, id } => seq![schema] + spec_be_bytes(id as u64, 2),
        TypeIdView::Hash { hash } => seq![TYPE_ID_HASH] + hash,
    }
}

/// The tag byte that opens the encoding of a type descriptor.
pub open spec fn spec_type_tag(t: TypeView) -> u8 {
    match t {
        TypeView::Unknown => 0x00,
        TypeView::Unit => 0x01,
        TypeView::Bool => 0x02,
        TypeView::Int => 0x03,
        TypeView::UInt => 0x04,
        TypeView::Float => 0x05,
        TypeView::String => 0x06,
        TypeView::Bytes => 0x07,
        TypeView::Option(_) => 0x08,
        TypeView::List(_) => 0x09,
        TypeView::Mapping(_, _) => 0x0a,
        TypeView::Tuple(_) => 0x0b,
        TypeView::Alias(_) => 0x0c,
        TypeView::CEnum(_) => 0x0d,
        TypeView::Enum(_) => 0x0e,
        TypeView::Struct(_) => 0x0f,
        TypeView::Type => 0x10,
        TypeView::TypeId => 0x11,
    }
}

/// Encoding of a type descriptor: its tag byte, then nothing for a leaf,
/// the inner descriptors for a wrapper, an arity byte and the member
/// descriptors for a tuple, or the type id for a nominal wrapper.
pub open spec fn spec_encode_type(t: TypeView) -> Seq<u8>
    decreases t,
{
    seq![spec_type_tag(t)] + match t {
        TypeView::Option(inner) => spec_encode_type(*inner),
        TypeView::List(inner) => spec_encode_type(*inner),
        TypeView::Mapping(k, v) => spec_encode_type(*k) + spec_encode_type(*v),
        TypeView::Tuple(s) => seq![s.len() as u8] + spec_encode_type_seq(s),
        TypeView::Alias(id) => spec_encode_type_id(id),
        TypeView::CEnum(id) => spec_encode_type_id(id),
        TypeView::Enum(id) => spec_encode_type_id(id),
        TypeView::Struct(id) => spec_encode_type_id(id),
        _ => Seq::empty(),
    }
}

/// Concatenated encodings of a sequence of type descriptors.
pub open spec fn spec_encode_type_seq(s: Seq<TypeView>) -> Seq<u8>
    decreases s,
{
    if s.len() == 0 {
        Seq::empty()
    } else {
        spec_encode_type(s[0]) + spec_encode_type_seq(s.drop_first())
    }
}

/// Appending a type descriptor appends its encoding.
pub proof fn lemma_encode_type_seq_push(s: Seq<TypeView>, t: TypeView)
    ensures
        spec_encode_type_seq(s.push(t)) == spec_encode_type_seq(s) + spec_encode_type(t),
    decreases s.len(),
{
    reveal_with_fuel(spec_encode_type_seq, 3);
    if s.len() == 0 {
        assert(s.push(t).drop_first() =~= Seq::<TypeView>::empty());
        assert(s.push(t)[0] == t);
        assert(spec_encode_type_seq(s.push(t)) =~= spec_encode_type_seq(s) + spec_encode_type(t));
    } else {
        assert(s.push(t).drop_first() =~= s.drop_first().push(t));
        assert(s.push(t)[0] == s[0]);
        lemma_encode_type_seq_push(s.drop_first(), t);
        assert(spec_encode_type_seq(s.push(t)) =~= spec_encode_type_seq(s) + spec_encode_type(t));
    }
}

/// Appending a value appends its encoding.
pub proof fn lemma_encode_value_seq_push(s: Seq<ValueView>, v: ValueView)
    ensures
        spec_encode_value_seq(s.push(v)) == spec_encode_value_seq(s) + spec_encode_value(v),
    decreases s.len(),
{
    reveal_with_fuel(spec_encode_value_seq, 3);
    if s.len() == 0 {
        assert(s.push(v).drop_first() =~= Seq::<ValueView>::empty());
        assert(s.push(v)[0] == v);
        assert(spec_encode_value_seq(s.push(v)) =~= spec_encode_value_seq(s) + spec_encode_value(
            v,
        ));
    } else {
        assert(s.push(v).drop_first() =~= s.drop_first().push(v));
        assert(s.push(v)[0] == s[0]);
        lemma_encode_value_seq_push(s.drop_first(), v);
        assert(spec_encode_value_seq(s.push(v)) =~= spec_encode_value_seq(s) + spec_encode_value(
            v,
        ));
    }
}

/// Appending a key-value pair appends the two encodings.
pub proof fn lemma_encode_pair_seq_push(s: Seq<(ValueView, ValueView)>, p: (ValueView, ValueView))
    ensures
        spec_encode_pair_seq(s.push(p)) == spec_encode_pair_seq(s) + spec_encode_value(p.0)
            + spec_encode_value(p.1),
    decreases s.len(),
{
    reveal_with_fuel(spec_encode_pair_seq, 3);
    if s.len() == 0 {
        assert(s.push(p).drop_first() =~= Seq::<(ValueView, ValueView)>::empty());
        assert(s.push(p)[0] == p);
        assert(spec_encode_pair_seq(s.push(p)) =~= spec_encode_pair_seq(s) + spec_encode_value(
            p.0,
        ) + spec_encode_value(p.1));
    } else {
        assert(s.push(p).drop_first() =~= s.drop_first().push(p));
        assert(s.push(p)[0] == s[0]);
        lemma_encode_pair_seq_push(s.drop_first(), p);
        assert(spec_encode_pair_seq(s.push(p)) =~= spec_encode_pair_seq(s) + spec_encode_value(
            p.0,
        ) + spec_encode_value(p.1));
    }
}

/// Byte length of the transmitted prefix of a floating-point bit pattern:
/// the pattern is laid out big-endian and its trailing zero bytes are
/// dropped, one byte at least staying.
pub open spec fn spec_float_len(f: u64) -> int {
    spec_bytevar_flen(spec_be_bytes(f, 8))
}

/// Encoding of a value: a header byte, its payload, and the encodings of
/// whatever the value carries.
pub open spec fn spec_encode_value(v: ValueView) -> Seq<u8>
    decreases v,
{
    match v {
        ValueView::Unit => seq![spec_marker_byte(Ext1::Unit)],
        ValueView::Bool(b) => if b {
            seq![spec_marker_byte(Ext1::True)]
        } else {
            seq![spec_marker_byte(Ext1::False)]
        },
        ValueView::Int(i) => spec_magnitude(H4::Int, spec_zigzag(i)),
        ValueView::UInt(u) => spec_magnitude(H4::UInt, u),
        ValueView::Float(f) => seq![spec_header(H4::Float, spec_float_len(f) as u8)]
            + spec_be_bytes(f, 8).subrange(0, spec_float_len(f)),
        ValueView::String(s) => {
            let b = vstd::utf8::encode_utf8(s);
            spec_magnitude(H4::String, b.len() as u64) + b
        },
        ValueView::Bytes(b) => spec_magnitude(H4::Bytes, b.len() as u64) + b,
        ValueView::Option(t, ov) => match ov {
            Option::Some(inner) => seq![spec_marker_byte(Ext1::Present)] + spec_encode_type(t)
                + spec_encode_value(*inner),
            Option::None => seq![spec_marker_byte(Ext1::Absent)] + spec_encode_type(t),
        },
        ValueView::List(t, s) => spec_magnitude(H4::List, s.len() as u64) + spec_encode_type(t)
            + spec_encode_value_seq(s),
        ValueView::Mapping(tk, tv, s) => spec_magnitude(H4::Mapping, s.len() as u64)
            + spec_encode_type(tk) + spec_encode_type(tv) + spec_encode_pair_seq(s),
        ValueView::Tuple(s) => spec_magnitude(H4::Tuple, s.len() as u64) + spec_encode_value_seq(
            s,
        ),
        ValueView::Alias(id, inner) => seq![spec_marker_byte(Ext1::Alias)] + spec_encode_type_id(
            id,
        ) + spec_encode_value(*inner),
        ValueView::CEnum(id, ev) => spec_magnitude(H4::CEnum, ev) + spec_encode_type_id(id),
        ValueView::Enum(id, ev, inner) => spec_magnitude(H4::Enum, ev) + spec_encode_type_id(id)
            + spec_encode_value(*inner),
        ValueView::Struct(id, s) => spec_magnitude(H4::Struct, s.len() as u64)
            + spec_encode_type_id(id) + spec_encode_value_seq(s),
        ValueView::Type(t) => seq![spec_marker_byte(Ext1::Type)] + spec_encode_type(t),
        ValueView::TypeId(id) => seq![spec_marker_byte(Ext1::TypeId)] + spec_encode_type_id(id),
    }
}

/// Concatenated encodings of a sequence of values.
pub open spec fn spec_encode_value_seq(s: Seq<ValueView>) -> Seq<u8>
    decreases s,
{
    if s.len() == 0 {
        Seq::empty()
    } else {
        spec_encode_value(s[0]) + spec_encode_value_seq(s.drop_first())
    }
}

/// Concatenated encodings of a sequence of key-value pairs, keys and
/// values interleaved.
pub open spec fn spec_encode_pair_seq(s: Seq<(ValueView, ValueView)>) -> Seq<u8>
    decreases s,
{
    if s.len() == 0 {
        Seq::empty()
    } else {
        spec_encode_value(s[0].0) + spec_encode_value(s[0].1) + spec_encode_pair_seq(
            s.drop_first(),
        )
    }
}

/// Reads the magnitude announced by modifier `l4`: the modifier itself
/// when inline, else the 1-, 2-, 4- or 8-byte big-endian integer at `i`.
/// Returns the magnitude and the position after it; a failure carries,
/// like every failure of this parser, the byte offset at which it was
/// detected.
pub open spec fn spec_read_magnitude(s: Seq<u8>, i: int, l4: u8) -> Result<
    (u64, int),
    (Error, int),
> {
    if l4 < EXT8 {
        Ok((l4 as u64, i))
    } else {
        let n: nat = if l4 == EXT8 {
            1
        } else if l4 == EXT16 {
            2
        } else if l4 == EXT32 {
            4
        } else {
            8
        };
        if i + n <= s.len() {
            Ok((spec_read_be(s, i, n) as u64, i + n))
        } else {
            Err((Error::Truncated, i))
        }
    }
}

/// Parses the type id at `i`: selector byte 0x00 is `Anonymous`, 0xff
/// opens seven hash bytes, anything else is the schema byte of a registry
/// id followed by its 2-byte type number.
pub open spec fn spec_decode_type_id(s: Seq<u8>, i: int) -> Result<
    (TypeIdView, int),
    (Error, int),
> {
    if i >= s.len() {
        Err((Error::Truncated, i))
    } else {
        let sel = s[i];
        if sel == TYPE_ID_ANONYMOUS {
            Ok((TypeIdView::Anonymous, i + 1))
        } else if sel == TYPE_ID_HASH {
            if i + 8 <= s.len() {
                Ok((TypeIdView::Hash { hash: s.subrange(i + 1, i + 8) }, i + 8))
            } else {
                Err((Error::Truncated, i + 1))
            }
        } else {
            if i + 3 <= s.len() {
                Ok(
                    (
                        TypeIdView::Std { schema: sel, id: spec_read_be(s, i + 1, 2) as u16 },
                        i + 3,
                    ),
                )
            } else {
                Err((Error::Truncated, i + 1))
            }
        }
    }
}

/// Parses the type descriptor at `i`, spending one unit of `depth` and
/// handing `depth - 1` to every child parse.
pub open spec fn spec_decode_type(s: Seq<u8>, i: int, depth: nat) -> Result<
    (TypeView, int),
    (Error, int),
>
    decreases depth, 0nat, 0nat,
{
    if depth == 0 {
        Err((Error::DepthLimit, i))
    } else if i >= s.len() {
        Err((Error::Truncated, i))
    } else {
        let tag = s[i];
        let j = i + 1;
        if tag == 0x00 {
            Ok((TypeView::Unknown, j))
        } else if tag == 0x01 {
            Ok((TypeView::Unit, j))
        } else if tag == 0x02 {
            Ok((TypeView::Bool, j))
        } else if tag == 0x03 {
            Ok((TypeView::Int, j))
        } else if tag == 0x04 {
            Ok((TypeView::UInt, j))
        } else if tag == 0x05 {
            Ok((TypeView::Float, j))
        } else if tag == 0x06 {
            Ok((TypeView::String, j))
        } else if tag == 0x07 {
            Ok((TypeView::Bytes, j))
        } else if tag == 0x08 {
            match spec_decode_type(s, j, (depth - 1) as nat) {
                Ok((inner, j2)) => Ok((TypeView::Option(Box::new(inner)), j2)),
                Err(e) => Err(e),
            }
        } else if tag == 0x09 {
            match spec_decode_type(s, j, (depth - 1) as nat) {
                Ok((inner, j2)) => Ok((TypeView::List(Box::new(inner)), j2)),
                Err(e) => Err(e),
            }
        } else if tag == 0x0a {
            match spec_decode_type(s, j, (depth - 1) as nat) {
                Ok((k, j2)) => match spec_decode_type(s, j2, (depth - 1) as nat) {
                    Ok((v, j3)) => Ok((TypeView::Mapping(Box::new(k), Box::new(v)), j3)),
                    Err(e) => Err(e),
                },
                Err(e) => Err(e),
            }
        } else if tag == 0x0b {
            if j >= s.len() {
                Err((Error::Truncated, j))
            } else {
                match spec_decode_type_seq(s, j + 1, s[j] as nat, (depth - 1) as nat) {
                    Ok((ts, j2)) => Ok((TypeView::Tuple(ts), j2)),
                    Err(e) => Err(e),
                }
            }
        } else if tag == 0x0c {
            match spec_decode_type_id(s, j) {
                Ok((id, j2)) => Ok((TypeView::Alias(id), j2)),
                Err(e) => Err(e),
            }
        } else if tag == 0x0d {
            match spec_decode_type_id(s, j) {
                Ok((id, j2)) => Ok((TypeView::CEnum(id), j2)),
                Err(e) => Err(e),
            }
        } else if tag == 0x0e {
            match spec_decode_type_id(s, j) {
                Ok((id, j2)) => Ok((TypeView::Enum(id), j2)),
                Err(e) => Err(e),
            }
        } else if tag == 0x0f {
            match spec_decode_type_id(s, j) {
                Ok((id, j2)) => Ok((TypeView::Struct(id), j2)),
                Err(e) => Err(e),
            }
        } else if tag == 0x10 {
            Ok((TypeView::Type, j))
        } else if tag == 0x11 {
            Ok((TypeView::TypeId, j))
        } else {
            Err((Error::TypeTag(tag), j))
        }
    }
}

/// Parses `n` type descriptors one after another, starting at `i`.
pub open spec fn spec_decode_type_seq(s: Seq<u8>, i: int, n: nat, depth: nat) -> Result<
    (Seq<TypeView>, int),
    (Error, int),
>
    decreases depth, 1nat, n,
{
    if n == 0 {
        Ok((Seq::empty(), i))
    } else {
        match spec_decode_type(s, i, depth) {
            Ok((t, j)) => match spec_decode_type_seq(s, j, (n - 1) as nat, depth) {
                Ok((ts, j2)) => Ok((seq![t] + ts, j2)),
                Err(e) => Err(e),
            },
            Err(e) => Err(e),
        }
    }
}

/// Parses the value at `i`, spending one unit of `depth` and handing
/// `depth - 1` to every child parse.  A failure carries the byte offset
/// at which it was detected: where the cursor of a left-to-right reader
/// stands when the offending condition is found.
pub open spec fn spec_decode_value(s: Seq<u8>, i: int, depth: nat) -> Result<
    (ValueView, int),
    (Error, int),
>
    decreases depth, 0nat, 0nat,
{
    if depth == 0 {
        Err((Error::DepthLimit, i))
    } else if i >= s.len() {
        Err((Error::Truncated, i))
    } else {
        let hdr = s[i];
        let j = i + 1;
        match spec_h4_of_nibble(hdr / 16) {
            Option::None => Err((Error::Tag(hdr), j)),
            Option::Some(h4) => {
                let l4 = hdr % 16;
                match h4 {
                    H4::Ext1 => match spec_ext1_of_marker(l4) {
                        Option::None => Err((Error::Tag(hdr), j)),
                        Option::Some(m) => spec_decode_marker(s, j, m, (depth - 1) as nat),
                    },
                    H4::Int => match spec_read_magnitude(s, j, l4) {
                        Ok((u, j2)) => Ok((ValueView::Int(spec_unzigzag(u)), j2)),
                        Err(e) => Err(e),
                    },
                    H4::UInt => match spec_read_magnitude(s, j, l4) {
                        Ok((u, j2)) => Ok((ValueView::UInt(u), j2)),
                        Err(e) => Err(e),
                    },
                    H4::Float => {
                        if l4 == 0 || l4 > 8 {
                            Err((Error::Tag(hdr), j))
                        } else if j + l4 <= s.len() {
                            Ok(
                                (
                                    ValueView::Float(
                                        (spec_read_be(s, j, l4 as nat) * pow2_of_8mul(
                                            (8 - l4) as nat,
                                        )) as u64,
                                    ),
                                    j + l4,
                                ),
                            )
                        } else {
                            Err((Error::Truncated, j))
                        }
                    },
                    H4::String => match spec_read_magnitude(s, j, l4) {
                        Ok((u, j2)) => {
                            if u > usize::MAX as u64 {
                                Err((Error::TooLongLen(u), j2))
                            } else if j2 + u <= s.len() {
                                let b = s.subrange(j2, j2 + u);
                                if vstd::utf8::valid_utf8(b) {
                                    Ok(
                                        (
                                            ValueView::String(vstd::utf8::decode_utf8(b)),
                                            j2 + u,
                                        ),
                                    )
                                } else {
                                    Err((Error::Utf8, j2 + u))
                                }
                            } else {
                                Err((Error::Truncated, j2))
                            }
                        },
                        Err(e) => Err(e),
                    },
                    H4::Bytes => match spec_read_magnitude(s, j, l4) {
                        Ok((u, j2)) => {
                            if u > usize::MAX as u64 {
                                Err((Error::TooLongLen(u), j2))
                            } else if j2 + u <= s.len() {
                                Ok((ValueView::Bytes(s.subrange(j2, j2 + u)), j2 + u))
                            } else {
                                Err((Error::Truncated, j2))
                            }
                        },
                        Err(e) => Err(e),
                    },
                    H4::List => match spec_read_magnitude(s, j, l4) {
                        Ok((u, j2)) => {
                            if u > usize::MAX as u64 {
                                Err((Error::TooLongLen(u), j2))
                            } else {
                                match spec_decode_type(s, j2, (depth - 1) as nat) {
                                    Ok((t, j3)) => match spec_decode_value_seq(
                                        s,
                                        j3,
                                        u as nat,
                                        (depth - 1) as nat,
                                    ) {
                                        Ok((vs, j4)) => Ok((ValueView::List(t, vs), j4)),
                                        Err(e) => Err(e),
                                    },
                                    Err(e) => Err(e),
                                }
                            }
                        },
                        Err(e) => Err(e),
                    },
                    H4::Mapping => match spec_read_magnitude(s, j, l4) {
                        Ok((u, j2)) => {
                            if u > usize::MAX as u64 {
                                Err((Error::TooLongLen(u), j2))
                            } else {
                                match spec_decode_type(s, j2, (depth - 1) as nat) {
                                    Ok((tk, j3)) => match spec_decode_type(
                                        s,
                                        j3,
                                        (depth - 1) as nat,
                                    ) {
                                        Ok((tv, j4)) => match spec_decode_pair_seq(
                                            s,
                                            j4,
                                            u as nat,
                                            (depth - 1) as nat,
                                        ) {
                                            Ok((ps, j5)) => Ok(
                                                (ValueView::Mapping(tk, tv, ps), j5),
                                            ),
                                            Err(e) => Err(e),
                                        },
                                        Err(e) => Err(e),
                                    },
                                    Err(e) => Err(e),
                                }
                            }
                        },
                        Err(e) => Err(e),
                    },
                    H4::Tuple => match spec_read_magnitude(s, j, l4) {
                        Ok((u, j2)) => {
                            if u > usize::MAX as u64 {
                                Err((Error::TooLongLen(u), j2))
                            } else {
                                match spec_decode_value_seq(s, j2, u as nat, (depth - 1) as nat) {
                                    Ok((vs, j3)) => Ok((ValueView::Tuple(vs), j3)),
                                    Err(e) => Err(e),
                                }
                            }
                        },
                        Err(e) => Err(e),
                    },
                    H4::CEnum => match spec_read_magnitude(s, j, l4) {
                        Ok((ev, j2)) => match spec_decode_type_id(s, j2) {
                            Ok((id, j3)) => Ok((ValueView::CEnum(id, ev), j3)),
                            Err(e) => Err(e),
                        },
                        Err(e) => Err(e),
                    },
                    H4::Enum => match spec_read_magnitude(s, j, l4) {
                        Ok((ev, j2)) => match spec_decode_type_id(s, j2) {
                            Ok((id, j3)) => match spec_decode_value(s, j3, (depth - 1) as nat) {
                                Ok((inner, j4)) => Ok(
                                    (ValueView::Enum(id, ev, Box::new(inner)), j4),
                                ),
                                Err(e) => Err(e),
                            },
                            Err(e) => Err(e),
                        },
                        Err(e) => Err(e),
                    },
                    H4::Struct => match spec_read_magnitude(s, j, l4) {
                        Ok((u, j2)) => {
                            if u > usize::MAX as u64 {
                                Err((Error::TooLongLen(u), j2))
                            } else {
                                match spec_decode_type_id(s, j2) {
                                    Ok((id, j3)) => match spec_decode_value_seq(
                                        s,
                                        j3,
                                        u as nat,
                                        (depth - 1) as nat,
                                    ) {
                                        Ok((vs, j4)) => Ok((ValueView::Struct(id, vs), j4)),
                                        Err(e) => Err(e),
                                    },
                                    Err(e) => Err(e),
                                }
                            }
                        },
                        Err(e) => Err(e),
                    },
                }
            },
        }
    }
}

/// Two to the power of eight times `n`: the scale that left-aligns an
/// `n`-byte-short floating-point payload.
pub open spec fn pow2_of_8mul(n: nat) -> int
    decreases n,
{
    if n == 0 {
        1
    } else {
        256 * pow2_of_8mul((n - 1) as nat)
    }
}

/// The scale is always positive.
pub proof fn lemma_pow2_of_8mul_pos(n: nat)
    ensures
        pow2_of_8mul(n) >= 1,
    decreases n,
{
    if n > 0 {
        lemma_pow2_of_8mul_pos((n - 1) as nat);
    }
}

/// The scales for zero to eight bytes, written out.
pub proof fn lemma_pow2_of_8mul_values()
    ensures
        pow2_of_8mul(0) == 1,
        pow2_of_8mul(1) == 0x100,
        pow2_of_8mul(2) == 0x1_0000,
        pow2_of_8mul(3) == 0x100_0000,
        pow2_of_8mul(4) == 0x1_0000_0000,
        pow2_of_8mul(5) == 0x100_0000_0000,
        pow2_of_8mul(6) == 0x1_0000_0000_0000,
        pow2_of_8mul(7) == 0x100_0000_0000_0000,
        pow2_of_8mul(8) == 0x1_0000_0000_0000_0000,
{
    reveal_with_fuel(pow2_of_8mul, 9);
}

/// A value below the `a`-byte scale, scaled by the `b`-byte scale, stays
/// below the `a + b`-byte scale.
pub proof fn lemma_pow2_of_8mul_mul_bound(m: int, a: nat, b: nat)
    requires
        0 <= m < pow2_of_8mul(a),
    ensures
        0 <= m * pow2_of_8mul(b) < pow2_of_8mul(a + b),
    decreases b,
{
    lemma_pow2_of_8mul_pos(b);
    if b == 0 {
    } else {
        lemma_pow2_of_8mul_mul_bound(m, a, (b - 1) as nat);
        let p = pow2_of_8mul((b - 1) as nat);
        lemma_pow2_of_8mul_pos((b - 1) as nat);
        assert(m * (256 * p) == (m * p) * 256) by (nonlinear_arith);
        assert(pow2_of_8mul(a + b) == 256 * pow2_of_8mul((a + (b - 1) as nat) as nat));
    }
}

/// An `n`-byte big-endian read is bounded by the `n`-byte scale.
pub proof fn lemma_read_be_bound(s: Seq<u8>, i: int, n: nat)
    ensures
        0 <= spec_read_be(s, i, n) < pow2_of_8mul(n),
    decreases n,
{
    if n > 0 {
        lemma_read_be_bound(s, i, (n - 1) as nat);
    }
}

/// Parses what follows an extension-marker header byte; `depth` is the
/// budget handed to each child parse.
pub open spec fn spec_decode_marker(s: Seq<u8>, j: int, m: Ext1, depth: nat) -> Result<
    (ValueView, int),
    (Error, int),
>
    decreases depth, 0nat, 1nat,
{
    match m {
        Ext1::Unit => Ok((ValueView::Unit, j)),
        Ext1::False => Ok((ValueView::Bool(false), j)),
        Ext1::True => Ok((ValueView::Bool(true), j)),
        Ext1::Absent => match spec_decode_type(s, j, depth) {
            Ok((t, j2)) => Ok((ValueView::Option(t, Option::None), j2)),
            Err(e) => Err(e),
        },
        Ext1::Present => match spec_decode_type(s, j, depth) {
            Ok((t, j2)) => match spec_decode_value(s, j2, depth) {
                Ok((inner, j3)) => Ok(
                    (ValueView::Option(t, Option::Some(Box::new(inner))), j3),
                ),
                Err(e) => Err(e),
            },
            Err(e) => Err(e),
        },
        Ext1::Alias => match spec_decode_type_id(s, j) {
            Ok((id, j2)) => match spec_decode_value(s, j2, depth) {
                Ok((inner, j3)) => Ok((ValueView::Alias(id, Box::new(inner)), j3)),
                Err(e) => Err(e),
            },
            Err(e) => Err(e),
        },
        Ext1::Type => match spec_decode_type(s, j, depth) {
            Ok((t, j2)) => Ok((ValueView::Type(t), j2)),
            Err(e) => Err(e),
        },
        Ext1::TypeId => match spec_decode_type_id(s, j) {
            Ok((id, j2)) => Ok((ValueView::TypeId(id), j2)),
            Err(e) => Err(e),
        },
    }
}

/// Parses `n` values one after another, starting at `i`.
pub open spec fn spec_decode_value_seq(s: Seq<u8>, i: int, n: nat, depth: nat) -> Result<
    (Seq<ValueView>, int),
    (Error, int),
>
    decreases depth, 1nat, n,
{
    if n == 0 {
        Ok((Seq::empty(), i))
    } else {
        match spec_decode_value(s, i, depth) {
            Ok((v, j)) => match spec_decode_value_seq(s, j, (n - 1) as nat, depth) {
                Ok((vs, j2)) => Ok((seq![v] + vs, j2)),
                Err(e) => Err(e),
            },
            Err(e) => Err(e),
        }
    }
}

/// Parses `n` key-value pairs, keys and values interleaved, starting at
/// `i`.
pub open spec fn spec_decode_pair_seq(s: Seq<u8>, i: int, n: nat, depth: nat) -> Result<
    (Seq<(ValueView, ValueView)>, int),
    (Error, int),
>
    decreases depth, 1nat, n,
{
    if n == 0 {
        Ok((Seq::empty(), i))
    } else {
        match spec_decode_value(s, i, depth) {
            Ok((k, j)) => match spec_decode_value(s, j, depth) {
                Ok((v, j2)) => match spec_decode_pair_seq(s, j2, (n - 1) as nat, depth) {
                    Ok((ps, j3)) => Ok((seq![(k, v)] + ps, j3)),
                    Err(e) => Err(e),
                },
                Err(e) => Err(e),
            },
            Err(e) => Err(e),
        }
    }
}

/// Parses one whole input as a single value: the value at position zero,
/// with every byte consumed.  A failure carries the byte offset at which
/// it was detected; for trailing bytes that is where the value ended.
pub open spec fn spec_decode_whole(s: Seq<u8>) -> Result<ValueView, (Error, int)> {
    match spec_decode_value(s, 0, spec_max_depth()) {
        Ok((v, j)) => if j == s.len() {
            Ok(v)
        } else {
            Err((Error::TrailingBytes, j))
        },
        Err(e) => Err(e),
    }
}

/// The decoder's nesting budget, as a natural number.
pub open spec fn spec_max_depth() -> nat {
    crate::MAX_DEPTH as nat
}

} // verus!
