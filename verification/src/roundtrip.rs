//! Encoding and decoding are inverse.
//!
//! The laws proved here: decoding an encoding yields the value back
//! ([`lemma_round_trip`]); two encodings laid back-to-back decode one
//! after the other ([`lemma_streaming`]); a truncated encoding never
//! decodes ([`lemma_truncation_fails`]); and every numeric payload is as
//! short as the trimming rule allows ([`lemma_numeric_minimality`]).

use vstd::prelude::*;
use vstd::arithmetic::div_mod::{lemma_div_denominator, lemma_mod_breakdown};
use crate::Error;
use crate::casting::{
    spec_ext1_of_marker,
    spec_h4_of_nibble,
    spec_header,
    spec_zigzag,
    Ext1,
    H4,
    EXT8,
};
use crate::model::{
    type_id_wf,
    type_seq_depth,
    type_seq_wf,
    type_wf,
    type_depth,
    value_depth,
    value_pair_seq_depth,
    value_pair_seq_wf,
    value_seq_depth,
    value_seq_wf,
    value_wf,
    TypeIdView,
    TypeView,
    ValueView,
};
use crate::wire::{
    spec_encode_value,
    lemma_be_bytes_len,
    lemma_pow2_of_8mul_pos,
    lemma_pow2_of_8mul_values,
    pow2_of_8mul,
    spec_be_bytes,
    spec_decode_type,
    spec_decode_type_id,
    spec_decode_type_seq,
    spec_encode_type,
    spec_encode_type_id,
    spec_encode_type_seq,
    spec_float_len,
    spec_magnitude,
    spec_read_be,
    spec_read_magnitude,
    TYPE_ID_HASH,
};

verus! {

/// A kind nibble names its own kind.
proof fn lemma_h4_nibble_inverse(k: H4)
    ensures
        spec_h4_of_nibble(k.spec_nibble()) == Option::<H4>::Some(k),
{
}

/// A marker nibble names its own marker.
proof fn lemma_ext1_marker_inverse(m: Ext1)
    ensures
        spec_ext1_of_marker(m.spec_marker()) == Option::<Ext1>::Some(m),
{
}

/// A header byte splits back into the kind and modifier that built it.
proof fn lemma_header_split(k: H4, m: u8)
    requires
        m < 16,
    ensures
        spec_header(k, m) / 16 == k.spec_nibble(),
        spec_header(k, m) % 16 == m,
{
}

/// Byte-for-byte reading of a known subrange.
proof fn lemma_subrange_index_all(s: Seq<u8>, i: int, x: Seq<u8>)
    requires
        0 <= i,
        i + x.len() <= s.len(),
        s.subrange(i, i + x.len()) == x,
    ensures
        forall|j: int| 0 <= j < x.len() ==> s[i + j] == #[trigger] x[j],
{
    assert forall|j: int| 0 <= j < x.len() implies s[i + j] == #[trigger] x[j] by {
        assert(s.subrange(i, i + x.len())[j] == s[i + j]);
    }
}

/// A subrange equal to a concatenation splits at the seam.
proof fn lemma_subrange_split(s: Seq<u8>, i: int, x: Seq<u8>, y: Seq<u8>)
    requires
        0 <= i,
        i + x.len() + y.len() <= s.len(),
        s.subrange(i, i + x.len() + y.len()) == x + y,
    ensures
        s.subrange(i, i + x.len()) == x,
        s.subrange(i + x.len(), i + x.len() + y.len()) == y,
{
    let xy = x + y;
    lemma_subrange_index_all(s, i, xy);
    assert forall|j: int| 0 <= j < x.len() implies s.subrange(i, i + x.len())[j] == x[j] by {
        assert(s[i + j] == xy[j]);
        assert(xy[j] == x[j]);
    }
    assert(s.subrange(i, i + x.len()) =~= x);
    assert forall|j: int|
        0 <= j < y.len() implies s.subrange(i + x.len(), i + x.len() + y.len())[j] == y[j] by {
        assert(s[i + x.len() + j] == xy[x.len() + j]);
        assert(xy[x.len() + j] == y[j]);
    }
    assert(s.subrange(i + x.len(), i + x.len() + y.len()) =~= y);
}

/// A subrange equal to a three-part concatenation splits at both seams.
proof fn lemma_subrange_split3(s: Seq<u8>, i: int, x: Seq<u8>, y: Seq<u8>, z: Seq<u8>)
    requires
        0 <= i,
        i + x.len() + y.len() + z.len() <= s.len(),
        s.subrange(i, i + x.len() + y.len() + z.len()) == x + y + z,
    ensures
        s.subrange(i, i + x.len()) == x,
        s.subrange(i + x.len(), i + x.len() + y.len()) == y,
        s.subrange(i + x.len() + y.len(), i + x.len() + y.len() + z.len()) == z,
{
    assert(x + y + z =~= x + (y + z));
    lemma_subrange_split(s, i, x, y + z);
    lemma_subrange_split(s, i + x.len(), y, z);
}

/// A subrange equal to a four-part concatenation splits at all seams.
proof fn lemma_subrange_split4(s: Seq<u8>, i: int, x: Seq<u8>, y: Seq<u8>, z: Seq<u8>, w: Seq<u8>)
    requires
        0 <= i,
        i + x.len() + y.len() + z.len() + w.len() <= s.len(),
        s.subrange(i, i + x.len() + y.len() + z.len() + w.len()) == x + y + z + w,
    ensures
        s.subrange(i, i + x.len()) == x,
        s.subrange(i + x.len(), i + x.len() + y.len()) == y,
        s.subrange(i + x.len() + y.len(), i + x.len() + y.len() + z.len()) == z,
        s.subrange(
            i + x.len() + y.len() + z.len(),
            i + x.len() + y.len() + z.len() + w.len(),
        ) == w,
{
    assert(x + y + z + w =~= x + (y + z + w));
    lemma_subrange_split(s, i, x, y + z + w);
    lemma_subrange_split3(s, i + x.len(), y, z, w);
}

/// Reading back the big-endian bytes of `x` yields `x`.
proof fn lemma_read_be_inverse(x: u64, n: nat, s: Seq<u8>, i: int)
    requires
        n <= 8,
        (x as int) < pow2_of_8mul(n),
        0 <= i,
        i + n <= s.len(),
        s.subrange(i, i + n) == spec_be_bytes(x, n),
    ensures
        spec_read_be(s, i, n) == x,
    decreases n,
{
    lemma_be_bytes_len(x, n);
    lemma_subrange_index_all(s, i, spec_be_bytes(x, n));
    if n == 0 {
    } else {
        let head = spec_be_bytes(x / 256, (n - 1) as nat);
        lemma_be_bytes_len(x / 256, (n - 1) as nat);
        assert(s[i + (n - 1)] == spec_be_bytes(x, n)[n - 1]);
        assert(spec_be_bytes(x, n)[n - 1] == (x % 256) as u8);
        assert forall|j: int| 0 <= j < n - 1 implies s.subrange(i, i + (n - 1))[j] == head[j] by {
            assert(s[i + j] == spec_be_bytes(x, n)[j]);
            assert(spec_be_bytes(x, n)[j] == head[j]);
        }
        assert(s.subrange(i, i + (n - 1)) =~= head);
        lemma_pow2_of_8mul_pos((n - 1) as nat);
        assert(((x / 256) as int) < pow2_of_8mul((n - 1) as nat));
        lemma_read_be_inverse(x / 256, (n - 1) as nat, s, i);
    }
}

/// The byte at index `j` of an `n`-byte big-endian layout.
proof fn lemma_be_bytes_index(x: u64, n: nat, j: int)
    requires
        0 <= j < n <= 8,
    ensures
        spec_be_bytes(x, n)[j] == ((x as int / pow2_of_8mul((n - 1 - j) as nat)) % 256) as u8,
    decreases n,
{
    lemma_be_bytes_len(x, n);
    lemma_pow2_of_8mul_values();
    if j == n - 1 {
        assert(pow2_of_8mul(0) == 1);
    } else {
        lemma_be_bytes_len(x / 256, (n - 1) as nat);
        lemma_be_bytes_index(x / 256, (n - 1) as nat, j);
        let p = pow2_of_8mul((n - 2 - j) as nat);
        lemma_pow2_of_8mul_pos((n - 2 - j) as nat);
        lemma_div_denominator(x as int, 256, p);
        assert(pow2_of_8mul((n - 1 - j) as nat) == 256 * p);
    }
}

/// A magnitude encoding starts with a header carrying its kind, and the
/// rest reads back as the magnitude itself.
proof fn lemma_magnitude_decode(k: H4, u: u64, s: Seq<u8>, i: int)
    requires
        0 <= i,
        i + spec_magnitude(k, u).len() <= s.len(),
        s.subrange(i, i + spec_magnitude(k, u).len()) == spec_magnitude(k, u),
    ensures
        1 <= spec_magnitude(k, u).len() <= 9,
        spec_h4_of_nibble(s[i] / 16) == Option::<H4>::Some(k),
        s[i] % 16 < 16,
        spec_read_magnitude(s, i + 1, s[i] % 16) == Ok::<(u64, int), (Error, int)>(
            (u, i + spec_magnitude(k, u).len()),
        ),
{
    reveal_with_fuel(spec_read_be, 3);
    lemma_h4_nibble_inverse(k);
    lemma_pow2_of_8mul_values();
    let mag = spec_magnitude(k, u);
    lemma_subrange_index_all(s, i, mag);
    assert(s[i + 0] == mag[0]);
    if u < EXT8 as u64 {
        lemma_header_split(k, u as u8);
    } else if u <= 0xff {
        lemma_header_split(k, EXT8);
        assert(s[i + 1] == mag[1]);
        assert(spec_read_be(s, i + 1, 1) == u);
    } else if u <= 0xffff {
        lemma_be_bytes_len(u, 2);
        lemma_header_split(k, crate::casting::EXT16);
        assert forall|j: int| 0 <= j < 2 implies s.subrange(i + 1, i + 3)[j] == spec_be_bytes(
            u,
            2,
        )[j] by {
            assert(s[i + (1 + j)] == mag[1 + j]);
            assert(mag[1 + j] == spec_be_bytes(u, 2)[j]);
        }
        assert(s.subrange(i + 1, i + 3) =~= spec_be_bytes(u, 2));
        lemma_read_be_inverse(u, 2, s, i + 1);
    } else if u <= 0xffff_ffff {
        lemma_be_bytes_len(u, 4);
        lemma_header_split(k, crate::casting::EXT32);
        assert forall|j: int| 0 <= j < 4 implies s.subrange(i + 1, i + 5)[j] == spec_be_bytes(
            u,
            4,
        )[j] by {
            assert(s[i + (1 + j)] == mag[1 + j]);
            assert(mag[1 + j] == spec_be_bytes(u, 4)[j]);
        }
        assert(s.subrange(i + 1, i + 5) =~= spec_be_bytes(u, 4));
        lemma_read_be_inverse(u, 4, s, i + 1);
    } else {
        lemma_be_bytes_len(u, 8);
        lemma_header_split(k, crate::casting::EXT64);
        assert forall|j: int| 0 <= j < 8 implies s.subrange(i + 1, i + 9)[j] == spec_be_bytes(
            u,
            8,
        )[j] by {
            assert(s[i + (1 + j)] == mag[1 + j]);
            assert(mag[1 + j] == spec_be_bytes(u, 8)[j]);
        }
        assert(s.subrange(i + 1, i + 9) =~= spec_be_bytes(u, 8));
        lemma_read_be_inverse(u, 8, s, i + 1);
    }
}

/// Reading the first `k` big-endian bytes of the full 8-byte layout of
/// `x` yields `x` with its low `8 - k` bytes shifted away.
proof fn lemma_read_be_high(x: u64, k: nat, s: Seq<u8>, i: int)
    requires
        k <= 8,
        0 <= i,
        i + k <= s.len(),
        forall|j: int| 0 <= j < k ==> s[i + j] == #[trigger] spec_be_bytes(x, 8)[j],
    ensures
        spec_read_be(s, i, k) == (x as int) / pow2_of_8mul((8 - k) as nat),
    decreases k,
{
    if k == 0 {
        lemma_pow2_of_8mul_values();
        assert((x as int) / pow2_of_8mul(8) == 0) by {
            lemma_pow2_of_8mul_values();
        }
    } else {
        lemma_read_be_high(x, (k - 1) as nat, s, i);
        lemma_be_bytes_index(x, 8, k - 1);
        let p = pow2_of_8mul((8 - k) as nat);
        lemma_pow2_of_8mul_pos((8 - k) as nat);
        lemma_div_denominator(x as int, p, 256);
        assert(pow2_of_8mul((8 - (k - 1) as nat) as nat) == 256 * p);
        assert((x as int) / (p * 256) == ((x as int) / p) / 256);
        assert(s[i + (k - 1)] == spec_be_bytes(x, 8)[k - 1]);
        assert(spec_read_be(s, i, k) == spec_read_be(s, i, (k - 1) as nat) * 256 + s[i + k - 1]);
        assert((((x as int) / p) / 256) * 256 + ((x as int) / p) % 256 == (x as int) / p);
    }
}

/// Where the trimmed length of a floating-point layout ends, everything
/// after it is zero: the whole low tail of the pattern vanishes modulo
/// the matching scale.
proof fn lemma_float_len_props(f: u64)
    ensures
        1 <= spec_float_len(f) <= 8,
        (f as int) % pow2_of_8mul((8 - spec_float_len(f)) as nat) == 0,
{
    lemma_be_bytes_len(f, 8);
    let len = spec_float_len(f);
    assert forall|j: int| len <= j < 8 implies spec_be_bytes(f, 8)[j] == 0 by {
    }
    lemma_low_tail_zero(f, (8 - len) as nat);
}

/// If the last `k` bytes of the 8-byte layout of `f` are zero, then `f`
/// vanishes modulo the `k`-byte scale.
proof fn lemma_low_tail_zero(f: u64, k: nat)
    requires
        k <= 8,
        forall|j: int| 8 - k <= j < 8 ==> #[trigger] spec_be_bytes(f, 8)[j] == 0,
    ensures
        (f as int) % pow2_of_8mul(k) == 0,
    decreases k,
{
    lemma_pow2_of_8mul_values();
    if k == 0 {
    } else {
        lemma_low_tail_zero(f, (k - 1) as nat);
        lemma_be_bytes_index(f, 8, 8 - k);
        let p = pow2_of_8mul((k - 1) as nat);
        lemma_pow2_of_8mul_pos((k - 1) as nat);
        assert(spec_be_bytes(f, 8)[8 - k] == 0);
        assert(((f as int) / p) % 256 == 0);
        lemma_mod_breakdown(f as int, p, 256);
        assert((f as int) % (p * 256) == p * (((f as int) / p) % 256) + (f as int) % p);
        assert(pow2_of_8mul(k) == 256 * p);
    }
}

/// A well-formed type id decodes from its own encoding.
proof fn lemma_decode_type_id_inverse(id: TypeIdView, s: Seq<u8>, i: int)
    requires
        type_id_wf(id),
        0 <= i,
        i + spec_encode_type_id(id).len() <= s.len(),
        s.subrange(i, i + spec_encode_type_id(id).len()) == spec_encode_type_id(id),
    ensures
        1 <= spec_encode_type_id(id).len() <= 8,
        spec_decode_type_id(s, i) == Ok::<(TypeIdView, int), (Error, int)>(
            (id, i + spec_encode_type_id(id).len()),
        ),
{
    let enc = spec_encode_type_id(id);
    lemma_subrange_index_all(s, i, enc);
    assert(s[i + 0] == enc[0]);
    match id {
        TypeIdView::Anonymous => {
        },
        TypeIdView::Std { schema, id: tid } => {
            lemma_be_bytes_len(tid as u64, 2);
            assert forall|j: int| 0 <= j < 2 implies #[trigger] (s.subrange(i + 1, i + 3)[j])
                == spec_be_bytes(tid as u64, 2)[j] by {
                assert(s[i + (1 + j)] == enc[1 + j]);
                assert(enc[1 + j] == spec_be_bytes(tid as u64, 2)[j]);
            }
            assert(s.subrange(i + 1, i + 3) =~= spec_be_bytes(tid as u64, 2));
            lemma_pow2_of_8mul_values();
            lemma_read_be_inverse(tid as u64, 2, s, i + 1);
        },
        TypeIdView::Hash { hash } => {
            assert forall|j: int| 0 <= j < 7 implies s.subrange(i + 1, i + 8)[j] == hash[j] by {
                assert(s[i + (1 + j)] == enc[1 + j]);
                assert(enc[1 + j] == hash[j]);
            }
            assert(s.subrange(i + 1, i + 8) =~= hash);
        },
    }
}

/// A well-formed type descriptor decodes from its own encoding, given a
/// depth budget that covers its nesting.
proof fn lemma_decode_encode_type(t: TypeView, s: Seq<u8>, i: int, d: nat)
    requires
        type_wf(t),
        type_depth(t) <= d,
        0 <= i,
        i + spec_encode_type(t).len() <= s.len(),
        s.subrange(i, i + spec_encode_type(t).len()) == spec_encode_type(t),
    ensures
        spec_decode_type(s, i, d) == Ok::<(TypeView, int), (Error, int)>(
            (t, i + spec_encode_type(t).len()),
        ),
    decreases t, 0nat,
{
    let enc = spec_encode_type(t);
    let tag = crate::wire::spec_type_tag(t);
    lemma_subrange_index_all(s, i, enc);
    assert(s[i + 0] == enc[0]);
    assert(enc[0] == tag);
    match t {
        TypeView::Option(inner) => {
            let e2 = spec_encode_type(*inner);
            lemma_subrange_split(s, i, seq![tag], e2);
            lemma_decode_encode_type(*inner, s, i + 1, (d - 1) as nat);
        },
        TypeView::List(inner) => {
            let e2 = spec_encode_type(*inner);
            lemma_subrange_split(s, i, seq![tag], e2);
            lemma_decode_encode_type(*inner, s, i + 1, (d - 1) as nat);
        },
        TypeView::Mapping(k, v) => {
            let e2 = spec_encode_type(*k);
            let e3 = spec_encode_type(*v);
            assert(enc =~= seq![tag] + e2 + e3);
            lemma_subrange_split3(s, i, seq![tag], e2, e3);
            lemma_decode_encode_type(*k, s, i + 1, (d - 1) as nat);
            lemma_decode_encode_type(*v, s, i + 1 + e2.len(), (d - 1) as nat);
        },
        TypeView::Tuple(members) => {
            let e2 = seq![members.len() as u8];
            let e3 = spec_encode_type_seq(members);
            assert(enc =~= seq![tag] + e2 + e3);
            lemma_subrange_split3(s, i, seq![tag], e2, e3);
            lemma_subrange_index_all(s, i + 1, e2);
            assert(s[i + 1 + 0] == e2[0]);
            assert(s[i + 1] as nat == members.len());
            crate::model::lemma_type_seq_depth_le(members, (d - 1) as nat);
            lemma_decode_encode_type_seq(members, s, i + 2, (d - 1) as nat);
        },
        TypeView::Alias(id) => {
            let e2 = spec_encode_type_id(id);
            lemma_subrange_split(s, i, seq![tag], e2);
            lemma_decode_type_id_inverse(id, s, i + 1);
        },
        TypeView::CEnum(id) => {
            let e2 = spec_encode_type_id(id);
            lemma_subrange_split(s, i, seq![tag], e2);
            lemma_decode_type_id_inverse(id, s, i + 1);
        },
        TypeView::Enum(id) => {
            let e2 = spec_encode_type_id(id);
            lemma_subrange_split(s, i, seq![tag], e2);
            lemma_decode_type_id_inverse(id, s, i + 1);
        },
        TypeView::Struct(id) => {
            let e2 = spec_encode_type_id(id);
            lemma_subrange_split(s, i, seq![tag], e2);
            lemma_decode_type_id_inverse(id, s, i + 1);
        },
        _ => {
            assert(enc =~= seq![tag]);
        },
    }
}

/// A sequence of well-formed type descriptors decodes, member after
/// member, from its concatenated encodings.
proof fn lemma_decode_encode_type_seq(ts: Seq<TypeView>, s: Seq<u8>, i: int, d: nat)
    requires
        type_seq_wf(ts),
        type_seq_depth(ts) <= d,
        0 <= i,
        i + spec_encode_type_seq(ts).len() <= s.len(),
        s.subrange(i, i + spec_encode_type_seq(ts).len()) == spec_encode_type_seq(ts),
    ensures
        spec_decode_type_seq(s, i, ts.len(), d) == Ok::<(Seq<TypeView>, int), (Error, int)>(
            (ts, i + spec_encode_type_seq(ts).len()),
        ),
    decreases ts, 1nat,
{
    if ts.len() == 0 {
        assert(ts =~= Seq::<TypeView>::empty());
    } else {
        let e1 = spec_encode_type(ts[0]);
        let e2 = spec_encode_type_seq(ts.drop_first());
        lemma_subrange_split(s, i, e1, e2);
        crate::model::lemma_type_seq_wf_char(ts);
        crate::model::lemma_type_seq_depth_le(ts, d);
        lemma_decode_encode_type(ts[0], s, i, d);
        crate::model::lemma_type_seq_wf_char(ts.drop_first());
        crate::model::lemma_type_seq_depth_le(ts.drop_first(), d);
        assert(forall|j: int|
            0 <= j < ts.drop_first().len() ==> #[trigger] ts.drop_first()[j] == ts[j + 1]);
        lemma_decode_encode_type_seq(ts.drop_first(), s, i + e1.len(), d);
        assert(seq![ts[0]] + ts.drop_first() =~= ts);
    }
}

/// A marker header byte names the extension family and its own marker.
proof fn lemma_marker_header(m: Ext1, s: Seq<u8>, i: int)
    requires
        0 <= i < s.len(),
        s[i] == crate::wire::spec_marker_byte(m),
    ensures
        spec_h4_of_nibble(s[i] / 16) == Option::<H4>::Some(H4::Ext1),
        spec_ext1_of_marker(s[i] % 16) == Option::<Ext1>::Some(m),
{
    lemma_header_split(H4::Ext1, m.spec_marker());
    lemma_h4_nibble_inverse(H4::Ext1);
    lemma_ext1_marker_inverse(m);
}

/// Shared assumptions of every per-variant case below: the bytes at `i`
/// are the value's encoding, inside bounds, with a budget covering it.
spec fn dev_pre(v: ValueView, s: Seq<u8>, i: int, d: nat) -> bool {
    &&& value_wf(v)
    &&& value_depth(v) <= d
    &&& 0 <= i
    &&& i + spec_encode_value(v).len() <= s.len()
    &&& s.subrange(i, i + spec_encode_value(v).len()) == spec_encode_value(v)
}

/// The shared conclusion: the value parses back, ending where its
/// encoding ends.
spec fn dev_post(v: ValueView, s: Seq<u8>, i: int, d: nat) -> bool {
    crate::wire::spec_decode_value(s, i, d) == Ok::<(ValueView, int), (Error, int)>(
        (v, i + spec_encode_value(v).len()),
    )
}

/// A well-formed value decodes from its own encoding, given a depth
/// budget that covers its nesting.
proof fn lemma_decode_encode_value(v: ValueView, s: Seq<u8>, i: int, d: nat)
    requires
        dev_pre(v, s, i, d),
    ensures
        dev_post(v, s, i, d),
    decreases v, 1nat,
{
    match v {
        ValueView::Unit => lemma_dev_marker_leaf(v, s, i, d),
        ValueView::Bool(_) => lemma_dev_marker_leaf(v, s, i, d),
        ValueView::Int(_) => lemma_dev_numeric(v, s, i, d),
        ValueView::UInt(_) => lemma_dev_numeric(v, s, i, d),
        ValueView::Float(_) => lemma_dev_float(v, s, i, d),
        ValueView::String(_) => lemma_dev_string(v, s, i, d),
        ValueView::Bytes(_) => lemma_dev_bytes(v, s, i, d),
        ValueView::Option(_, _) => lemma_dev_option(v, s, i, d),
        ValueView::List(_, _) => lemma_dev_list(v, s, i, d),
        ValueView::Mapping(_, _, _) => lemma_dev_mapping(v, s, i, d),
        ValueView::Tuple(_) => lemma_dev_tuple(v, s, i, d),
        ValueView::Alias(_, _) => lemma_dev_alias(v, s, i, d),
        ValueView::CEnum(_, _) => lemma_dev_cenum(v, s, i, d),
        ValueView::Enum(_, _, _) => lemma_dev_enum(v, s, i, d),
        ValueView::Struct(_, _) => lemma_dev_struct(v, s, i, d),
        ValueView::Type(_) => lemma_dev_type(v, s, i, d),
        ValueView::TypeId(_) => lemma_dev_typeid(v, s, i, d),
    }
}

proof fn lemma_dev_marker_leaf(v: ValueView, s: Seq<u8>, i: int, d: nat)
    requires
        v is Unit || v is Bool,
        dev_pre(v, s, i, d),
    ensures
        dev_post(v, s, i, d),
    decreases v, 0nat,
{
    let enc = spec_encode_value(v);
    let dc = (d - 1) as nat;
    lemma_subrange_index_all(s, i, enc);
    assert(s[i + 0] == enc[0]);
    let m = if v is Unit {
        Ext1::Unit
    } else if v->Bool_0 {
        Ext1::True
    } else {
        Ext1::False
    };
    assert(enc =~= seq![crate::wire::spec_marker_byte(m)]);
    lemma_marker_header(m, s, i);
    assert(crate::wire::spec_decode_value(s, i, d) == crate::wire::spec_decode_marker(
        s,
        i + 1,
        m,
        dc,
    ));
}

proof fn lemma_dev_numeric(v: ValueView, s: Seq<u8>, i: int, d: nat)
    requires
        v is Int || v is UInt,
        dev_pre(v, s, i, d),
    ensures
        dev_post(v, s, i, d),
    decreases v, 0nat,
{
    let enc = spec_encode_value(v);
    lemma_subrange_index_all(s, i, enc);
    assert(s[i + 0] == enc[0]);
    match v {
        ValueView::Int(x) => {
            lemma_magnitude_decode(H4::Int, spec_zigzag(x), s, i);
            crate::casting::lemma_zigzag_inverse(x, 0);
        },
        ValueView::UInt(u) => {
            lemma_magnitude_decode(H4::UInt, u, s, i);
        },
        _ => {},
    }
}

proof fn lemma_dev_float(v: ValueView, s: Seq<u8>, i: int, d: nat)
    requires
        v is Float,
        dev_pre(v, s, i, d),
    ensures
        dev_post(v, s, i, d),
    decreases v, 0nat,
{
    let enc = spec_encode_value(v);
    lemma_subrange_index_all(s, i, enc);
    assert(s[i + 0] == enc[0]);
    let f = v->Float_0;
    let len = spec_float_len(f);
    lemma_float_len_props(f);
    lemma_be_bytes_len(f, 8);
    let pay = spec_be_bytes(f, 8).subrange(0, len);
    lemma_header_split(H4::Float, len as u8);
    lemma_h4_nibble_inverse(H4::Float);
    assert(enc[0] == spec_header(H4::Float, len as u8));
    assert forall|j: int| 0 <= j < len implies s[i + 1 + j] == #[trigger] spec_be_bytes(f, 8)[j] by {
        assert(s[i + (1 + j)] == enc[1 + j]);
        assert(enc[1 + j] == pay[j]);
    }
    lemma_read_be_high(f, len as nat, s, i + 1);
    let p = pow2_of_8mul((8 - len) as nat);
    lemma_pow2_of_8mul_pos((8 - len) as nat);
    vstd::arithmetic::div_mod::lemma_fundamental_div_mod(f as int, p);
    assert(((f as int) / p) * p == f) by (nonlinear_arith)
        requires
            p > 0 && (f as int) % p == 0 && f == p * ((f as int) / p),
    ;
}

proof fn lemma_dev_string(v: ValueView, s: Seq<u8>, i: int, d: nat)
    requires
        v is String,
        dev_pre(v, s, i, d),
    ensures
        dev_post(v, s, i, d),
    decreases v, 0nat,
{
    let cs = v->String_0;
    let b = vstd::utf8::encode_utf8(cs);
    let mag = spec_magnitude(H4::String, b.len() as u64);
    lemma_subrange_split(s, i, mag, b);
    lemma_magnitude_decode(H4::String, b.len() as u64, s, i);
    vstd::utf8::encode_utf8_valid_utf8(cs);
    vstd::utf8::encode_utf8_decode_utf8(cs);
}

proof fn lemma_dev_bytes(v: ValueView, s: Seq<u8>, i: int, d: nat)
    requires
        v is Bytes,
        dev_pre(v, s, i, d),
    ensures
        dev_post(v, s, i, d),
    decreases v, 0nat,
{
    let b = v->Bytes_0;
    let mag = spec_magnitude(H4::Bytes, b.len() as u64);
    lemma_subrange_split(s, i, mag, b);
    lemma_magnitude_decode(H4::Bytes, b.len() as u64, s, i);
}

proof fn lemma_dev_option(v: ValueView, s: Seq<u8>, i: int, d: nat)
    requires
        v is Option,
        dev_pre(v, s, i, d),
    ensures
        dev_post(v, s, i, d),
    decreases v, 0nat,
{
    let enc = spec_encode_value(v);
    let dc = (d - 1) as nat;
    lemma_subrange_index_all(s, i, enc);
    assert(s[i + 0] == enc[0]);
    match v {
        ValueView::Option(t, ov) => {
            match ov {
                Option::Some(inner) => {
                    let mk = seq![crate::wire::spec_marker_byte(Ext1::Present)];
                    let e2 = spec_encode_type(t);
                    let e3 = spec_encode_value(*inner);
                    assert(enc =~= mk + e2 + e3);
                    lemma_subrange_split3(s, i, mk, e2, e3);
                    lemma_marker_header(Ext1::Present, s, i);
                    assert(crate::wire::spec_decode_value(s, i, d)
                        == crate::wire::spec_decode_marker(s, i + 1, Ext1::Present, dc));
                    lemma_decode_encode_type(t, s, i + 1, dc);
                    lemma_decode_encode_value(*inner, s, i + 1 + e2.len(), dc);
                },
                Option::None => {
                    let mk = seq![crate::wire::spec_marker_byte(Ext1::Absent)];
                    let e2 = spec_encode_type(t);
                    lemma_subrange_split(s, i, mk, e2);
                    lemma_marker_header(Ext1::Absent, s, i);
                    assert(crate::wire::spec_decode_value(s, i, d)
                        == crate::wire::spec_decode_marker(s, i + 1, Ext1::Absent, dc));
                    lemma_decode_encode_type(t, s, i + 1, dc);
                },
            }
        },
        _ => {},
    }
}

proof fn lemma_dev_list(v: ValueView, s: Seq<u8>, i: int, d: nat)
    requires
        v is List,
        dev_pre(v, s, i, d),
    ensures
        dev_post(v, s, i, d),
    decreases v, 0nat,
{
    let enc = spec_encode_value(v);
    let dc = (d - 1) as nat;
    match v {
        ValueView::List(t, vs) => {
            let mag = spec_magnitude(H4::List, vs.len() as u64);
            let e2 = spec_encode_type(t);
            let e3 = crate::wire::spec_encode_value_seq(vs);
            assert(enc =~= mag + e2 + e3);
            lemma_subrange_split3(s, i, mag, e2, e3);
            lemma_magnitude_decode(H4::List, vs.len() as u64, s, i);
            lemma_decode_encode_type(t, s, i + mag.len(), dc);
            crate::model::lemma_value_seq_depth_le(vs, dc);
            lemma_decode_encode_value_seq(vs, s, i + mag.len() + e2.len(), dc);
        },
        _ => {},
    }
}

proof fn lemma_dev_mapping(v: ValueView, s: Seq<u8>, i: int, d: nat)
    requires
        v is Mapping,
        dev_pre(v, s, i, d),
    ensures
        dev_post(v, s, i, d),
    decreases v, 0nat,
{
    let enc = spec_encode_value(v);
    let dc = (d - 1) as nat;
    match v {
        ValueView::Mapping(tk, tv, ps) => {
            let mag = spec_magnitude(H4::Mapping, ps.len() as u64);
            let e2 = spec_encode_type(tk);
            let e3 = spec_encode_type(tv);
            let e4 = crate::wire::spec_encode_pair_seq(ps);
            assert(enc =~= mag + e2 + e3 + e4);
            lemma_subrange_split4(s, i, mag, e2, e3, e4);
            lemma_magnitude_decode(H4::Mapping, ps.len() as u64, s, i);
            lemma_decode_encode_type(tk, s, i + mag.len(), dc);
            lemma_decode_encode_type(tv, s, i + mag.len() + e2.len(), dc);
            crate::model::lemma_value_pair_seq_depth_le(ps, dc);
            lemma_decode_encode_pair_seq(ps, s, i + mag.len() + e2.len() + e3.len(), dc);
        },
        _ => {},
    }
}

proof fn lemma_dev_tuple(v: ValueView, s: Seq<u8>, i: int, d: nat)
    requires
        v is Tuple,
        dev_pre(v, s, i, d),
    ensures
        dev_post(v, s, i, d),
    decreases v, 0nat,
{
    let enc = spec_encode_value(v);
    let dc = (d - 1) as nat;
    match v {
        ValueView::Tuple(vs) => {
            let mag = spec_magnitude(H4::Tuple, vs.len() as u64);
            let e2 = crate::wire::spec_encode_value_seq(vs);
            lemma_subrange_split(s, i, mag, e2);
            lemma_magnitude_decode(H4::Tuple, vs.len() as u64, s, i);
            crate::model::lemma_value_seq_depth_le(vs, dc);
            lemma_decode_encode_value_seq(vs, s, i + mag.len(), dc);
        },
        _ => {},
    }
}

proof fn lemma_dev_alias(v: ValueView, s: Seq<u8>, i: int, d: nat)
    requires
        v is Alias,
        dev_pre(v, s, i, d),
    ensures
        dev_post(v, s, i, d),
    decreases v, 0nat,
{
    let enc = spec_encode_value(v);
    let dc = (d - 1) as nat;
    lemma_subrange_index_all(s, i, enc);
    assert(s[i + 0] == enc[0]);
    match v {
        ValueView::Alias(id, inner) => {
            let mk = seq![crate::wire::spec_marker_byte(Ext1::Alias)];
            let e2 = spec_encode_type_id(id);
            let e3 = spec_encode_value(*inner);
            assert(enc =~= mk + e2 + e3);
            lemma_subrange_split3(s, i, mk, e2, e3);
            lemma_marker_header(Ext1::Alias, s, i);
            assert(crate::wire::spec_decode_value(s, i, d) == crate::wire::spec_decode_marker(
                s,
                i + 1,
                Ext1::Alias,
                dc,
            ));
            lemma_decode_type_id_inverse(id, s, i + 1);
            lemma_decode_encode_value(*inner, s, i + 1 + e2.len(), dc);
        },
        _ => {},
    }
}

proof fn lemma_dev_cenum(v: ValueView, s: Seq<u8>, i: int, d: nat)
    requires
        v is CEnum,
        dev_pre(v, s, i, d),
    ensures
        dev_post(v, s, i, d),
    decreases v, 0nat,
{
    let enc = spec_encode_value(v);
    match v {
        ValueView::CEnum(id, ev) => {
            let mag = spec_magnitude(H4::CEnum, ev);
            let e2 = spec_encode_type_id(id);
            lemma_subrange_split(s, i, mag, e2);
            lemma_magnitude_decode(H4::CEnum, ev, s, i);
            lemma_decode_type_id_inverse(id, s, i + mag.len());
        },
        _ => {},
    }
}

proof fn lemma_dev_enum(v: ValueView, s: Seq<u8>, i: int, d: nat)
    requires
        v is Enum,
        dev_pre(v, s, i, d),
    ensures
        dev_post(v, s, i, d),
    decreases v, 0nat,
{
    let enc = spec_encode_value(v);
    let dc = (d - 1) as nat;
    match v {
        ValueView::Enum(id, ev, inner) => {
            let mag = spec_magnitude(H4::Enum, ev);
            let e2 = spec_encode_type_id(id);
            let e3 = spec_encode_value(*inner);
            assert(enc =~= mag + e2 + e3);
            lemma_subrange_split3(s, i, mag, e2, e3);
            lemma_magnitude_decode(H4::Enum, ev, s, i);
            lemma_decode_type_id_inverse(id, s, i + mag.len());
            lemma_decode_encode_value(*inner, s, i + mag.len() + e2.len(), dc);
        },
        _ => {},
    }
}

proof fn lemma_dev_struct(v: ValueView, s: Seq<u8>, i: int, d: nat)
    requires
        v is Struct,
        dev_pre(v, s, i, d),
    ensures
        dev_post(v, s, i, d),
    decreases v, 0nat,
{
    let enc = spec_encode_value(v);
    let dc = (d - 1) as nat;
    match v {
        ValueView::Struct(id, vs) => {
            let mag = spec_magnitude(H4::Struct, vs.len() as u64);
            let e2 = spec_encode_type_id(id);
            let e3 = crate::wire::spec_encode_value_seq(vs);
            assert(enc =~= mag + e2 + e3);
            lemma_subrange_split3(s, i, mag, e2, e3);
            lemma_magnitude_decode(H4::Struct, vs.len() as u64, s, i);
            lemma_decode_type_id_inverse(id, s, i + mag.len());
            crate::model::lemma_value_seq_depth_le(vs, dc);
            lemma_decode_encode_value_seq(vs, s, i + mag.len() + e2.len(), dc);
        },
        _ => {},
    }
}

proof fn lemma_dev_type(v: ValueView, s: Seq<u8>, i: int, d: nat)
    requires
        v is Type,
        dev_pre(v, s, i, d),
    ensures
        dev_post(v, s, i, d),
    decreases v, 0nat,
{
    let enc = spec_encode_value(v);
    let dc = (d - 1) as nat;
    lemma_subrange_index_all(s, i, enc);
    assert(s[i + 0] == enc[0]);
    match v {
        ValueView::Type(t) => {
            let mk = seq![crate::wire::spec_marker_byte(Ext1::Type)];
            let e2 = spec_encode_type(t);
            lemma_subrange_split(s, i, mk, e2);
            lemma_marker_header(Ext1::Type, s, i);
            assert(crate::wire::spec_decode_value(s, i, d) == crate::wire::spec_decode_marker(
                s,
                i + 1,
                Ext1::Type,
                dc,
            ));
            lemma_decode_encode_type(t, s, i + 1, dc);
        },
        _ => {},
    }
}

proof fn lemma_dev_typeid(v: ValueView, s: Seq<u8>, i: int, d: nat)
    requires
        v is TypeId,
        dev_pre(v, s, i, d),
    ensures
        dev_post(v, s, i, d),
    decreases v, 0nat,
{
    let enc = spec_encode_value(v);
    let dc = (d - 1) as nat;
    lemma_subrange_index_all(s, i, enc);
    assert(s[i + 0] == enc[0]);
    match v {
        ValueView::TypeId(id) => {
            let mk = seq![crate::wire::spec_marker_byte(Ext1::TypeId)];
            let e2 = spec_encode_type_id(id);
            lemma_subrange_split(s, i, mk, e2);
            lemma_marker_header(Ext1::TypeId, s, i);
            assert(crate::wire::spec_decode_value(s, i, d) == crate::wire::spec_decode_marker(
                s,
                i + 1,
                Ext1::TypeId,
                dc,
            ));
            lemma_decode_type_id_inverse(id, s, i + 1);
        },
        _ => {},
    }
}

/// A sequence of well-formed values decodes, member after member, from
/// its concatenated encodings.
proof fn lemma_decode_encode_value_seq(vs: Seq<ValueView>, s: Seq<u8>, i: int, d: nat)
    requires
        value_seq_wf(vs),
        value_seq_depth(vs) <= d,
        0 <= i,
        i + crate::wire::spec_encode_value_seq(vs).len() <= s.len(),
        s.subrange(i, i + crate::wire::spec_encode_value_seq(vs).len())
            == crate::wire::spec_encode_value_seq(vs),
    ensures
        crate::wire::spec_decode_value_seq(s, i, vs.len(), d) == Ok::<
            (Seq<ValueView>, int),
            (Error, int),
        >((vs, i + crate::wire::spec_encode_value_seq(vs).len())),
    decreases vs, 1nat,
{
    if vs.len() == 0 {
        assert(vs =~= Seq::<ValueView>::empty());
    } else {
        let e1 = spec_encode_value(vs[0]);
        let e2 = crate::wire::spec_encode_value_seq(vs.drop_first());
        lemma_subrange_split(s, i, e1, e2);
        crate::model::lemma_value_seq_wf_char(vs);
        crate::model::lemma_value_seq_depth_le(vs, d);
        lemma_decode_encode_value(vs[0], s, i, d);
        crate::model::lemma_value_seq_wf_char(vs.drop_first());
        crate::model::lemma_value_seq_depth_le(vs.drop_first(), d);
        assert(forall|j: int|
            0 <= j < vs.drop_first().len() ==> #[trigger] vs.drop_first()[j] == vs[j + 1]);
        lemma_decode_encode_value_seq(vs.drop_first(), s, i + e1.len(), d);
        assert(seq![vs[0]] + vs.drop_first() =~= vs);
    }
}

/// A sequence of well-formed key-value pairs decodes, keys and values
/// interleaved, from its concatenated encodings.
proof fn lemma_decode_encode_pair_seq(ps: Seq<(ValueView, ValueView)>, s: Seq<u8>, i: int, d: nat)
    requires
        value_pair_seq_wf(ps),
        value_pair_seq_depth(ps) <= d,
        0 <= i,
        i + crate::wire::spec_encode_pair_seq(ps).len() <= s.len(),
        s.subrange(i, i + crate::wire::spec_encode_pair_seq(ps).len())
            == crate::wire::spec_encode_pair_seq(ps),
    ensures
        crate::wire::spec_decode_pair_seq(s, i, ps.len(), d) == Ok::<
            (Seq<(ValueView, ValueView)>, int),
            (Error, int),
        >((ps, i + crate::wire::spec_encode_pair_seq(ps).len())),
    decreases ps, 1nat,
{
    if ps.len() == 0 {
        assert(ps =~= Seq::<(ValueView, ValueView)>::empty());
    } else {
        let e1 = spec_encode_value(ps[0].0);
        let e2 = spec_encode_value(ps[0].1);
        let e3 = crate::wire::spec_encode_pair_seq(ps.drop_first());
        assert(crate::wire::spec_encode_pair_seq(ps) =~= e1 + e2 + e3);
        lemma_subrange_split3(s, i, e1, e2, e3);
        crate::model::lemma_value_pair_seq_wf_char(ps);
        crate::model::lemma_value_pair_seq_depth_le(ps, d);
        lemma_decode_encode_value(ps[0].0, s, i, d);
        lemma_decode_encode_value(ps[0].1, s, i + e1.len(), d);
        crate::model::lemma_value_pair_seq_wf_char(ps.drop_first());
        crate::model::lemma_value_pair_seq_depth_le(ps.drop_first(), d);
        assert(forall|j: int|
            0 <= j < ps.drop_first().len() ==> #[trigger] ps.drop_first()[j] == ps[j + 1]);
        lemma_decode_encode_pair_seq(ps.drop_first(), s, i + e1.len() + e2.len(), d);
        assert(seq![ps[0]] + ps.drop_first() =~= ps);
    }
}

/// The input holds the start of `enc` at `i` but ends strictly before
/// `enc` does.
spec fn cut_pre(enc: Seq<u8>, s: Seq<u8>, i: int) -> bool {
    &&& 0 <= i <= s.len()
    &&& s.len() < i + enc.len()
    &&& forall|j: int| 0 <= j < s.len() - i ==> s[i + j] == enc[j]
}

/// Where the cut falls across a two-part concatenation: either the first
/// part is itself cut, or it is wholly present and the second part is cut.
proof fn lemma_cut_split(s: Seq<u8>, i: int, x: Seq<u8>, y: Seq<u8>)
    requires
        cut_pre(x + y, s, i),
    ensures
        s.len() < i + x.len() ==> cut_pre(x, s, i),
        i + x.len() <= s.len() ==> s.subrange(i, i + x.len()) == x && cut_pre(y, s, i + x.len()),
{
    let xy = x + y;
    if s.len() < i + x.len() {
        assert forall|j: int| 0 <= j < s.len() - i implies s[i + j] == x[j] by {
            assert(s[i + j] == xy[j]);
            assert(xy[j] == x[j]);
        }
    } else {
        assert forall|j: int| 0 <= j < x.len() implies s.subrange(i, i + x.len())[j] == x[j] by {
            assert(s[i + j] == xy[j]);
            assert(xy[j] == x[j]);
        }
        assert(s.subrange(i, i + x.len()) =~= x);
        assert forall|j: int| 0 <= j < s.len() - (i + x.len()) implies s[i + x.len() + j]
            == y[j] by {
            assert(s[i + (x.len() + j)] == xy[x.len() + j]);
            assert(xy[x.len() + j] == y[j]);
        }
    }
}

/// A magnitude whose explicit bytes are cut off reads back as a
/// truncation error.
proof fn lemma_magnitude_cut(k: H4, u: u64, s: Seq<u8>, i: int)
    requires
        cut_pre(spec_magnitude(k, u), s, i),
        i < s.len(),
    ensures
        spec_h4_of_nibble(s[i] / 16) == Option::<H4>::Some(k),
        spec_read_magnitude(s, i + 1, s[i] % 16) == Err::<(u64, int), (Error, int)>(
            (Error::Truncated, i + 1),
        ),
{
    lemma_h4_nibble_inverse(k);
    let mag = spec_magnitude(k, u);
    assert(s[i + 0] == mag[0]);
    if u < EXT8 as u64 {
        lemma_header_split(k, u as u8);
        assert(false);
    } else if u <= 0xff {
        lemma_header_split(k, EXT8);
    } else if u <= 0xffff {
        lemma_header_split(k, crate::casting::EXT16);
        lemma_be_bytes_len(u, 2);
    } else if u <= 0xffff_ffff {
        lemma_header_split(k, crate::casting::EXT32);
        lemma_be_bytes_len(u, 4);
    } else {
        lemma_header_split(k, crate::casting::EXT64);
        lemma_be_bytes_len(u, 8);
    }
}

/// A type id whose bytes are cut off decodes to a truncation error.
proof fn lemma_typeid_cut(id: TypeIdView, s: Seq<u8>, i: int)
    requires
        type_id_wf(id),
        cut_pre(spec_encode_type_id(id), s, i),
    ensures
        spec_decode_type_id(s, i) matches Err(p) && p.0 == Error::Truncated,
{
    let enc = spec_encode_type_id(id);
    if i < s.len() {
        assert(s[i + 0] == enc[0]);
        match id {
            TypeIdView::Anonymous => {
                assert(false);
            },
            TypeIdView::Std { schema, id: tid } => {
                lemma_be_bytes_len(tid as u64, 2);
            },
            TypeIdView::Hash { hash } => {
            },
        }
    }
}

/// A type descriptor cut off before its end decodes to a truncation
/// error.
proof fn lemma_cut_type(t: TypeView, s: Seq<u8>, i: int, d: nat)
    requires
        type_wf(t),
        type_depth(t) <= d,
        cut_pre(spec_encode_type(t), s, i),
    ensures
        spec_decode_type(s, i, d) matches Err(p) && p.0 == Error::Truncated,
    decreases t, 0nat,
{
    let enc = spec_encode_type(t);
    let tag = crate::wire::spec_type_tag(t);
    let dc = (d - 1) as nat;
    if i < s.len() {
        assert(s[i + 0] == enc[0]);
        assert(enc[0] == tag);
        match t {
            TypeView::Option(inner) => {
                let e2 = spec_encode_type(*inner);
                lemma_cut_split(s, i, seq![tag], e2);
                lemma_cut_type(*inner, s, i + 1, dc);
            },
            TypeView::List(inner) => {
                let e2 = spec_encode_type(*inner);
                lemma_cut_split(s, i, seq![tag], e2);
                lemma_cut_type(*inner, s, i + 1, dc);
            },
            TypeView::Mapping(k, v) => {
                let e2 = spec_encode_type(*k);
                let e3 = spec_encode_type(*v);
                assert(enc =~= seq![tag] + (e2 + e3));
                lemma_cut_split(s, i, seq![tag], e2 + e3);
                lemma_cut_split(s, i + 1, e2, e3);
                if s.len() < i + 1 + e2.len() {
                    lemma_cut_type(*k, s, i + 1, dc);
                } else {
                    lemma_decode_encode_type(*k, s, i + 1, dc);
                    lemma_cut_type(*v, s, i + 1 + e2.len(), dc);
                }
            },
            TypeView::Tuple(members) => {
                let e2 = seq![members.len() as u8];
                let e3 = spec_encode_type_seq(members);
                if i + 1 < s.len() {
                    assert(enc =~= seq![tag] + (e2 + e3));
                    lemma_cut_split(s, i, seq![tag], e2 + e3);
                    lemma_cut_split(s, i + 1, e2, e3);
                    lemma_subrange_index_all(s, i + 1, e2);
                    assert(s[i + 1 + 0] == e2[0]);
                    crate::model::lemma_type_seq_depth_le(members, dc);
                    lemma_cut_type_seq(members, s, i + 2, dc);
                }
            },
            TypeView::Alias(id) => {
                let e2 = spec_encode_type_id(id);
                lemma_cut_split(s, i, seq![tag], e2);
                lemma_typeid_cut(id, s, i + 1);
            },
            TypeView::CEnum(id) => {
                let e2 = spec_encode_type_id(id);
                lemma_cut_split(s, i, seq![tag], e2);
                lemma_typeid_cut(id, s, i + 1);
            },
            TypeView::Enum(id) => {
                let e2 = spec_encode_type_id(id);
                lemma_cut_split(s, i, seq![tag], e2);
                lemma_typeid_cut(id, s, i + 1);
            },
            TypeView::Struct(id) => {
                let e2 = spec_encode_type_id(id);
                lemma_cut_split(s, i, seq![tag], e2);
                lemma_typeid_cut(id, s, i + 1);
            },
            _ => {
                assert(enc =~= seq![tag]);
                assert(false);
            },
        }
    }
}

/// A sequence of type descriptors cut off before its end decodes to a
/// truncation error.
proof fn lemma_cut_type_seq(ts: Seq<TypeView>, s: Seq<u8>, i: int, d: nat)
    requires
        type_seq_wf(ts),
        type_seq_depth(ts) <= d,
        cut_pre(spec_encode_type_seq(ts), s, i),
    ensures
        spec_decode_type_seq(s, i, ts.len(), d) matches Err(p) && p.0 == Error::Truncated,
    decreases ts, 1nat,
{
    if ts.len() == 0 {
        assert(false);
    } else {
        let e1 = spec_encode_type(ts[0]);
        let e2 = spec_encode_type_seq(ts.drop_first());
        crate::model::lemma_type_seq_wf_char(ts);
        crate::model::lemma_type_seq_depth_le(ts, d);
        lemma_cut_split(s, i, e1, e2);
        if s.len() < i + e1.len() {
            lemma_cut_type(ts[0], s, i, d);
        } else {
            lemma_decode_encode_type(ts[0], s, i, d);
            crate::model::lemma_type_seq_wf_char(ts.drop_first());
            crate::model::lemma_type_seq_depth_le(ts.drop_first(), d);
            assert(forall|j: int|
                0 <= j < ts.drop_first().len() ==> #[trigger] ts.drop_first()[j] == ts[j + 1]);
            lemma_cut_type_seq(ts.drop_first(), s, i + e1.len(), d);
        }
    }
}

/// Shared assumptions of the per-variant truncation cases: the input
/// holds the start of the value's encoding but ends before it does.
spec fn cutv_pre(v: ValueView, s: Seq<u8>, i: int, d: nat) -> bool {
    &&& value_wf(v)
    &&& value_depth(v) <= d
    &&& cut_pre(spec_encode_value(v), s, i)
}

/// The shared conclusion: parsing stops with a truncation error.
spec fn cutv_post(s: Seq<u8>, i: int, d: nat) -> bool {
    crate::wire::spec_decode_value(s, i, d) matches Err(p) && p.0 == Error::Truncated
}

/// A value cut off before the end of its encoding decodes to a
/// truncation error — never to a spuriously valid short value.
proof fn lemma_cut_value(v: ValueView, s: Seq<u8>, i: int, d: nat)
    requires
        cutv_pre(v, s, i, d),
    ensures
        cutv_post(s, i, d),
    decreases v, 1nat,
{
    match v {
        ValueView::Unit => lemma_cutv_leaf(v, s, i, d),
        ValueView::Bool(_) => lemma_cutv_leaf(v, s, i, d),
        ValueView::Int(_) => lemma_cutv_numeric(v, s, i, d),
        ValueView::UInt(_) => lemma_cutv_numeric(v, s, i, d),
        ValueView::Float(_) => lemma_cutv_float(v, s, i, d),
        ValueView::String(_) => lemma_cutv_blob(v, s, i, d),
        ValueView::Bytes(_) => lemma_cutv_blob(v, s, i, d),
        ValueView::Option(_, _) => lemma_cutv_option(v, s, i, d),
        ValueView::List(_, _) => lemma_cutv_list(v, s, i, d),
        ValueView::Mapping(_, _, _) => lemma_cutv_mapping(v, s, i, d),
        ValueView::Tuple(_) => lemma_cutv_tuple(v, s, i, d),
        ValueView::Alias(_, _) => lemma_cutv_alias(v, s, i, d),
        ValueView::CEnum(_, _) => lemma_cutv_cenum(v, s, i, d),
        ValueView::Enum(_, _, _) => lemma_cutv_enum(v, s, i, d),
        ValueView::Struct(_, _) => lemma_cutv_struct(v, s, i, d),
        ValueView::Type(_) => lemma_cutv_type(v, s, i, d),
        ValueView::TypeId(_) => lemma_cutv_typeid(v, s, i, d),
    }
}

proof fn lemma_cutv_leaf(v: ValueView, s: Seq<u8>, i: int, d: nat)
    requires
        v is Unit || v is Bool,
        cutv_pre(v, s, i, d),
    ensures
        cutv_post(s, i, d),
    decreases v, 0nat,
{
    assert(spec_encode_value(v).len() == 1);
}

proof fn lemma_cutv_numeric(v: ValueView, s: Seq<u8>, i: int, d: nat)
    requires
        v is Int || v is UInt,
        cutv_pre(v, s, i, d),
    ensures
        cutv_post(s, i, d),
    decreases v, 0nat,
{
    if i < s.len() {
        match v {
            ValueView::Int(x) => {
                lemma_magnitude_cut(H4::Int, spec_zigzag(x), s, i);
            },
            ValueView::UInt(u) => {
                lemma_magnitude_cut(H4::UInt, u, s, i);
            },
            _ => {},
        }
    }
}

proof fn lemma_cutv_float(v: ValueView, s: Seq<u8>, i: int, d: nat)
    requires
        v is Float,
        cutv_pre(v, s, i, d),
    ensures
        cutv_post(s, i, d),
    decreases v, 0nat,
{
    if i < s.len() {
        let enc = spec_encode_value(v);
        let f = v->Float_0;
        let len = spec_float_len(f);
        lemma_float_len_props(f);
        lemma_be_bytes_len(f, 8);
        assert(s[i + 0] == enc[0]);
        assert(enc[0] == spec_header(H4::Float, len as u8));
        lemma_header_split(H4::Float, len as u8);
        lemma_h4_nibble_inverse(H4::Float);
    }
}

proof fn lemma_cutv_blob(v: ValueView, s: Seq<u8>, i: int, d: nat)
    requires
        v is String || v is Bytes,
        cutv_pre(v, s, i, d),
    ensures
        cutv_post(s, i, d),
    decreases v, 0nat,
{
    if i < s.len() {
        let b = if v is String {
            vstd::utf8::encode_utf8(v->String_0)
        } else {
            v->Bytes_0
        };
        let k = if v is String {
            H4::String
        } else {
            H4::Bytes
        };
        let mag = spec_magnitude(k, b.len() as u64);
        lemma_cut_split(s, i, mag, b);
        if s.len() < i + mag.len() {
            lemma_magnitude_cut(k, b.len() as u64, s, i);
        } else {
            lemma_magnitude_decode(k, b.len() as u64, s, i);
        }
    }
}

proof fn lemma_cutv_option(v: ValueView, s: Seq<u8>, i: int, d: nat)
    requires
        v is Option,
        cutv_pre(v, s, i, d),
    ensures
        cutv_post(s, i, d),
    decreases v, 0nat,
{
    let enc = spec_encode_value(v);
    let dc = (d - 1) as nat;
    if i < s.len() {
        assert(s[i + 0] == enc[0]);
        match v {
            ValueView::Option(t, ov) => {
                match ov {
                    Option::Some(inner) => {
                        let mk = seq![crate::wire::spec_marker_byte(Ext1::Present)];
                        let e2 = spec_encode_type(t);
                        let e3 = spec_encode_value(*inner);
                        assert(enc =~= mk + (e2 + e3));
                        lemma_cut_split(s, i, mk, e2 + e3);
                        lemma_marker_header(Ext1::Present, s, i);
                        assert(crate::wire::spec_decode_value(s, i, d)
                            == crate::wire::spec_decode_marker(s, i + 1, Ext1::Present, dc));
                        lemma_cut_split(s, i + 1, e2, e3);
                        if s.len() < i + 1 + e2.len() {
                            lemma_cut_type(t, s, i + 1, dc);
                        } else {
                            lemma_decode_encode_type(t, s, i + 1, dc);
                            lemma_cut_value(*inner, s, i + 1 + e2.len(), dc);
                        }
                    },
                    Option::None => {
                        let mk = seq![crate::wire::spec_marker_byte(Ext1::Absent)];
                        let e2 = spec_encode_type(t);
                        lemma_cut_split(s, i, mk, e2);
                        lemma_marker_header(Ext1::Absent, s, i);
                        assert(crate::wire::spec_decode_value(s, i, d)
                            == crate::wire::spec_decode_marker(s, i + 1, Ext1::Absent, dc));
                        lemma_cut_type(t, s, i + 1, dc);
                    },
                }
            },
            _ => {},
        }
    }
}

proof fn lemma_cutv_list(v: ValueView, s: Seq<u8>, i: int, d: nat)
    requires
        v is List,
        cutv_pre(v, s, i, d),
    ensures
        cutv_post(s, i, d),
    decreases v, 0nat,
{
    let dc = (d - 1) as nat;
    if i < s.len() {
        match v {
            ValueView::List(t, vs) => {
                let enc = spec_encode_value(v);
                let mag = spec_magnitude(H4::List, vs.len() as u64);
                let e2 = spec_encode_type(t);
                let e3 = crate::wire::spec_encode_value_seq(vs);
                assert(enc =~= mag + (e2 + e3));
                lemma_cut_split(s, i, mag, e2 + e3);
                if s.len() < i + mag.len() {
                    lemma_magnitude_cut(H4::List, vs.len() as u64, s, i);
                } else {
                    lemma_magnitude_decode(H4::List, vs.len() as u64, s, i);
                    lemma_cut_split(s, i + mag.len(), e2, e3);
                    crate::model::lemma_value_seq_depth_le(vs, dc);
                    if s.len() < i + mag.len() + e2.len() {
                        lemma_cut_type(t, s, i + mag.len(), dc);
                    } else {
                        lemma_decode_encode_type(t, s, i + mag.len(), dc);
                        lemma_cut_value_seq(vs, s, i + mag.len() + e2.len(), dc);
                    }
                }
            },
            _ => {},
        }
    }
}

proof fn lemma_cutv_mapping(v: ValueView, s: Seq<u8>, i: int, d: nat)
    requires
        v is Mapping,
        cutv_pre(v, s, i, d),
    ensures
        cutv_post(s, i, d),
    decreases v, 0nat,
{
    let dc = (d - 1) as nat;
    if i < s.len() {
        match v {
            ValueView::Mapping(tk, tv, ps) => {
                let enc = spec_encode_value(v);
                let mag = spec_magnitude(H4::Mapping, ps.len() as u64);
                let e2 = spec_encode_type(tk);
                let e3 = spec_encode_type(tv);
                let e4 = crate::wire::spec_encode_pair_seq(ps);
                assert(enc =~= mag + (e2 + (e3 + e4)));
                lemma_cut_split(s, i, mag, e2 + (e3 + e4));
                if s.len() < i + mag.len() {
                    lemma_magnitude_cut(H4::Mapping, ps.len() as u64, s, i);
                } else {
                    lemma_magnitude_decode(H4::Mapping, ps.len() as u64, s, i);
                    lemma_cut_split(s, i + mag.len(), e2, e3 + e4);
                    crate::model::lemma_value_pair_seq_depth_le(ps, dc);
                    if s.len() < i + mag.len() + e2.len() {
                        lemma_cut_type(tk, s, i + mag.len(), dc);
                    } else {
                        lemma_decode_encode_type(tk, s, i + mag.len(), dc);
                        lemma_cut_split(s, i + mag.len() + e2.len(), e3, e4);
                        if s.len() < i + mag.len() + e2.len() + e3.len() {
                            lemma_cut_type(tv, s, i + mag.len() + e2.len(), dc);
                        } else {
                            lemma_decode_encode_type(tv, s, i + mag.len() + e2.len(), dc);
                            lemma_cut_pair_seq(ps, s, i + mag.len() + e2.len() + e3.len(), dc);
                        }
                    }
                }
            },
            _ => {},
        }
    }
}

proof fn lemma_cutv_tuple(v: ValueView, s: Seq<u8>, i: int, d: nat)
    requires
        v is Tuple,
        cutv_pre(v, s, i, d),
    ensures
        cutv_post(s, i, d),
    decreases v, 0nat,
{
    let dc = (d - 1) as nat;
    if i < s.len() {
        match v {
            ValueView::Tuple(vs) => {
                let mag = spec_magnitude(H4::Tuple, vs.len() as u64);
                let e2 = crate::wire::spec_encode_value_seq(vs);
                lemma_cut_split(s, i, mag, e2);
                crate::model::lemma_value_seq_depth_le(vs, dc);
                if s.len() < i + mag.len() {
                    lemma_magnitude_cut(H4::Tuple, vs.len() as u64, s, i);
                } else {
                    lemma_magnitude_decode(H4::Tuple, vs.len() as u64, s, i);
                    lemma_cut_value_seq(vs, s, i + mag.len(), dc);
                }
            },
            _ => {},
        }
    }
}

proof fn lemma_cutv_alias(v: ValueView, s: Seq<u8>, i: int, d: nat)
    requires
        v is Alias,
        cutv_pre(v, s, i, d),
    ensures
        cutv_post(s, i, d),
    decreases v, 0nat,
{
    let enc = spec_encode_value(v);
    let dc = (d - 1) as nat;
    if i < s.len() {
        assert(s[i + 0] == enc[0]);
        match v {
            ValueView::Alias(id, inner) => {
                let mk = seq![crate::wire::spec_marker_byte(Ext1::Alias)];
                let e2 = spec_encode_type_id(id);
                let e3 = spec_encode_value(*inner);
                assert(enc =~= mk + (e2 + e3));
                lemma_cut_split(s, i, mk, e2 + e3);
                lemma_marker_header(Ext1::Alias, s, i);
                assert(crate::wire::spec_decode_value(s, i, d)
                    == crate::wire::spec_decode_marker(s, i + 1, Ext1::Alias, dc));
                lemma_cut_split(s, i + 1, e2, e3);
                if s.len() < i + 1 + e2.len() {
                    lemma_typeid_cut(id, s, i + 1);
                } else {
                    lemma_decode_type_id_inverse(id, s, i + 1);
                    lemma_cut_value(*inner, s, i + 1 + e2.len(), dc);
                }
            },
            _ => {},
        }
    }
}

proof fn lemma_cutv_cenum(v: ValueView, s: Seq<u8>, i: int, d: nat)
    requires
        v is CEnum,
        cutv_pre(v, s, i, d),
    ensures
        cutv_post(s, i, d),
    decreases v, 0nat,
{
    if i < s.len() {
        match v {
            ValueView::CEnum(id, ev) => {
                let mag = spec_magnitude(H4::CEnum, ev);
                let e2 = spec_encode_type_id(id);
                lemma_cut_split(s, i, mag, e2);
                if s.len() < i + mag.len() {
                    lemma_magnitude_cut(H4::CEnum, ev, s, i);
                } else {
                    lemma_magnitude_decode(H4::CEnum, ev, s, i);
                    lemma_typeid_cut(id, s, i + mag.len());
                }
            },
            _ => {},
        }
    }
}

proof fn lemma_cutv_enum(v: ValueView, s: Seq<u8>, i: int, d: nat)
    requires
        v is Enum,
        cutv_pre(v, s, i, d),
    ensures
        cutv_post(s, i, d),
    decreases v, 0nat,
{
    let dc = (d - 1) as nat;
    if i < s.len() {
        match v {
            ValueView::Enum(id, ev, inner) => {
                let enc = spec_encode_value(v);
                let mag = spec_magnitude(H4::Enum, ev);
                let e2 = spec_encode_type_id(id);
                let e3 = spec_encode_value(*inner);
                assert(enc =~= mag + (e2 + e3));
                lemma_cut_split(s, i, mag, e2 + e3);
                if s.len() < i + mag.len() {
                    lemma_magnitude_cut(H4::Enum, ev, s, i);
                } else {
                    lemma_magnitude_decode(H4::Enum, ev, s, i);
                    lemma_cut_split(s, i + mag.len(), e2, e3);
                    if s.len() < i + mag.len() + e2.len() {
                        lemma_typeid_cut(id, s, i + mag.len());
                    } else {
                        lemma_decode_type_id_inverse(id, s, i + mag.len());
                        lemma_cut_value(*inner, s, i + mag.len() + e2.len(), dc);
                    }
                }
            },
            _ => {},
        }
    }
}

proof fn lemma_cutv_struct(v: ValueView, s: Seq<u8>, i: int, d: nat)
    requires
        v is Struct,
        cutv_pre(v, s, i, d),
    ensures
        cutv_post(s, i, d),
    decreases v, 0nat,
{
    let dc = (d - 1) as nat;
    if i < s.len() {
        match v {
            ValueView::Struct(id, vs) => {
                let enc = spec_encode_value(v);
                let mag = spec_magnitude(H4::Struct, vs.len() as u64);
                let e2 = spec_encode_type_id(id);
                let e3 = crate::wire::spec_encode_value_seq(vs);
                assert(enc =~= mag + (e2 + e3));
                lemma_cut_split(s, i, mag, e2 + e3);
                crate::model::lemma_value_seq_depth_le(vs, dc);
                if s.len() < i + mag.len() {
                    lemma_magnitude_cut(H4::Struct, vs.len() as u64, s, i);
                } else {
                    lemma_magnitude_decode(H4::Struct, vs.len() as u64, s, i);
                    lemma_cut_split(s, i + mag.len(), e2, e3);
                    if s.len() < i + mag.len() + e2.len() {
                        lemma_typeid_cut(id, s, i + mag.len());
                    } else {
                        lemma_decode_type_id_inverse(id, s, i + mag.len());
                        lemma_cut_value_seq(vs, s, i + mag.len() + e2.len(), dc);
                    }
                }
            },
            _ => {},
        }
    }
}

proof fn lemma_cutv_type(v: ValueView, s: Seq<u8>, i: int, d: nat)
    requires
        v is Type,
        cutv_pre(v, s, i, d),
    ensures
        cutv_post(s, i, d),
    decreases v, 0nat,
{
    let enc = spec_encode_value(v);
    let dc = (d - 1) as nat;
    if i < s.len() {
        assert(s[i + 0] == enc[0]);
        match v {
            ValueView::Type(t) => {
                let mk = seq![crate::wire::spec_marker_byte(Ext1::Type)];
                let e2 = spec_encode_type(t);
                lemma_cut_split(s, i, mk, e2);
                lemma_marker_header(Ext1::Type, s, i);
                assert(crate::wire::spec_decode_value(s, i, d)
                    == crate::wire::spec_decode_marker(s, i + 1, Ext1::Type, dc));
                lemma_cut_type(t, s, i + 1, dc);
            },
            _ => {},
        }
    }
}

proof fn lemma_cutv_typeid(v: ValueView, s: Seq<u8>, i: int, d: nat)
    requires
        v is TypeId,
        cutv_pre(v, s, i, d),
    ensures
        cutv_post(s, i, d),
    decreases v, 0nat,
{
    let enc = spec_encode_value(v);
    let dc = (d - 1) as nat;
    if i < s.len() {
        assert(s[i + 0] == enc[0]);
        match v {
            ValueView::TypeId(id) => {
                let mk = seq![crate::wire::spec_marker_byte(Ext1::TypeId)];
                let e2 = spec_encode_type_id(id);
                lemma_cut_split(s, i, mk, e2);
                lemma_marker_header(Ext1::TypeId, s, i);
                assert(crate::wire::spec_decode_value(s, i, d)
                    == crate::wire::spec_decode_marker(s, i + 1, Ext1::TypeId, dc));
                lemma_typeid_cut(id, s, i + 1);
            },
            _ => {},
        }
    }
}

/// A value sequence cut off before its end decodes to a truncation
/// error.
proof fn lemma_cut_value_seq(vs: Seq<ValueView>, s: Seq<u8>, i: int, d: nat)
    requires
        value_seq_wf(vs),
        value_seq_depth(vs) <= d,
        cut_pre(crate::wire::spec_encode_value_seq(vs), s, i),
    ensures
        crate::wire::spec_decode_value_seq(s, i, vs.len(), d) matches Err(p) && p.0
            == Error::Truncated,
    decreases vs, 1nat,
{
    if vs.len() == 0 {
        assert(false);
    } else {
        let e1 = spec_encode_value(vs[0]);
        let e2 = crate::wire::spec_encode_value_seq(vs.drop_first());
        crate::model::lemma_value_seq_wf_char(vs);
        crate::model::lemma_value_seq_depth_le(vs, d);
        lemma_cut_split(s, i, e1, e2);
        if s.len() < i + e1.len() {
            lemma_cut_value(vs[0], s, i, d);
        } else {
            lemma_decode_encode_value(vs[0], s, i, d);
            crate::model::lemma_value_seq_wf_char(vs.drop_first());
            crate::model::lemma_value_seq_depth_le(vs.drop_first(), d);
            assert(forall|j: int|
                0 <= j < vs.drop_first().len() ==> #[trigger] vs.drop_first()[j] == vs[j + 1]);
            lemma_cut_value_seq(vs.drop_first(), s, i + e1.len(), d);
        }
    }
}

/// A pair sequence cut off before its end decodes to a truncation error.
proof fn lemma_cut_pair_seq(ps: Seq<(ValueView, ValueView)>, s: Seq<u8>, i: int, d: nat)
    requires
        value_pair_seq_wf(ps),
        value_pair_seq_depth(ps) <= d,
        cut_pre(crate::wire::spec_encode_pair_seq(ps), s, i),
    ensures
        crate::wire::spec_decode_pair_seq(s, i, ps.len(), d) matches Err(p) && p.0
            == Error::Truncated,
    decreases ps, 1nat,
{
    if ps.len() == 0 {
        assert(false);
    } else {
        let e1 = spec_encode_value(ps[0].0);
        let e2 = spec_encode_value(ps[0].1);
        let e3 = crate::wire::spec_encode_pair_seq(ps.drop_first());
        crate::model::lemma_value_pair_seq_wf_char(ps);
        crate::model::lemma_value_pair_seq_depth_le(ps, d);
        assert(crate::wire::spec_encode_pair_seq(ps) =~= e1 + (e2 + e3));
        lemma_cut_split(s, i, e1, e2 + e3);
        if s.len() < i + e1.len() {
            lemma_cut_value(ps[0].0, s, i, d);
        } else {
            lemma_decode_encode_value(ps[0].0, s, i, d);
            lemma_cut_split(s, i + e1.len(), e2, e3);
            if s.len() < i + e1.len() + e2.len() {
                lemma_cut_value(ps[0].1, s, i + e1.len(), d);
            } else {
                lemma_decode_encode_value(ps[0].1, s, i + e1.len(), d);
                crate::model::lemma_value_pair_seq_wf_char(ps.drop_first());
                crate::model::lemma_value_pair_seq_depth_le(ps.drop_first(), d);
                assert(forall|j: int|
                    0 <= j < ps.drop_first().len() ==> #[trigger] ps.drop_first()[j] == ps[j
                        + 1]);
                lemma_cut_pair_seq(ps.drop_first(), s, i + e1.len() + e2.len(), d);
            }
        }
    }
}

/// A magnitude read lands between its start and the end of the input.
proof fn lemma_sound_magnitude(s: Seq<u8>, i: int, l4: u8)
    requires
        0 <= i <= s.len(),
    ensures
        spec_read_magnitude(s, i, l4) matches Ok(p) ==> i <= p.1 <= s.len(),
{
}

/// A type id that parses is well formed and ends within the input.
proof fn lemma_sound_typeid(s: Seq<u8>, i: int)
    requires
        0 <= i,
    ensures
        spec_decode_type_id(s, i) matches Ok(p) ==> type_id_wf(p.0) && i < p.1 <= s.len(),
{
    let r = spec_decode_type_id(s, i);
    if r is Ok && i < s.len() && s[i] == TYPE_ID_HASH {
        assert(r->Ok_0.0 matches TypeIdView::Hash { hash } && hash.len() == 7);
    }
}

/// A type descriptor that parses is well formed, fits the budget it was
/// parsed under, and ends within the input.
proof fn lemma_sound_type(s: Seq<u8>, i: int, d: nat)
    requires
        0 <= i,
    ensures
        spec_decode_type(s, i, d) matches Ok(p) ==> type_wf(p.0) && type_depth(p.0) <= d && i
            < p.1 <= s.len(),
    decreases d, 0nat, 0nat,
{
    let r = spec_decode_type(s, i, d);
    if r is Ok {
        let tag = s[i];
        let j = i + 1;
        let dc = (d - 1) as nat;
        if tag == 0x08 || tag == 0x09 {
            lemma_sound_type(s, j, dc);
        } else if tag == 0x0a {
            lemma_sound_type(s, j, dc);
            let rk = spec_decode_type(s, j, dc);
            lemma_sound_type(s, rk->Ok_0.1, dc);
        } else if tag == 0x0b {
            lemma_sound_type_seq(s, j + 1, s[j] as nat, dc);
        } else if tag == 0x0c || tag == 0x0d || tag == 0x0e || tag == 0x0f {
            lemma_sound_typeid(s, j);
        }
    }
}

/// A sequence of type descriptors that parses has the asked-for length,
/// is well formed throughout, fits the budget, and ends within the input.
proof fn lemma_sound_type_seq(s: Seq<u8>, i: int, n: nat, d: nat)
    requires
        0 <= i <= s.len(),
    ensures
        spec_decode_type_seq(s, i, n, d) matches Ok(p) ==> p.0.len() == n && type_seq_wf(p.0)
            && type_seq_depth(p.0) <= d && i <= p.1 <= s.len(),
    decreases d, 1nat, n,
{
    let r = spec_decode_type_seq(s, i, n, d);
    if r is Ok && n > 0 {
        let r1 = spec_decode_type(s, i, d);
        lemma_sound_type(s, i, d);
        let j = r1->Ok_0.1;
        lemma_sound_type_seq(s, j, (n - 1) as nat, d);
        let r2 = spec_decode_type_seq(s, j, (n - 1) as nat, d);
        let whole = seq![r1->Ok_0.0] + r2->Ok_0.0;
        crate::model::lemma_type_seq_wf_char(r2->Ok_0.0);
        crate::model::lemma_type_seq_wf_char(whole);
        crate::model::lemma_type_seq_depth_le(r2->Ok_0.0, d);
        crate::model::lemma_type_seq_depth_le(whole, d);
        assert(whole[0] == r1->Ok_0.0);
        assert(forall|k: int| 1 <= k < whole.len() ==> #[trigger] whole[k] == r2->Ok_0.0[k - 1]);
    }
}

/// A value that parses is well formed, fits the budget it was parsed
/// under, and ends within the input.
pub proof fn lemma_sound_value(s: Seq<u8>, i: int, d: nat)
    requires
        0 <= i,
    ensures
        crate::wire::spec_decode_value(s, i, d) matches Ok(p) ==> value_wf(p.0) && value_depth(
            p.0,
        ) <= d && i < p.1 <= s.len(),
    decreases d, 0nat, 0nat,
{
    let r = crate::wire::spec_decode_value(s, i, d);
    if r is Ok {
        let hdr = s[i];
        let j = i + 1;
        let l4 = hdr % 16;
        let dc = (d - 1) as nat;
        lemma_sound_magnitude(s, j, l4);
        match spec_h4_of_nibble(hdr / 16) {
            Option::Some(h4) => match h4 {
                H4::Ext1 => {
                    match spec_ext1_of_marker(l4) {
                        Option::Some(m) => {
                            lemma_sound_marker(s, j, m, dc);
                        },
                        Option::None => {},
                    }
                },
                H4::String => {
                    let rm = spec_read_magnitude(s, j, l4);
                    let j2 = rm->Ok_0.1;
                    let u = rm->Ok_0.0;
                    let b = s.subrange(j2, j2 + u);
                    if vstd::utf8::valid_utf8(b) {
                        vstd::utf8::decode_utf8_encode_utf8(b);
                    }
                },
                H4::List => {
                    let rm = spec_read_magnitude(s, j, l4);
                    let j2 = rm->Ok_0.1;
                    lemma_sound_type(s, j2, dc);
                    let rt = spec_decode_type(s, j2, dc);
                    if rt is Ok {
                        lemma_sound_value_seq(s, rt->Ok_0.1, rm->Ok_0.0 as nat, dc);
                    }
                },
                H4::Mapping => {
                    let rm = spec_read_magnitude(s, j, l4);
                    let j2 = rm->Ok_0.1;
                    lemma_sound_type(s, j2, dc);
                    let rk = spec_decode_type(s, j2, dc);
                    if rk is Ok {
                        lemma_sound_type(s, rk->Ok_0.1, dc);
                        let rv = spec_decode_type(s, rk->Ok_0.1, dc);
                        if rv is Ok {
                            lemma_sound_pair_seq(s, rv->Ok_0.1, rm->Ok_0.0 as nat, dc);
                        }
                    }
                },
                H4::Tuple => {
                    let rm = spec_read_magnitude(s, j, l4);
                    lemma_sound_value_seq(s, rm->Ok_0.1, rm->Ok_0.0 as nat, dc);
                },
                H4::CEnum => {
                    let rm = spec_read_magnitude(s, j, l4);
                    lemma_sound_typeid(s, rm->Ok_0.1);
                },
                H4::Enum => {
                    let rm = spec_read_magnitude(s, j, l4);
                    lemma_sound_typeid(s, rm->Ok_0.1);
                    let ri = spec_decode_type_id(s, rm->Ok_0.1);
                    if ri is Ok {
                        lemma_sound_value(s, ri->Ok_0.1, dc);
                    }
                },
                H4::Struct => {
                    let rm = spec_read_magnitude(s, j, l4);
                    lemma_sound_typeid(s, rm->Ok_0.1);
                    let ri = spec_decode_type_id(s, rm->Ok_0.1);
                    if ri is Ok {
                        lemma_sound_value_seq(s, ri->Ok_0.1, rm->Ok_0.0 as nat, dc);
                    }
                },
                _ => {},
            },
            Option::None => {},
        }
    }
}

/// What follows a marker that parses is well formed, fits a budget one
/// above the children's, and ends within the input.
proof fn lemma_sound_marker(s: Seq<u8>, j: int, m: Ext1, dm: nat)
    requires
        0 <= j <= s.len(),
    ensures
        crate::wire::spec_decode_marker(s, j, m, dm) matches Ok(p) ==> value_wf(p.0)
            && value_depth(p.0) <= dm + 1 && j <= p.1 <= s.len(),
    decreases dm, 2nat, 0nat,
{
    let r = crate::wire::spec_decode_marker(s, j, m, dm);
    if r is Ok {
        match m {
            Ext1::Absent => {
                lemma_sound_type(s, j, dm);
            },
            Ext1::Present => {
                lemma_sound_type(s, j, dm);
                let rt = spec_decode_type(s, j, dm);
                if rt is Ok {
                    lemma_sound_value(s, rt->Ok_0.1, dm);
                }
            },
            Ext1::Alias => {
                lemma_sound_typeid(s, j);
                let ri = spec_decode_type_id(s, j);
                if ri is Ok {
                    lemma_sound_value(s, ri->Ok_0.1, dm);
                }
            },
            Ext1::Type => {
                lemma_sound_type(s, j, dm);
            },
            Ext1::TypeId => {
                lemma_sound_typeid(s, j);
            },
            _ => {},
        }
    }
}

/// A sequence of values that parses has the asked-for length, is well
/// formed throughout, fits the budget, and ends within the input.
proof fn lemma_sound_value_seq(s: Seq<u8>, i: int, n: nat, d: nat)
    requires
        0 <= i <= s.len(),
    ensures
        crate::wire::spec_decode_value_seq(s, i, n, d) matches Ok(p) ==> p.0.len() == n
            && value_seq_wf(p.0) && value_seq_depth(p.0) <= d && i <= p.1 <= s.len(),
    decreases d, 1nat, n,
{
    let r = crate::wire::spec_decode_value_seq(s, i, n, d);
    if r is Ok && n > 0 {
        let r1 = crate::wire::spec_decode_value(s, i, d);
        lemma_sound_value(s, i, d);
        let j = r1->Ok_0.1;
        lemma_sound_value_seq(s, j, (n - 1) as nat, d);
        let r2 = crate::wire::spec_decode_value_seq(s, j, (n - 1) as nat, d);
        let whole = seq![r1->Ok_0.0] + r2->Ok_0.0;
        crate::model::lemma_value_seq_wf_char(r2->Ok_0.0);
        crate::model::lemma_value_seq_wf_char(whole);
        crate::model::lemma_value_seq_depth_le(r2->Ok_0.0, d);
        crate::model::lemma_value_seq_depth_le(whole, d);
        assert(whole[0] == r1->Ok_0.0);
        assert(forall|k: int| 1 <= k < whole.len() ==> #[trigger] whole[k] == r2->Ok_0.0[k - 1]);
    }
}

/// A pair sequence that parses has the asked-for length, is well formed
/// throughout, fits the budget, and ends within the input.
proof fn lemma_sound_pair_seq(s: Seq<u8>, i: int, n: nat, d: nat)
    requires
        0 <= i <= s.len(),
    ensures
        crate::wire::spec_decode_pair_seq(s, i, n, d) matches Ok(p) ==> p.0.len() == n
            && value_pair_seq_wf(p.0) && value_pair_seq_depth(p.0) <= d && i <= p.1 <= s.len(),
    decreases d, 1nat, n,
{
    let r = crate::wire::spec_decode_pair_seq(s, i, n, d);
    if r is Ok && n > 0 {
        let r1 = crate::wire::spec_decode_value(s, i, d);
        lemma_sound_value(s, i, d);
        let j1 = r1->Ok_0.1;
        lemma_sound_value(s, j1, d);
        let r2 = crate::wire::spec_decode_value(s, j1, d);
        let j2 = r2->Ok_0.1;
        lemma_sound_pair_seq(s, j2, (n - 1) as nat, d);
        let r3 = crate::wire::spec_decode_pair_seq(s, j2, (n - 1) as nat, d);
        let whole = seq![(r1->Ok_0.0, r2->Ok_0.0)] + r3->Ok_0.0;
        crate::model::lemma_value_pair_seq_wf_char(r3->Ok_0.0);
        crate::model::lemma_value_pair_seq_wf_char(whole);
        crate::model::lemma_value_pair_seq_depth_le(r3->Ok_0.0, d);
        crate::model::lemma_value_pair_seq_depth_le(whole, d);
        assert(whole[0] == (r1->Ok_0.0, r2->Ok_0.0));
        assert(forall|k: int| 1 <= k < whole.len() ==> #[trigger] whole[k] == r3->Ok_0.0[k - 1]);
    }
}

/// Soundness: whatever a whole-input decode accepts is itself encodable —
/// well formed and within the nesting budget — so it can be handed back
/// to the encoder.
pub proof fn lemma_decode_sound(s: Seq<u8>)
    ensures
        crate::wire::spec_decode_whole(s) matches Ok(v) ==> crate::model::encodable(v),
{
    lemma_sound_value(s, 0, crate::wire::spec_max_depth());
}

/// Round trip: decoding the encoding of any encodable value — well
/// formed and within the decoder's nesting budget — yields the value
/// back, with every byte consumed.
pub proof fn lemma_round_trip(v: ValueView)
    requires
        crate::model::encodable(v),
    ensures
        crate::wire::spec_decode_whole(spec_encode_value(v)) == Ok::<ValueView, (Error, int)>(v),
{
    let enc = spec_encode_value(v);
    assert(enc.subrange(0, enc.len() as int) =~= enc);
    lemma_decode_encode_value(v, enc, 0, crate::wire::spec_max_depth());
}

/// Truncation safety: cutting the encoding of any encodable value at any
/// byte boundary strictly before its end makes whole-input decoding fail
/// with a truncation error — never yield a spuriously valid short value.
pub proof fn lemma_truncation_fails(v: ValueView, c: int)
    requires
        crate::model::encodable(v),
        0 <= c < spec_encode_value(v).len(),
    ensures
        crate::wire::spec_decode_whole(spec_encode_value(v).take(c)) matches Err(p) && p.0
            == Error::Truncated,
{
    let enc = spec_encode_value(v);
    let s = enc.take(c);
    assert(forall|j: int| 0 <= j < s.len() - 0 ==> s[0 + j] == enc[j]);
    lemma_cut_value(v, s, 0, crate::wire::spec_max_depth());
}

/// Streaming: two encodings laid back-to-back parse one after the other —
/// the first parse ends exactly where the first encoding does, and the
/// second picks up there and recovers the second value.
pub proof fn lemma_streaming(v1: ValueView, v2: ValueView)
    requires
        crate::model::encodable(v1),
        crate::model::encodable(v2),
    ensures
        ({
            let e1 = spec_encode_value(v1);
            let e2 = spec_encode_value(v2);
            let cat = e1 + e2;
            &&& crate::wire::spec_decode_value(cat, 0, crate::wire::spec_max_depth()) == Ok::<
                (ValueView, int),
                (Error, int),
            >((v1, e1.len() as int))
            &&& cat.subrange(e1.len() as int, cat.len() as int) == e2
            &&& crate::wire::spec_decode_value(cat, e1.len() as int, crate::wire::spec_max_depth())
                == Ok::<(ValueView, int), (Error, int)>((v2, cat.len() as int))
        }),
{
    let e1 = spec_encode_value(v1);
    let e2 = spec_encode_value(v2);
    let cat = e1 + e2;
    assert(cat.subrange(0, e1.len() as int) =~= e1);
    lemma_decode_encode_value(v1, cat, 0, crate::wire::spec_max_depth());
    assert(cat.subrange(e1.len() as int, cat.len() as int) =~= e2);
    lemma_decode_encode_value(v2, cat, e1.len() as int, crate::wire::spec_max_depth());
}

/// Self-description: an absent option, an empty list and an empty
/// mapping still carry their element types on the wire, and decoding
/// recovers those very types with nothing else present.
pub proof fn lemma_self_description(t: TypeView, tk: TypeView, tv: TypeView)
    requires
        type_wf(t),
        type_wf(tk),
        type_wf(tv),
        type_depth(t) < crate::wire::spec_max_depth(),
        type_depth(tk) < crate::wire::spec_max_depth(),
        type_depth(tv) < crate::wire::spec_max_depth(),
    ensures
        crate::wire::spec_decode_whole(
            spec_encode_value(ValueView::Option(t, Option::None)),
        ) == Ok::<ValueView, (Error, int)>(ValueView::Option(t, Option::None)),
        crate::wire::spec_decode_whole(spec_encode_value(ValueView::List(t, Seq::empty())))
            == Ok::<ValueView, (Error, int)>(ValueView::List(t, Seq::empty())),
        crate::wire::spec_decode_whole(
            spec_encode_value(ValueView::Mapping(tk, tv, Seq::empty())),
        ) == Ok::<ValueView, (Error, int)>(ValueView::Mapping(tk, tv, Seq::empty())),
{
    assert(value_seq_wf(Seq::<ValueView>::empty()));
    assert(value_seq_depth(Seq::<ValueView>::empty()) == 0);
    assert(value_pair_seq_wf(Seq::<(ValueView, ValueView)>::empty()));
    assert(value_pair_seq_depth(Seq::<(ValueView, ValueView)>::empty()) == 0);
    lemma_round_trip(ValueView::Option(t, Option::None));
    lemma_round_trip(ValueView::List(t, Seq::empty()));
    lemma_round_trip(ValueView::Mapping(tk, tv, Seq::empty()));
}

/// Minimality of numeric payloads: after its header byte, an integer
/// travels in the smallest magnitude class — inline, 1, 2, 4 or 8
/// explicit bytes — that holds it, and a floating-point bit pattern
/// keeps exactly its significant prefix: the bytes it drops are zero,
/// and dropping one more would lose a nonzero byte.
pub proof fn lemma_numeric_minimality(v: ValueView)
    requires
        v is Int || v is UInt || v is Float,
    ensures
        (v is Int || v is UInt) ==> ({
            let u = if v is UInt {
                v->UInt_0
            } else {
                spec_zigzag(v->Int_0)
            };
            let payload = spec_encode_value(v).len() - 1;
            &&& (payload == 0 ==> u < EXT8 as u64)
            &&& (payload == 1 ==> EXT8 as u64 <= u <= 0xff)
            &&& (payload == 2 ==> 0xff < u <= 0xffff)
            &&& (payload == 4 ==> 0xffff < u <= 0xffff_ffff)
            &&& (payload == 8 ==> 0xffff_ffff < u)
            &&& (payload == 0 || payload == 1 || payload == 2 || payload == 4 || payload == 8)
        }),
        v is Float ==> ({
            let f = v->Float_0;
            let payload = spec_encode_value(v).len() - 1;
            &&& 1 <= payload <= 8
            &&& (f as int) % pow2_of_8mul((8 - payload) as nat) == 0
            &&& payload > 1 ==> (f as int) % pow2_of_8mul((9 - payload) as nat) != 0
        }),
{
    lemma_pow2_of_8mul_values();
    match v {
        ValueView::Int(x) => {
            let u = spec_zigzag(x);
            if u <= 0xffff {
                lemma_be_bytes_len(u, 2);
            } else if u <= 0xffff_ffff {
                lemma_be_bytes_len(u, 4);
            } else {
                lemma_be_bytes_len(u, 8);
            }
        },
        ValueView::UInt(u) => {
            if u <= 0xffff {
                lemma_be_bytes_len(u, 2);
            } else if u <= 0xffff_ffff {
                lemma_be_bytes_len(u, 4);
            } else {
                lemma_be_bytes_len(u, 8);
            }
        },
        ValueView::Float(f) => {
            let len = spec_float_len(f);
            lemma_float_len_props(f);
            lemma_be_bytes_len(f, 8);
            assert(spec_encode_value(v).len() - 1 == len);
            if len > 1 {
                assert(spec_be_bytes(f, 8)[len - 1] != 0);
                lemma_be_bytes_index(f, 8, len - 1);
                let p = pow2_of_8mul((8 - len) as nat);
                lemma_pow2_of_8mul_pos((8 - len) as nat);
                assert(((f as int) / p) % 256 != 0);
                lemma_mod_breakdown(f as int, p, 256);
                assert((f as int) % (p * 256) == p * (((f as int) / p) % 256) + (f as int) % p);
                assert(p * (((f as int) / p) % 256) > 0) by (nonlinear_arith)
                    requires
                        p > 0 && ((f as int) / p) % 256 > 0,
                ;
                assert(pow2_of_8mul((9 - len) as nat) == 256 * p);
            }
        },
        _ => {},
    }
}

} // verus!
