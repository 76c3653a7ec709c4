//! The value writer: a single-pass, depth-first serializer.
//!
//! Every variable-length quantity — a blob length, an element count, an
//! enum variant id — is known before its bytes are emitted, so each
//! method simply appends a header and then the payload.  Each method is
//! proved to append exactly what the corresponding specification in
//! [`crate::wire`] says.

use vstd::prelude::*;
use vstd::string::StrSliceExecFns;
use crate::casting::{
    bytevar_flen,
    bytevar_frange,
    from_h4l4,
    spec_header,
    Ext1,
    H4,
    EXT16,
    EXT32,
    EXT64,
    EXT8,
};
use crate::model::{
    lemma_type_seq_wf_index,
    lemma_value_pair_seq_wf_index,
    lemma_value_seq_wf_index,
    type_id_wf,
    type_seq_view,
    type_seq_view_props,
    type_view,
    type_wf,
    value_pair_seq_view,
    value_pair_seq_view_props,
    value_seq_view,
    value_seq_view_props,
    value_view,
    value_wf,
};
use crate::wire::{
    lemma_encode_pair_seq_push,
    lemma_encode_type_seq_push,
    lemma_encode_value_seq_push,
    spec_be_bytes,
    spec_encode_pair_seq,
    spec_encode_type,
    spec_encode_type_id,
    spec_encode_type_seq,
    spec_encode_value,
    spec_encode_value_seq,
    spec_magnitude,
    spec_marker_byte,
    TYPE_ID_ANONYMOUS,
    TYPE_ID_HASH,
};
use crate::{Type, TypeId, Value};

verus! {

/// Accumulates the bytes of one encoding.
struct Writer {
    bytes: Vec<u8>,
}

impl Writer {
    fn new() -> (w: Writer)
        ensures
            w.bytes@ == Seq::<u8>::empty(),
    {
        Writer { bytes: Vec::new() }
    }

    fn into_bytes(self) -> (r: Vec<u8>)
        ensures
            r@ == self.bytes@,
    {
        self.bytes
    }

    /// Appends one byte.
    fn u8(&mut self, n: u8)
        ensures
            final(self).bytes@ == old(self).bytes@ + seq![n],
    {
        self.bytes.push(n);
        proof {
            assert(self.bytes@ =~= old(self).bytes@ + seq![n]);
        }
    }

    /// Appends a whole byte vector.
    fn extend(&mut self, b: &Vec<u8>)
        ensures
            final(self).bytes@ == old(self).bytes@ + b@,
    {
        let ghost start = self.bytes@;
        let mut i: usize = 0;
        while i < b.len()
            invariant
                i <= b.len(),
                self.bytes@ == start + b@.take(i as int),
            decreases b.len() - i,
        {
            self.u8(b[i]);
            proof {
                assert(start + b@.take(i as int) + seq![b@[i as int]] =~= start + b@.take(
                    i as int + 1,
                ));
            }
            i = i + 1;
        }
        proof {
            assert(b@.take(b.len() as int) =~= b@);
        }
    }

    /// Appends one header byte.
    fn header(&mut self, h4: H4, l4: u8)
        requires
            l4 < 16,
        ensures
            final(self).bytes@ == old(self).bytes@ + seq![spec_header(h4, l4)],
    {
        let n = from_h4l4(h4, l4);
        self.u8(n);
    }

    /// Appends the header byte of an extension marker.
    fn ext1(&mut self, m: Ext1)
        ensures
            final(self).bytes@ == old(self).bytes@ + seq![spec_marker_byte(m)],
    {
        self.header(H4::Ext1, m.marker());
    }

    /// Appends a magnitude under kind `h4`, in the smallest class that
    /// holds it: inline, or a sentinel and 1, 2, 4 or 8 explicit bytes.
    fn extvar(&mut self, h4: H4, u: u64)
        ensures
            final(self).bytes@ == old(self).bytes@ + spec_magnitude(h4, u),
    {
        if u < EXT8 as u64 {
            self.header(h4, u as u8);
        } else if u <= 0xff {
            self.header(h4, EXT8);
            self.u8(u as u8);
            proof {
                assert(old(self).bytes@ + seq![spec_header(h4, EXT8)] + seq![u as u8] =~= old(
                    self,
                ).bytes@ + spec_magnitude(h4, u));
            }
        } else if u <= 0xffff {
            self.header(h4, EXT16);
            let x1 = u / 256;
            self.u8((x1 % 256) as u8);
            self.u8((u % 256) as u8);
            proof {
                reveal_with_fuel(spec_be_bytes, 3);
                assert(seq![((x1 % 256) as u8)] + seq![((u % 256) as u8)] =~= spec_be_bytes(u, 2));
                assert(self.bytes@ =~= old(self).bytes@ + spec_magnitude(h4, u));
            }
        } else if u <= 0xffff_ffff {
            self.header(h4, EXT32);
            let x1 = u / 256;
            let x2 = x1 / 256;
            let x3 = x2 / 256;
            self.u8((x3 % 256) as u8);
            self.u8((x2 % 256) as u8);
            self.u8((x1 % 256) as u8);
            self.u8((u % 256) as u8);
            proof {
                reveal_with_fuel(spec_be_bytes, 5);
                assert(seq![((x3 % 256) as u8)] + seq![((x2 % 256) as u8)] + seq![
                    ((x1 % 256) as u8),
                ] + seq![((u % 256) as u8)] =~= spec_be_bytes(u, 4));
                assert(self.bytes@ =~= old(self).bytes@ + spec_magnitude(h4, u));
            }
        } else {
            self.header(h4, EXT64);
            let x1 = u / 256;
            let x2 = x1 / 256;
            let x3 = x2 / 256;
            let x4 = x3 / 256;
            let x5 = x4 / 256;
            let x6 = x5 / 256;
            let x7 = x6 / 256;
            self.u8((x7 % 256) as u8);
            self.u8((x6 % 256) as u8);
            self.u8((x5 % 256) as u8);
            self.u8((x4 % 256) as u8);
            self.u8((x3 % 256) as u8);
            self.u8((x2 % 256) as u8);
            self.u8((x1 % 256) as u8);
            self.u8((u % 256) as u8);
            proof {
                reveal_with_fuel(spec_be_bytes, 9);
                assert(seq![((x7 % 256) as u8)] + seq![((x6 % 256) as u8)] + seq![
                    ((x5 % 256) as u8),
                ] + seq![((x4 % 256) as u8)] + seq![((x3 % 256) as u8)] + seq![
                    ((x2 % 256) as u8),
                ] + seq![((x1 % 256) as u8)] + seq![((u % 256) as u8)] =~= spec_be_bytes(u, 8));
                assert(self.bytes@ =~= old(self).bytes@ + spec_magnitude(h4, u));
            }
        }
    }

    /// Appends a magnitude that arrives as a platform size.
    fn extszvar(&mut self, h4: H4, sz: usize)
        ensures
            final(self).bytes@ == old(self).bytes@ + spec_magnitude(h4, sz as u64),
    {
        self.extvar(h4, sz as u64);
    }

    /// Appends the encoding of a type id.
    fn typeid(&mut self, id: &TypeId)
        requires
            type_id_wf(id@),
        ensures
            final(self).bytes@ == old(self).bytes@ + spec_encode_type_id(id@),
    {
        match id {
            TypeId::Anonymous => {
                self.u8(TYPE_ID_ANONYMOUS);
            },
            TypeId::Std(s) => {
                let x = s.id as u64;
                let x1 = x / 256;
                self.u8(s.schema);
                self.u8((x1 % 256) as u8);
                self.u8((x % 256) as u8);
                proof {
                    reveal_with_fuel(spec_be_bytes, 3);
                    assert(seq![((x1 % 256) as u8)] + seq![((x % 256) as u8)] =~= spec_be_bytes(
                        x,
                        2,
                    ));
                    assert(self.bytes@ =~= old(self).bytes@ + spec_encode_type_id(id@));
                }
            },
            TypeId::Hash(h) => {
                self.u8(TYPE_ID_HASH);
                let ghost start = self.bytes@;
                let mut i: usize = 0;
                while i < 7
                    invariant
                        i <= 7,
                        h.hash@.len() == 7,
                        self.bytes@ == start + h.hash@.take(i as int),
                    decreases 7 - i,
                {
                    self.u8(h.hash[i]);
                    proof {
                        assert(start + h.hash@.take(i as int) + seq![h.hash@[i as int]] =~= start
                            + h.hash@.take(i as int + 1));
                    }
                    i = i + 1;
                }
                proof {
                    assert(h.hash@.take(7) =~= h.hash@);
                    assert(self.bytes@ =~= old(self).bytes@ + spec_encode_type_id(id@));
                }
            },
        }
    }

    /// Appends the encoding of a type descriptor.
    fn ty(&mut self, t: &Type)
        requires
            type_wf(t@),
        ensures
            final(self).bytes@ == old(self).bytes@ + spec_encode_type(t@),
        decreases *t, 0nat,
    {
        match t {
            Type::Unknown => {
                self.u8(0x00);
            },
            Type::Unit => {
                self.u8(0x01);
            },
            Type::Bool => {
                self.u8(0x02);
            },
            Type::Int => {
                self.u8(0x03);
            },
            Type::UInt => {
                self.u8(0x04);
            },
            Type::Float => {
                self.u8(0x05);
            },
            Type::String => {
                self.u8(0x06);
            },
            Type::Bytes => {
                self.u8(0x07);
            },
            Type::Option(inner) => {
                self.u8(0x08);
                self.ty(inner);
                proof {
                    assert(self.bytes@ =~= old(self).bytes@ + spec_encode_type(t@));
                }
            },
            Type::List(inner) => {
                self.u8(0x09);
                self.ty(inner);
                proof {
                    assert(self.bytes@ =~= old(self).bytes@ + spec_encode_type(t@));
                }
            },
            Type::Mapping(k, v) => {
                self.u8(0x0a);
                self.ty(k);
                self.ty(v);
                proof {
                    assert(self.bytes@ =~= old(self).bytes@ + spec_encode_type(t@));
                }
            },
            Type::Tuple(s) => {
                proof {
                    type_seq_view_props(s@);
                }
                self.u8(0x0b);
                self.u8(s.len() as u8);
                self.ty_seq(s);
                proof {
                    assert(self.bytes@ =~= old(self).bytes@ + spec_encode_type(t@));
                }
            },
            Type::Alias(id) => {
                self.u8(0x0c);
                self.typeid(id);
                proof {
                    assert(self.bytes@ =~= old(self).bytes@ + spec_encode_type(t@));
                }
            },
            Type::CEnum(id) => {
                self.u8(0x0d);
                self.typeid(id);
                proof {
                    assert(self.bytes@ =~= old(self).bytes@ + spec_encode_type(t@));
                }
            },
            Type::Enum(id) => {
                self.u8(0x0e);
                self.typeid(id);
                proof {
                    assert(self.bytes@ =~= old(self).bytes@ + spec_encode_type(t@));
                }
            },
            Type::Struct(id) => {
                self.u8(0x0f);
                self.typeid(id);
                proof {
                    assert(self.bytes@ =~= old(self).bytes@ + spec_encode_type(t@));
                }
            },
            Type::Type => {
                self.u8(0x10);
            },
            Type::TypeId => {
                self.u8(0x11);
            },
        }
    }

    /// Appends the encodings of a sequence of type descriptors, in order.
    fn ty_seq(&mut self, s: &Vec<Type>)
        requires
            crate::model::type_seq_wf(type_seq_view(s@)),
        ensures
            final(self).bytes@ == old(self).bytes@ + spec_encode_type_seq(type_seq_view(s@)),
        decreases s@, 1nat,
    {
        let ghost start = self.bytes@;
        let mut i: usize = 0;
        while i < s.len()
            invariant
                i <= s.len(),
                crate::model::type_seq_wf(type_seq_view(s@)),
                self.bytes@ == start + spec_encode_type_seq(type_seq_view(s@.take(i as int))),
            decreases s.len() - i,
        {
            proof {
                type_seq_view_props(s@);
                lemma_type_seq_wf_index(type_seq_view(s@), i as int);
            }
            self.ty(&s[i]);
            proof {
                assert(s@.take(i as int + 1).drop_last() =~= s@.take(i as int));
                assert(type_seq_view(s@.take(i as int + 1)) == type_seq_view(
                    s@.take(i as int),
                ).push(type_view(s@[i as int])));
                lemma_encode_type_seq_push(
                    type_seq_view(s@.take(i as int)),
                    type_view(s@[i as int]),
                );
            }
            i = i + 1;
        }
        proof {
            assert(s@.take(s.len() as int) =~= s@);
        }
    }

    /// Appends the encoding of a value.
    fn val(&mut self, v: &Value)
        requires
            value_wf(v@),
        ensures
            final(self).bytes@ == old(self).bytes@ + spec_encode_value(v@),
        decreases *v, 0nat,
    {
        match v {
            Value::Unit => {
                self.ext1(Ext1::Unit);
            },
            Value::Bool(b) => {
                if *b {
                    self.ext1(Ext1::True);
                } else {
                    self.ext1(Ext1::False);
                }
            },
            Value::Int(i) => {
                let u = crate::casting::zigzag(*i);
                self.extvar(H4::Int, u);
            },
            Value::UInt(u) => {
                self.extvar(H4::UInt, *u);
            },
            Value::Float(f) => {
                let x = *f;
                let x1 = x / 256;
                let x2 = x1 / 256;
                let x3 = x2 / 256;
                let x4 = x3 / 256;
                let x5 = x4 / 256;
                let x6 = x5 / 256;
                let x7 = x6 / 256;
                let buf: [u8; 8] = [
                    (x7 % 256) as u8,
                    (x6 % 256) as u8,
                    (x5 % 256) as u8,
                    (x4 % 256) as u8,
                    (x3 % 256) as u8,
                    (x2 % 256) as u8,
                    (x1 % 256) as u8,
                    (x % 256) as u8,
                ];
                proof {
                    reveal_with_fuel(spec_be_bytes, 9);
                    assert(buf@ =~= spec_be_bytes(x, 8));
                }
                let len = bytevar_flen(&buf);
                let end = bytevar_frange(len);
                self.header(H4::Float, len as u8);
                let ghost mid = self.bytes@;
                let mut i: usize = 0;
                while i < end
                    invariant
                        i <= end <= 8,
                        buf@ == spec_be_bytes(x, 8),
                        self.bytes@ == mid + buf@.take(i as int),
                    decreases end - i,
                {
                    self.u8(buf[i]);
                    proof {
                        assert(mid + buf@.take(i as int) + seq![buf@[i as int]] =~= mid
                            + buf@.take(i as int + 1));
                    }
                    i = i + 1;
                }
                proof {
                    assert(buf@.take(end as int) =~= spec_be_bytes(x, 8).subrange(
                        0,
                        crate::wire::spec_float_len(x),
                    ));
                    assert(self.bytes@ =~= old(self).bytes@ + spec_encode_value(v@));
                }
            },
            Value::String(s) => {
                let b = s.as_str().as_bytes_vec();
                self.extvar(H4::String, b.len() as u64);
                self.extend(&b);
                proof {
                    assert(self.bytes@ =~= old(self).bytes@ + spec_encode_value(v@));
                }
            },
            Value::Bytes(b) => {
                self.extvar(H4::Bytes, b.len() as u64);
                self.extend(b);
                proof {
                    assert(self.bytes@ =~= old(self).bytes@ + spec_encode_value(v@));
                }
            },
            Value::Option(t, ov) => {
                match &**ov {
                    Option::Some(inner) => {
                        self.ext1(Ext1::Present);
                        self.ty(t);
                        self.val(inner);
                    },
                    Option::None => {
                        self.ext1(Ext1::Absent);
                        self.ty(t);
                    },
                }
                proof {
                    assert(self.bytes@ =~= old(self).bytes@ + spec_encode_value(v@));
                }
            },
            Value::List(t, s) => {
                proof {
                    value_seq_view_props(s@);
                }
                self.extszvar(H4::List, s.len());
                self.ty(t);
                self.val_seq(s);
                proof {
                    assert(self.bytes@ =~= old(self).bytes@ + spec_encode_value(v@));
                }
            },
            Value::Mapping(tk, tv, s) => {
                proof {
                    value_pair_seq_view_props(s@);
                }
                self.extszvar(H4::Mapping, s.len());
                self.ty(tk);
                self.ty(tv);
                self.val_seq_map(s);
                proof {
                    assert(self.bytes@ =~= old(self).bytes@ + spec_encode_value(v@));
                }
            },
            Value::Tuple(s) => {
                proof {
                    value_seq_view_props(s@);
                }
                self.extszvar(H4::Tuple, s.len());
                self.val_seq(s);
                proof {
                    assert(self.bytes@ =~= old(self).bytes@ + spec_encode_value(v@));
                }
            },
            Value::Alias(id, inner) => {
                self.ext1(Ext1::Alias);
                self.typeid(id);
                self.val(inner);
                proof {
                    assert(self.bytes@ =~= old(self).bytes@ + spec_encode_value(v@));
                }
            },
            Value::CEnum(id, ev) => {
                self.extvar(H4::CEnum, *ev);
                self.typeid(id);
                proof {
                    assert(self.bytes@ =~= old(self).bytes@ + spec_encode_value(v@));
                }
            },
            Value::Enum(id, ev, inner) => {
                self.extvar(H4::Enum, *ev);
                self.typeid(id);
                self.val(inner);
                proof {
                    assert(self.bytes@ =~= old(self).bytes@ + spec_encode_value(v@));
                }
            },
            Value::Struct(id, s) => {
                proof {
                    value_seq_view_props(s@);
                }
                self.extszvar(H4::Struct, s.len());
                self.typeid(id);
                self.val_seq(s);
                proof {
                    assert(self.bytes@ =~= old(self).bytes@ + spec_encode_value(v@));
                }
            },
            Value::Type(t) => {
                self.ext1(Ext1::Type);
                self.ty(t);
                proof {
                    assert(self.bytes@ =~= old(self).bytes@ + spec_encode_value(v@));
                }
            },
            Value::TypeId(id) => {
                self.ext1(Ext1::TypeId);
                self.typeid(id);
                proof {
                    assert(self.bytes@ =~= old(self).bytes@ + spec_encode_value(v@));
                }
            },
        }
    }

    /// Appends the encodings of a sequence of values, in order.
    fn val_seq(&mut self, s: &Vec<Value>)
        requires
            crate::model::value_seq_wf(value_seq_view(s@)),
        ensures
            final(self).bytes@ == old(self).bytes@ + spec_encode_value_seq(value_seq_view(s@)),
        decreases s@, 1nat,
    {
        let ghost start = self.bytes@;
        let mut i: usize = 0;
        while i < s.len()
            invariant
                i <= s.len(),
                crate::model::value_seq_wf(value_seq_view(s@)),
                self.bytes@ == start + spec_encode_value_seq(value_seq_view(s@.take(i as int))),
            decreases s.len() - i,
        {
            proof {
                value_seq_view_props(s@);
                lemma_value_seq_wf_index(value_seq_view(s@), i as int);
            }
            self.val(&s[i]);
            proof {
                assert(s@.take(i as int + 1).drop_last() =~= s@.take(i as int));
                assert(value_seq_view(s@.take(i as int + 1)) == value_seq_view(
                    s@.take(i as int),
                ).push(value_view(s@[i as int])));
                lemma_encode_value_seq_push(
                    value_seq_view(s@.take(i as int)),
                    value_view(s@[i as int]),
                );
            }
            i = i + 1;
        }
        proof {
            assert(s@.take(s.len() as int) =~= s@);
        }
    }

    /// Appends the encodings of a sequence of key-value pairs, keys and
    /// values interleaved, in order.
    fn val_seq_map(&mut self, s: &Vec<(Value, Value)>)
        requires
            crate::model::value_pair_seq_wf(value_pair_seq_view(s@)),
        ensures
            final(self).bytes@ == old(self).bytes@ + spec_encode_pair_seq(value_pair_seq_view(s@)),
        decreases s@, 1nat,
    {
        let ghost start = self.bytes@;
        let mut i: usize = 0;
        while i < s.len()
            invariant
                i <= s.len(),
                crate::model::value_pair_seq_wf(value_pair_seq_view(s@)),
                self.bytes@ == start + spec_encode_pair_seq(
                    value_pair_seq_view(s@.take(i as int)),
                ),
            decreases s.len() - i,
        {
            proof {
                value_pair_seq_view_props(s@);
                lemma_value_pair_seq_wf_index(value_pair_seq_view(s@), i as int);
            }
            self.val(&s[i].0);
            self.val(&s[i].1);
            proof {
                assert(s@.take(i as int + 1).drop_last() =~= s@.take(i as int));
                assert(value_pair_seq_view(s@.take(i as int + 1)) == value_pair_seq_view(
                    s@.take(i as int),
                ).push((value_view(s@[i as int].0), value_view(s@[i as int].1))));
                lemma_encode_pair_seq_push(
                    value_pair_seq_view(s@.take(i as int)),
                    (value_view(s@[i as int].0), value_view(s@[i as int].1)),
                );
                assert(self.bytes@ =~= start + spec_encode_pair_seq(
                    value_pair_seq_view(s@.take(i as int + 1)),
                ));
            }
            i = i + 1;
        }
        proof {
            assert(s@.take(s.len() as int) =~= s@);
        }
    }
}

impl Value {
    /// Encodes this value as one complete byte sequence: exactly
    /// [`spec_encode_value`] of its model.
    pub fn encode(&self) -> (r: Vec<u8>)
        requires
            value_wf(self@),
        ensures
            r@ == spec_encode_value(self@),
    {
        let mut writer = Writer::new();
        writer.val(self);
        writer.into_bytes()
    }
}

} // verus!
