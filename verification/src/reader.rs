//! The value reader: a validating, recursive-descent parser.
//!
//! A [`Reader`] is a cursor over the input.  Every fixed-size read fails
//! with a truncation error when fewer bytes remain than it needs; every
//! header byte outside the dispatch table fails with a tag error; nesting
//! beyond the depth budget fails rather than recursing on.  Each method
//! is proved to behave exactly as the corresponding specification in
//! [`crate::wire`] says.

use vstd::prelude::*;
use crate::casting::{ext1_of_marker, to_h4l4, unzigzag, Ext1, H4, EXT16, EXT32, EXT64, EXT8};
use crate::model::{type_seq_view, value_pair_seq_view, value_seq_view};
use crate::wire::{
    lemma_pow2_of_8mul_values,
    lemma_read_be_bound,
    pow2_of_8mul,
    spec_decode_type_id,
    spec_read_be,
    spec_read_magnitude,
    TYPE_ID_ANONYMOUS,
    TYPE_ID_HASH,
};
use crate::{Error, FullError, HashId, StdId, Type, TypeId, Value};

verus! {

/// The scale does not shrink as the byte count grows.
proof fn lemma_pow2_of_8mul_mono(a: nat, b: nat)
    requires
        a <= b,
    ensures
        pow2_of_8mul(a) <= pow2_of_8mul(b),
    decreases b,
{
    if a < b {
        lemma_pow2_of_8mul_mono(a, (b - 1) as nat);
        crate::wire::lemma_pow2_of_8mul_pos((b - 1) as nat);
    }
}

/// A cursor over one input buffer.
pub struct Reader<'a> {
    pub buf: &'a Vec<u8>,
    pub pos: usize,
}

impl<'a> Reader<'a> {
    /// The whole input under the cursor.
    pub open spec fn input(self) -> Seq<u8> {
        self.buf@
    }

    /// Position of the next unread byte.
    pub open spec fn position(self) -> int {
        self.pos as int
    }

    /// The cursor never passes the end of the input.
    pub open spec fn wf(self) -> bool {
        self.pos <= self.buf@.len()
    }

    /// A fresh cursor at the start of `buf`.
    pub fn new(buf: &'a Vec<u8>) -> (r: Reader<'a>)
        ensures
            r.wf(),
            r.input() == buf@,
            r.position() == 0,
    {
        Reader { buf, pos: 0 }
    }

    /// The current position, as a count of consumed bytes.
    pub fn consumed(&self) -> (r: usize)
        ensures
            r == self.position(),
    {
        self.pos
    }

    /// Reads one byte, or fails with a truncation error at the end of the
    /// input.
    pub fn byte(&mut self) -> (r: Result<u8, Error>)
        requires
            old(self).wf(),
        ensures
            final(self).wf(),
            final(self).input() == old(self).input(),
            match r {
                Ok(b) => old(self).position() < old(self).input().len() && b == old(
                    self,
                ).input()[old(self).position()] && final(self).position() == old(self).position()
                    + 1,
                Err(e) => e == Error::Truncated && old(self).position() == old(
                    self,
                ).input().len() && final(self).position() == old(self).position(),
            },
    {
        if self.pos < self.buf.len() {
            let b = self.buf[self.pos];
            self.pos = self.pos + 1;
            Ok(b)
        } else {
            Err(Error::Truncated)
        }
    }

    /// Reads `n` big-endian bytes as one unsigned integer, or fails with
    /// a truncation error, consuming nothing.
    fn read_be(&mut self, n: usize) -> (r: Result<u64, Error>)
        requires
            old(self).wf(),
            1 <= n <= 8,
        ensures
            final(self).wf(),
            final(self).input() == old(self).input(),
            match r {
                Ok(x) => old(self).position() + n <= old(self).input().len() && x == spec_read_be(
                    old(self).input(),
                    old(self).position(),
                    n as nat,
                ) && final(self).position() == old(self).position() + n,
                Err(e) => e == Error::Truncated && old(self).position() + n > old(
                    self,
                ).input().len() && final(self).position() == old(self).position(),
            },
    {
        if self.buf.len() - self.pos < n {
            return Err(Error::Truncated);
        }
        let mut acc: u64 = 0;
        let mut i: usize = 0;
        while i < n
            invariant
                i <= n <= 8,
                self.wf(),
                self.pos + n <= self.buf@.len(),
                self.buf@.len() <= usize::MAX,
                acc as int == spec_read_be(self.buf@, self.pos as int, i as nat),
            decreases n - i,
        {
            proof {
                lemma_read_be_bound(self.buf@, self.pos as int, i as nat);
                lemma_pow2_of_8mul_mono(i as nat, 7);
                lemma_pow2_of_8mul_values();
            }
            acc = acc * 256 + (self.buf[self.pos + i] as u64);
            i = i + 1;
        }
        self.pos = self.pos + n;
        Ok(acc)
    }

    /// Reads the magnitude announced by modifier `l4`: the modifier
    /// itself when inline, else its explicit big-endian tail.
    fn magnitude(&mut self, l4: u8) -> (r: Result<u64, Error>)
        requires
            old(self).wf(),
            l4 < 16,
        ensures
            final(self).wf(),
            final(self).input() == old(self).input(),
            old(self).position() <= final(self).position(),
            match r {
                Ok(u) => spec_read_magnitude(old(self).input(), old(self).position(), l4)
                    == Ok::<(u64, int), (Error, int)>((u, final(self).position())),
                Err(e) => spec_read_magnitude(old(self).input(), old(self).position(), l4)
                    == Err::<(u64, int), (Error, int)>((e, final(self).position())),
            },
    {
        if l4 < EXT8 {
            return Ok(l4 as u64);
        }
        let n: usize = if l4 == EXT8 {
            1
        } else if l4 == EXT16 {
            2
        } else if l4 == EXT32 {
            4
        } else {
            8
        };
        match self.read_be(n) {
            Ok(x) => {
                proof {
                    lemma_read_be_bound(old(self).input(), old(self).position(), n as nat);
                    lemma_pow2_of_8mul_mono(n as nat, 8);
                    lemma_pow2_of_8mul_values();
                }
                Ok(x)
            },
            Err(e) => Err(e),
        }
    }

    /// Reads a type id: the selector byte, then nothing, a 2-byte type
    /// number, or seven hash bytes.
    pub fn typeid(&mut self) -> (r: Result<TypeId, Error>)
        requires
            old(self).wf(),
        ensures
            final(self).wf(),
            final(self).input() == old(self).input(),
            old(self).position() <= final(self).position(),
            match r {
                Ok(id) => spec_decode_type_id(old(self).input(), old(self).position())
                    == Ok::<(crate::model::TypeIdView, int), (Error, int)>(
                    (id@, final(self).position()),
                ),
                Err(e) => spec_decode_type_id(old(self).input(), old(self).position())
                    == Err::<(crate::model::TypeIdView, int), (Error, int)>(
                    (e, final(self).position()),
                ),
            },
    {
        let sel = match self.byte() {
            Ok(b) => b,
            Err(e) => {
                return Err(e);
            },
        };
        if sel == TYPE_ID_ANONYMOUS {
            Ok(TypeId::Anonymous)
        } else if sel == TYPE_ID_HASH {
            if self.buf.len() - self.pos < 7 {
                return Err(Error::Truncated);
            }
            let h: [u8; 7] = [
                self.buf[self.pos],
                self.buf[self.pos + 1],
                self.buf[self.pos + 2],
                self.buf[self.pos + 3],
                self.buf[self.pos + 4],
                self.buf[self.pos + 5],
                self.buf[self.pos + 6],
            ];
            self.pos = self.pos + 7;
            proof {
                assert(h@ =~= old(self).input().subrange(
                    old(self).position() + 1,
                    old(self).position() + 8,
                ));
            }
            Ok(TypeId::Hash(HashId { hash: h }))
        } else {
            match self.read_be(2) {
                Ok(x) => {
                    proof {
                        lemma_read_be_bound(old(self).input(), old(self).position() + 1, 2);
                        lemma_pow2_of_8mul_values();
                    }
                    Ok(TypeId::Std(StdId { schema: sel, id: x as u16 }))
                },
                Err(e) => Err(e),
            }
        }
    }

    /// Reads a type descriptor, spending one unit of `depth` and handing
    /// `depth - 1` to every child read.
    pub fn ty(&mut self, depth: u64) -> (r: Result<Type, Error>)
        requires
            old(self).wf(),
        ensures
            final(self).wf(),
            final(self).input() == old(self).input(),
            old(self).position() <= final(self).position(),
            match r {
                Ok(t) => crate::wire::spec_decode_type(
                    old(self).input(),
                    old(self).position(),
                    depth as nat,
                ) == Ok::<(crate::model::TypeView, int), (Error, int)>(
                    (t@, final(self).position()),
                ),
                Err(e) => crate::wire::spec_decode_type(
                    old(self).input(),
                    old(self).position(),
                    depth as nat,
                ) == Err::<(crate::model::TypeView, int), (Error, int)>(
                    (e, final(self).position()),
                ),
            },
        decreases depth, 0int,
    {
        if depth == 0 {
            return Err(Error::DepthLimit);
        }
        let tag = match self.byte() {
            Ok(b) => b,
            Err(e) => {
                return Err(e);
            },
        };
        match tag {
            0x00 => Ok(Type::Unknown),
            0x01 => Ok(Type::Unit),
            0x02 => Ok(Type::Bool),
            0x03 => Ok(Type::Int),
            0x04 => Ok(Type::UInt),
            0x05 => Ok(Type::Float),
            0x06 => Ok(Type::String),
            0x07 => Ok(Type::Bytes),
            0x08 => match self.ty(depth - 1) {
                Ok(inner) => Ok(Type::Option(Box::new(inner))),
                Err(e) => Err(e),
            },
            0x09 => match self.ty(depth - 1) {
                Ok(inner) => Ok(Type::List(Box::new(inner))),
                Err(e) => Err(e),
            },
            0x0a => match self.ty(depth - 1) {
                Ok(k) => match self.ty(depth - 1) {
                    Ok(v) => Ok(Type::Mapping(Box::new(k), Box::new(v))),
                    Err(e) => Err(e),
                },
                Err(e) => Err(e),
            },
            0x0b => {
                let n = match self.byte() {
                    Ok(b) => b,
                    Err(e) => {
                        return Err(e);
                    },
                };
                match self.ty_seq(n as usize, depth - 1) {
                    Ok(ts) => Ok(Type::Tuple(ts)),
                    Err(e) => Err(e),
                }
            },
            0x0c => match self.typeid() {
                Ok(id) => Ok(Type::Alias(id)),
                Err(e) => Err(e),
            },
            0x0d => match self.typeid() {
                Ok(id) => Ok(Type::CEnum(id)),
                Err(e) => Err(e),
            },
            0x0e => match self.typeid() {
                Ok(id) => Ok(Type::Enum(id)),
                Err(e) => Err(e),
            },
            0x0f => match self.typeid() {
                Ok(id) => Ok(Type::Struct(id)),
                Err(e) => Err(e),
            },
            0x10 => Ok(Type::Type),
            0x11 => Ok(Type::TypeId),
            _ => Err(Error::TypeTag(tag)),
        }
    }

    /// Reads `n` type descriptors one after another.
    fn ty_seq(&mut self, n: usize, depth: u64) -> (r: Result<Vec<Type>, Error>)
        requires
            old(self).wf(),
        ensures
            final(self).wf(),
            final(self).input() == old(self).input(),
            old(self).position() <= final(self).position(),
            match r {
                Ok(ts) => crate::wire::spec_decode_type_seq(
                    old(self).input(),
                    old(self).position(),
                    n as nat,
                    depth as nat,
                ) == Ok::<(Seq<crate::model::TypeView>, int), (Error, int)>(
                    (type_seq_view(ts@), final(self).position()),
                ),
                Err(e) => crate::wire::spec_decode_type_seq(
                    old(self).input(),
                    old(self).position(),
                    n as nat,
                    depth as nat,
                ) == Err::<(Seq<crate::model::TypeView>, int), (Error, int)>(
                    (e, final(self).position()),
                ),
            },
        decreases depth, 1int,
    {
        let mut acc: Vec<Type> = Vec::new();
        let mut k: usize = 0;
        proof {
            let r0 = crate::wire::spec_decode_type_seq(
                self.input(),
                self.position(),
                n as nat,
                depth as nat,
            );
            match r0 {
                Ok(p) => {
                    assert(type_seq_view(acc@) + p.0 =~= p.0);
                },
                Err(_) => {},
            }
        }
        while k < n
            invariant
                k <= n,
                self.wf(),
                self.input() == old(self).input(),
                old(self).position() <= self.position(),
                acc@.len() == k,
                ({
                    let total = crate::wire::spec_decode_type_seq(
                        old(self).input(),
                        old(self).position(),
                        n as nat,
                        depth as nat,
                    );
                    match crate::wire::spec_decode_type_seq(
                        self.input(),
                        self.position(),
                        (n - k) as nat,
                        depth as nat,
                    ) {
                        Ok(p) => total == Ok::<(Seq<crate::model::TypeView>, int), (Error, int)>(
                            (type_seq_view(acc@) + p.0, p.1),
                        ),
                        Err(e) => total == Err::<(Seq<crate::model::TypeView>, int), (Error, int)>(
                            e,
                        ),
                    }
                }),
            decreases n - k,
        {
            let ghost pre_pos = self.position();
            match self.ty(depth) {
                Ok(t) => {
                    let ghost prev = acc@;
                    acc.push(t);
                    k = k + 1;
                    proof {
                        assert(acc@.drop_last() =~= prev);
                        assert(acc@.last() == t);
                        let r2 = crate::wire::spec_decode_type_seq(
                            self.input(),
                            self.position(),
                            (n - k) as nat,
                            depth as nat,
                        );
                        match r2 {
                            Ok(p) => {
                                assert(type_seq_view(prev) + (seq![t@] + p.0) =~= type_seq_view(
                                    acc@,
                                ) + p.0);
                            },
                            Err(_) => {},
                        }
                    }
                },
                Err(e) => {
                    return Err(e);
                },
            }
        }
        proof {
            assert(type_seq_view(acc@) + Seq::<crate::model::TypeView>::empty() =~= type_seq_view(
                acc@,
            ));
        }
        Ok(acc)
    }

    /// Reads `n` raw bytes, or fails with a truncation error, consuming
    /// nothing.
    pub fn bytes(&mut self, n: usize) -> (r: Result<Vec<u8>, Error>)
        requires
            old(self).wf(),
        ensures
            final(self).wf(),
            final(self).input() == old(self).input(),
            old(self).position() <= final(self).position(),
            match r {
                Ok(b) => {
                    &&& old(self).position() + n <= old(self).input().len()
                    &&& b@ == old(self).input().subrange(
                        old(self).position(),
                        old(self).position() + n,
                    )
                    &&& final(self).position() == old(self).position() + n
                },
                Err(e) => {
                    &&& e == Error::Truncated
                    &&& old(self).position() + n > old(self).input().len()
                    &&& final(self).position() == old(self).position()
                },
            },
    {
        if self.buf.len() - self.pos < n {
            return Err(Error::Truncated);
        }
        let mut out: Vec<u8> = Vec::new();
        let mut i: usize = 0;
        while i < n
            invariant
                i <= n,
                self.wf(),
                self.pos + n <= self.buf@.len(),
                self.buf@.len() <= usize::MAX,
                out@ == self.buf@.subrange(self.pos as int, self.pos + i),
            decreases n - i,
        {
            out.push(self.buf[self.pos + i]);
            proof {
                assert(out@ =~= self.buf@.subrange(self.pos as int, self.pos + i + 1));
            }
            i = i + 1;
        }
        self.pos = self.pos + n;
        Ok(out)
    }

    /// Reads a value, spending one unit of `depth` and handing
    /// `depth - 1` to every child read.
    #[verifier::rlimit(60)]
    pub fn val(&mut self, depth: u64) -> (r: Result<Value, Error>)
        requires
            old(self).wf(),
        ensures
            final(self).wf(),
            final(self).input() == old(self).input(),
            old(self).position() <= final(self).position(),
            match r {
                Ok(v) => crate::wire::spec_decode_value(
                    old(self).input(),
                    old(self).position(),
                    depth as nat,
                ) == Ok::<(crate::model::ValueView, int), (Error, int)>(
                    (v@, final(self).position()),
                ),
                Err(e) => crate::wire::spec_decode_value(
                    old(self).input(),
                    old(self).position(),
                    depth as nat,
                ) == Err::<(crate::model::ValueView, int), (Error, int)>(
                    (e, final(self).position()),
                ),
            },
        decreases depth, 0int,
    {
        if depth == 0 {
            return Err(Error::DepthLimit);
        }
        let hdr = match self.byte() {
            Ok(b) => b,
            Err(e) => {
                return Err(e);
            },
        };
        let (h4, l4) = match to_h4l4(hdr) {
            Ok(p) => p,
            Err(e) => {
                return Err(e);
            },
        };
        match h4 {
            H4::Ext1 => {
                let m = match ext1_of_marker(l4) {
                    Option::Some(m) => m,
                    Option::None => {
                        return Err(Error::Tag(hdr));
                    },
                };
                self.val_marker(m, depth - 1)
            },
            H4::Int => match self.magnitude(l4) {
                Ok(u) => Ok(Value::Int(unzigzag(u))),
                Err(e) => Err(e),
            },
            H4::UInt => match self.magnitude(l4) {
                Ok(u) => Ok(Value::UInt(u)),
                Err(e) => Err(e),
            },
            H4::Float => {
                if l4 == 0 || l4 > 8 {
                    return Err(Error::Tag(hdr));
                }
                match self.read_be(l4 as usize) {
                    Ok(m) => {
                        proof {
                            lemma_read_be_bound(
                                old(self).input(),
                                old(self).position() + 1,
                                l4 as nat,
                            );
                            crate::wire::lemma_pow2_of_8mul_mul_bound(
                                m as int,
                                l4 as nat,
                                (8 - l4) as nat,
                            );
                            lemma_pow2_of_8mul_values();
                        }
                        Ok(Value::Float(scale_to_high(m, l4)))
                    },
                    Err(e) => Err(e),
                }
            },
            H4::String => {
                let u = match self.magnitude(l4) {
                    Ok(u) => u,
                    Err(e) => {
                        return Err(e);
                    },
                };
                if u > usize::MAX as u64 {
                    return Err(Error::TooLongLen(u));
                }
                match self.bytes(u as usize) {
                    Ok(b) => {
                        let ghost bb = b@;
                        match string_from_utf8(b) {
                            Option::Some(s) => Ok(Value::String(s)),
                            Option::None => Err(Error::Utf8),
                        }
                    },
                    Err(e) => Err(e),
                }
            },
            H4::Bytes => {
                let u = match self.magnitude(l4) {
                    Ok(u) => u,
                    Err(e) => {
                        return Err(e);
                    },
                };
                if u > usize::MAX as u64 {
                    return Err(Error::TooLongLen(u));
                }
                match self.bytes(u as usize) {
                    Ok(b) => Ok(Value::Bytes(b)),
                    Err(e) => Err(e),
                }
            },
            H4::List => {
                let u = match self.magnitude(l4) {
                    Ok(u) => u,
                    Err(e) => {
                        return Err(e);
                    },
                };
                if u > usize::MAX as u64 {
                    return Err(Error::TooLongLen(u));
                }
                let t = match self.ty(depth - 1) {
                    Ok(t) => t,
                    Err(e) => {
                        return Err(e);
                    },
                };
                match self.val_seq(u as usize, depth - 1) {
                    Ok(vs) => Ok(Value::List(t, vs)),
                    Err(e) => Err(e),
                }
            },
            H4::Mapping => {
                let u = match self.magnitude(l4) {
                    Ok(u) => u,
                    Err(e) => {
                        return Err(e);
                    },
                };
                if u > usize::MAX as u64 {
                    return Err(Error::TooLongLen(u));
                }
                let tk = match self.ty(depth - 1) {
                    Ok(t) => t,
                    Err(e) => {
                        return Err(e);
                    },
                };
                let tv = match self.ty(depth - 1) {
                    Ok(t) => t,
                    Err(e) => {
                        return Err(e);
                    },
                };
                match self.val_pairs(u as usize, depth - 1) {
                    Ok(ps) => Ok(Value::Mapping(tk, tv, ps)),
                    Err(e) => Err(e),
                }
            },
            H4::Tuple => {
                let u = match self.magnitude(l4) {
                    Ok(u) => u,
                    Err(e) => {
                        return Err(e);
                    },
                };
                if u > usize::MAX as u64 {
                    return Err(Error::TooLongLen(u));
                }
                match self.val_seq(u as usize, depth - 1) {
                    Ok(vs) => Ok(Value::Tuple(vs)),
                    Err(e) => Err(e),
                }
            },
            H4::CEnum => {
                let ev = match self.magnitude(l4) {
                    Ok(u) => u,
                    Err(e) => {
                        return Err(e);
                    },
                };
                match self.typeid() {
                    Ok(id) => Ok(Value::CEnum(id, ev)),
                    Err(e) => Err(e),
                }
            },
            H4::Enum => {
                let ev = match self.magnitude(l4) {
                    Ok(u) => u,
                    Err(e) => {
                        return Err(e);
                    },
                };
                let id = match self.typeid() {
                    Ok(id) => id,
                    Err(e) => {
                        return Err(e);
                    },
                };
                match self.val(depth - 1) {
                    Ok(v) => Ok(Value::Enum(id, ev, Box::new(v))),
                    Err(e) => Err(e),
                }
            },
            H4::Struct => {
                let u = match self.magnitude(l4) {
                    Ok(u) => u,
                    Err(e) => {
                        return Err(e);
                    },
                };
                if u > usize::MAX as u64 {
                    return Err(Error::TooLongLen(u));
                }
                let id = match self.typeid() {
                    Ok(id) => id,
                    Err(e) => {
                        return Err(e);
                    },
                };
                match self.val_seq(u as usize, depth - 1) {
                    Ok(vs) => Ok(Value::Struct(id, vs)),
                    Err(e) => Err(e),
                }
            },
        }
    }

    /// Reads what follows an extension-marker header byte; `depth` is the
    /// budget handed to each child read.
    fn val_marker(&mut self, m: Ext1, depth: u64) -> (r: Result<Value, Error>)
        requires
            old(self).wf(),
        ensures
            final(self).wf(),
            final(self).input() == old(self).input(),
            old(self).position() <= final(self).position(),
            match r {
                Ok(v) => crate::wire::spec_decode_marker(
                    old(self).input(),
                    old(self).position(),
                    m,
                    depth as nat,
                ) == Ok::<(crate::model::ValueView, int), (Error, int)>(
                    (v@, final(self).position()),
                ),
                Err(e) => crate::wire::spec_decode_marker(
                    old(self).input(),
                    old(self).position(),
                    m,
                    depth as nat,
                ) == Err::<(crate::model::ValueView, int), (Error, int)>(
                    (e, final(self).position()),
                ),
            },
        decreases depth, 2int,
    {
        match m {
            Ext1::Unit => Ok(Value::Unit),
            Ext1::False => Ok(Value::Bool(false)),
            Ext1::True => Ok(Value::Bool(true)),
            Ext1::Absent => match self.ty(depth) {
                Ok(t) => Ok(Value::Option(t, Box::new(Option::None))),
                Err(e) => Err(e),
            },
            Ext1::Present => match self.ty(depth) {
                Ok(t) => match self.val(depth) {
                    Ok(v) => Ok(Value::Option(t, Box::new(Option::Some(v)))),
                    Err(e) => Err(e),
                },
                Err(e) => Err(e),
            },
            Ext1::Alias => match self.typeid() {
                Ok(id) => match self.val(depth) {
                    Ok(v) => Ok(Value::Alias(id, Box::new(v))),
                    Err(e) => Err(e),
                },
                Err(e) => Err(e),
            },
            Ext1::Type => match self.ty(depth) {
                Ok(t) => Ok(Value::Type(t)),
                Err(e) => Err(e),
            },
            Ext1::TypeId => match self.typeid() {
                Ok(id) => Ok(Value::TypeId(id)),
                Err(e) => Err(e),
            },
        }
    }

    /// Reads `n` values one after another.
    fn val_seq(&mut self, n: usize, depth: u64) -> (r: Result<Vec<Value>, Error>)
        requires
            old(self).wf(),
        ensures
            final(self).wf(),
            final(self).input() == old(self).input(),
            old(self).position() <= final(self).position(),
            match r {
                Ok(vs) => crate::wire::spec_decode_value_seq(
                    old(self).input(),
                    old(self).position(),
                    n as nat,
                    depth as nat,
                ) == Ok::<(Seq<crate::model::ValueView>, int), (Error, int)>(
                    (value_seq_view(vs@), final(self).position()),
                ),
                Err(e) => crate::wire::spec_decode_value_seq(
                    old(self).input(),
                    old(self).position(),
                    n as nat,
                    depth as nat,
                ) == Err::<(Seq<crate::model::ValueView>, int), (Error, int)>(
                    (e, final(self).position()),
                ),
            },
        decreases depth, 1int,
    {
        let mut acc: Vec<Value> = Vec::new();
        let mut k: usize = 0;
        proof {
            let r0 = crate::wire::spec_decode_value_seq(
                self.input(),
                self.position(),
                n as nat,
                depth as nat,
            );
            match r0 {
                Ok(p) => {
                    assert(value_seq_view(acc@) + p.0 =~= p.0);
                },
                Err(_) => {},
            }
        }
        while k < n
            invariant
                k <= n,
                self.wf(),
                self.input() == old(self).input(),
                old(self).position() <= self.position(),
                acc@.len() == k,
                ({
                    let total = crate::wire::spec_decode_value_seq(
                        old(self).input(),
                        old(self).position(),
                        n as nat,
                        depth as nat,
                    );
                    match crate::wire::spec_decode_value_seq(
                        self.input(),
                        self.position(),
                        (n - k) as nat,
                        depth as nat,
                    ) {
                        Ok(p) => total == Ok::<
                            (Seq<crate::model::ValueView>, int),
                            (Error, int),
                        >((value_seq_view(acc@) + p.0, p.1)),
                        Err(e) => total == Err::<
                            (Seq<crate::model::ValueView>, int),
                            (Error, int),
                        >(e),
                    }
                }),
            decreases n - k,
        {
            match self.val(depth) {
                Ok(v) => {
                    let ghost prev = acc@;
                    acc.push(v);
                    k = k + 1;
                    proof {
                        assert(acc@.drop_last() =~= prev);
                        assert(acc@.last() == v);
                        let r2 = crate::wire::spec_decode_value_seq(
                            self.input(),
                            self.position(),
                            (n - k) as nat,
                            depth as nat,
                        );
                        match r2 {
                            Ok(p) => {
                                assert(value_seq_view(prev) + (seq![v@] + p.0) =~= value_seq_view(
                                    acc@,
                                ) + p.0);
                            },
                            Err(_) => {},
                        }
                    }
                },
                Err(e) => {
                    return Err(e);
                },
            }
        }
        proof {
            assert(value_seq_view(acc@) + Seq::<crate::model::ValueView>::empty()
                =~= value_seq_view(acc@));
        }
        Ok(acc)
    }

    /// Reads `n` key-value pairs, keys and values interleaved.
    fn val_pairs(&mut self, n: usize, depth: u64) -> (r: Result<Vec<(Value, Value)>, Error>)
        requires
            old(self).wf(),
        ensures
            final(self).wf(),
            final(self).input() == old(self).input(),
            old(self).position() <= final(self).position(),
            match r {
                Ok(ps) => crate::wire::spec_decode_pair_seq(
                    old(self).input(),
                    old(self).position(),
                    n as nat,
                    depth as nat,
                ) == Ok::<
                    (Seq<(crate::model::ValueView, crate::model::ValueView)>, int),
                    (Error, int),
                >((value_pair_seq_view(ps@), final(self).position())),
                Err(e) => crate::wire::spec_decode_pair_seq(
                    old(self).input(),
                    old(self).position(),
                    n as nat,
                    depth as nat,
                ) == Err::<
                    (Seq<(crate::model::ValueView, crate::model::ValueView)>, int),
                    (Error, int),
                >((e, final(self).position())),
            },
        decreases depth, 1int,
    {
        let mut acc: Vec<(Value, Value)> = Vec::new();
        let mut k: usize = 0;
        proof {
            let r0 = crate::wire::spec_decode_pair_seq(
                self.input(),
                self.position(),
                n as nat,
                depth as nat,
            );
            match r0 {
                Ok(p) => {
                    assert(value_pair_seq_view(acc@) + p.0 =~= p.0);
                },
                Err(_) => {},
            }
        }
        while k < n
            invariant
                k <= n,
                self.wf(),
                self.input() == old(self).input(),
                old(self).position() <= self.position(),
                acc@.len() == k,
                ({
                    let total = crate::wire::spec_decode_pair_seq(
                        old(self).input(),
                        old(self).position(),
                        n as nat,
                        depth as nat,
                    );
                    match crate::wire::spec_decode_pair_seq(
                        self.input(),
                        self.position(),
                        (n - k) as nat,
                        depth as nat,
                    ) {
                        Ok(p) => total == Ok::<
                            (Seq<(crate::model::ValueView, crate::model::ValueView)>, int),
                            (Error, int),
                        >((value_pair_seq_view(acc@) + p.0, p.1)),
                        Err(e) => total == Err::<
                            (Seq<(crate::model::ValueView, crate::model::ValueView)>, int),
                            (Error, int),
                        >(e),
                    }
                }),
            decreases n - k,
        {
            let kv = match self.val(depth) {
                Ok(v) => v,
                Err(e) => {
                    return Err(e);
                },
            };
            let vv = match self.val(depth) {
                Ok(v) => v,
                Err(e) => {
                    return Err(e);
                },
            };
            let ghost prev = acc@;
            acc.push((kv, vv));
            k = k + 1;
            proof {
                assert(acc@.drop_last() =~= prev);
                assert(acc@.last() == (kv, vv));
                let r2 = crate::wire::spec_decode_pair_seq(
                    self.input(),
                    self.position(),
                    (n - k) as nat,
                    depth as nat,
                );
                match r2 {
                    Ok(p) => {
                        assert(value_pair_seq_view(prev) + (seq![(kv@, vv@)] + p.0)
                            =~= value_pair_seq_view(acc@) + p.0);
                    },
                    Err(_) => {},
                }
            }
        }
        proof {
            assert(value_pair_seq_view(acc@) + Seq::<
                (crate::model::ValueView, crate::model::ValueView),
            >::empty() =~= value_pair_seq_view(acc@));
        }
        Ok(acc)
    }

    /// Succeeds only when every byte has been consumed; leftover bytes
    /// are an error.
    pub fn finish(&self) -> (r: Result<(), Error>)
        requires
            self.wf(),
        ensures
            r is Ok <==> self.position() == self.input().len(),
            r is Err ==> r == Err::<(), Error>(Error::TrailingBytes),
    {
        if self.pos == self.buf.len() {
            Ok(())
        } else {
            Err(Error::TrailingBytes)
        }
    }

    /// The whole input, copied out, together with the position reached.
    pub fn into_parts(self) -> (r: (Vec<u8>, usize))
        requires
            self.wf(),
        ensures
            r.0@ == self.input(),
            r.1 == self.position(),
    {
        let out = copy_bytes(self.buf);
        (out, self.pos)
    }

    /// The bytes not yet consumed, copied out.
    pub fn into_rest(self) -> (r: Vec<u8>)
        requires
            self.wf(),
        ensures
            r@ == self.input().subrange(self.position(), self.input().len() as int),
    {
        let mut out: Vec<u8> = Vec::new();
        let end = self.buf.len();
        let mut i: usize = self.pos;
        proof {
            assert(out@ =~= self.buf@.subrange(self.pos as int, self.pos as int));
        }
        while i < end
            invariant
                self.pos <= i <= end,
                end == self.buf@.len(),
                out@ == self.buf@.subrange(self.pos as int, i as int),
            decreases end - i,
        {
            out.push(self.buf[i]);
            proof {
                assert(out@ =~= self.buf@.subrange(self.pos as int, i + 1));
            }
            i = i + 1;
        }
        out
    }
}

/// A copy of the bytes, element for element.
fn copy_bytes(b: &Vec<u8>) -> (r: Vec<u8>)
    ensures
        r@ == b@,
{
    let mut out: Vec<u8> = Vec::new();
    let mut i: usize = 0;
    while i < b.len()
        invariant
            i <= b.len(),
            out@ == b@.take(i as int),
        decreases b.len() - i,
    {
        out.push(b[i]);
        proof {
            assert(out@ =~= b@.take(i as int + 1));
        }
        i = i + 1;
    }
    proof {
        assert(b@.take(b.len() as int) =~= b@);
    }
    out
}

impl Value {
    /// Decodes one complete value from the whole input: exactly what
    /// [`crate::wire::spec_decode_whole`] says the bytes mean, with
    /// trailing bytes rejected.  On failure the error carries its kind,
    /// the byte offset at which it was detected — for trailing bytes,
    /// where the value ended — and the input.
    pub fn decode(buf: &Vec<u8>) -> (r: Result<Value, FullError>)
        ensures
            match r {
                Ok(v) => crate::wire::spec_decode_whole(buf@) == Ok::<
                    crate::model::ValueView,
                    (Error, int),
                >(v@) && crate::model::encodable(v@),
                Err(e) => crate::wire::spec_decode_whole(buf@) == Err::<
                    crate::model::ValueView,
                    (Error, int),
                >((e.err, e.pos as int)) && e.buf@ == buf@,
            },
    {
        proof {
            crate::roundtrip::lemma_decode_sound(buf@);
        }
        let mut reader = Reader::new(buf);
        match reader.val(crate::MAX_DEPTH) {
            Ok(v) => {
                match reader.finish() {
                    Ok(u) => Ok(v),
                    Err(err) => {
                        let pos = reader.consumed();
                        Err(FullError { err, buf: copy_bytes(buf), pos })
                    },
                }
            },
            Err(err) => {
                let pos = reader.consumed();
                Err(FullError { err, buf: copy_bytes(buf), pos })
            },
        }
    }

    /// Decodes the first value of the input and hands back the unread
    /// remainder, so a caller can decode a concatenation of values
    /// without an enclosing envelope.  After a failure the remainder is
    /// the suffix at the byte offset where the failure was detected.
    pub fn decode_first_value(buf: &Vec<u8>) -> (r: (Result<Value, Error>, Vec<u8>))
        ensures
            match r.0 {
                Ok(v) => crate::wire::spec_decode_value(buf@, 0, crate::wire::spec_max_depth())
                    matches Ok(p) && p.0 == v@ && p.1 == buf@.len() - r.1@.len() && r.1@
                    == buf@.subrange(p.1, buf@.len() as int) && crate::model::value_wf(v@)
                    && crate::model::value_depth(v@) <= crate::wire::spec_max_depth(),
                Err(e) => crate::wire::spec_decode_value(buf@, 0, crate::wire::spec_max_depth())
                    matches Err(p) && p.0 == e && r.1@ == buf@.subrange(
                    p.1,
                    buf@.len() as int,
                ),
            },
    {
        proof {
            crate::roundtrip::lemma_sound_value(buf@, 0, crate::wire::spec_max_depth());
        }
        let mut reader = Reader::new(buf);
        let res = reader.val(crate::MAX_DEPTH);
        let rest = reader.into_rest();
        (res, rest)
    }
}

/// Relies on `alloc::string::String::from_utf8`: it succeeds exactly on
/// valid UTF-8, and the returned string holds exactly the characters
/// those bytes encode.
#[verifier::external_body]
fn string_from_utf8(b: Vec<u8>) -> (r: Option<String>)
    ensures
        match r {
            Option::Some(s) => vstd::utf8::valid_utf8(b@) && s@ == vstd::utf8::decode_utf8(b@),
            Option::None => !vstd::utf8::valid_utf8(b@),
        },
{
    match String::from_utf8(b) {
        Ok(s) => Some(s),
        Err(_) => None,
    }
}

/// Left-aligns an `l4`-byte number within the full 8-byte width, scaling
/// it by two to the power of eight times the missing byte count.
fn scale_to_high(m: u64, l4: u8) -> (r: u64)
    requires
        1 <= l4 <= 8,
        m < pow2_of_8mul(l4 as nat),
    ensures
        r as int == m * pow2_of_8mul((8 - l4) as nat),
{
    proof {
        lemma_pow2_of_8mul_values();
        crate::wire::lemma_pow2_of_8mul_mul_bound(m as int, l4 as nat, (8 - l4) as nat);
    }
    if l4 == 8 {
        m
    } else if l4 == 7 {
        m * 0x100
    } else if l4 == 6 {
        m * 0x1_0000
    } else if l4 == 5 {
        m * 0x100_0000
    } else if l4 == 4 {
        m * 0x1_0000_0000
    } else if l4 == 3 {
        m * 0x100_0000_0000
    } else if l4 == 2 {
        m * 0x1_0000_0000_0000
    } else {
        m * 0x100_0000_0000_0000
    }
}

} // verus!
