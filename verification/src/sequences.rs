//! Length-prefixed sequences: a 16-bit big-endian byte-length prefix
//! followed by that many raw bytes of back-to-back fixed-width elements.
//! Encoding fails when the payload would exceed what the prefix can
//! describe; decoding fails when the declared length is not a multiple of
//! the element width.

use vstd::prelude::*;
use crate::protocol::{ParseHint, Serial};
use crate::fixed::{FixedWidth, be_u16, rd_u16};

verus! {

/// The concatenated encodings of the elements, in order.
pub open spec fn ser_elems<T: FixedWidth>(s: Seq<T>) -> Seq<u8>
    decreases s.len(),
{
    if s.len() == 0 {
        Seq::empty()
    } else {
        s[0].spec_ser().unwrap() + ser_elems(s.skip(1))
    }
}

/// The element views parsed from a payload of back-to-back fixed-width
/// encodings, front first.
pub open spec fn parse_elems<T: FixedWidth>(payload: Seq<u8>) -> Seq<T::V>
    decreases payload.len(),
{
    if T::spec_min_size() < 1 || payload.len() < T::spec_min_size() {
        Seq::empty()
    } else {
        seq![T::spec_parse(payload).unwrap().0]
            + parse_elems::<T>(payload.skip(T::spec_min_size()))
    }
}

/// Appending one element appends its encoding.
pub proof fn lemma_ser_elems_push<T: FixedWidth>(s: Seq<T>, x: T)
    ensures
        ser_elems(s.push(x)) == ser_elems(s) + x.spec_ser().unwrap(),
    decreases s.len(),
{
    if s.len() == 0 {
        assert(s.push(x)[0] == x);
        assert(s.push(x).skip(1) =~= Seq::<T>::empty());
        assert(ser_elems(Seq::<T>::empty()) == Seq::<u8>::empty());
        assert(ser_elems(s.push(x)) =~= ser_elems(s) + x.spec_ser().unwrap());
    } else {
        lemma_ser_elems_push(s.skip(1), x);
        assert(s.push(x).skip(1) =~= s.skip(1).push(x));
        assert(s.push(x)[0] == s[0]);
        assert(s[0].spec_ser().unwrap() + (ser_elems(s.skip(1)) + x.spec_ser().unwrap())
            =~= (s[0].spec_ser().unwrap() + ser_elems(s.skip(1))) + x.spec_ser().unwrap());
    }
}

/// The encodings of `s` occupy exactly `s.len()` times the element width.
pub proof fn lemma_ser_elems_len<T: FixedWidth>(s: Seq<T>)
    ensures
        ser_elems(s).len() == s.len() * T::spec_min_size(),
    decreases s.len(),
{
    if s.len() == 0 {
        assert(s.len() * T::spec_min_size() == 0) by (nonlinear_arith)
            requires s.len() == 0;
    } else {
        s[0].lemma_fixed_ser();
        lemma_ser_elems_len::<T>(s.skip(1));
        assert(s.len() * T::spec_min_size()
            == T::spec_min_size() + (s.len() - 1) * T::spec_min_size()) by (nonlinear_arith);
    }
}

/// Parsing the concatenated encodings gives back the element views.
pub proof fn lemma_elems_roundtrip<T: FixedWidth>(s: Seq<T>)
    ensures
        parse_elems::<T>(ser_elems(s)) == Seq::new(s.len(), |i: int| s[i].deep_view()),
    decreases s.len(),
{
    T::lemma_min_size(Seq::<u8>::empty());
    if s.len() == 0 {
        assert(parse_elems::<T>(ser_elems(s)) =~= Seq::new(s.len(), |i: int| s[i].deep_view()));
    } else {
        let e0 = s[0].spec_ser().unwrap();
        let rest = ser_elems(s.skip(1));
        let w = T::spec_min_size();
        s[0].lemma_fixed_ser();
        s[0].lemma_roundtrip();
        T::lemma_parse_extend(e0, rest);
        assert(e0 + rest == ser_elems(s));
        assert(T::spec_parse(ser_elems(s)) == Some((s[0].deep_view(), w)));
        assert((e0 + rest).skip(w) =~= rest);
        lemma_elems_roundtrip::<T>(s.skip(1));
        assert(parse_elems::<T>(ser_elems(s)) =~= Seq::new(s.len(), |i: int| s[i].deep_view()));
    }
}

/// A sequence whose payload would overrun the 16-bit length prefix has no
/// encoding at all: encoding it is rejected before anything could be sent.
pub proof fn oversized_sequence_rejected<T: FixedWidth>(v: &Vec<T>)
    requires
        v@.len() * T::spec_min_size() > 65535,
    ensures
        v.spec_ser() is None,
{
}

impl<T: FixedWidth> Serial for Vec<T> {
    open spec fn spec_ser(&self) -> Option<Seq<u8>> {
        if self@.len() * T::spec_min_size() > 65535 {
            None
        } else {
            Some(be_u16((self@.len() * T::spec_min_size()) as u16) + ser_elems(self@))
        }
    }

    open spec fn spec_parse(bytes: Seq<u8>) -> Option<(Seq<T::V>, int)> {
        if bytes.len() < 2 {
            None
        } else {
            let len = rd_u16(bytes) as int;
            if bytes.len() - 2 < len {
                None
            } else if len % T::spec_min_size() != 0 {
                None
            } else {
                Some((parse_elems::<T>(bytes.subrange(2, 2 + len)), 2 + len))
            }
        }
    }

    open spec fn spec_hint(bytes: Seq<u8>) -> ParseHint {
        if bytes.len() < 2 {
            ParseHint::Incomplete((2 - bytes.len()) as usize)
        } else {
            let len = rd_u16(bytes) as int;
            if bytes.len() - 2 < len {
                ParseHint::Incomplete((len - (bytes.len() - 2)) as usize)
            } else {
                ParseHint::Complete((2 + len) as usize)
            }
        }
    }

    open spec fn spec_min_size() -> int {
        2
    }

    fn serialize(&self) -> (r: Result<Vec<u8>, ()>) {
        proof {
            T::lemma_min_size(Seq::<u8>::empty());
        }
        let width = T::minimum_size();
        let n = self.len();
        if n > 65535 || (n > 0 && width > 65535) {
            proof {
                assert(self@.len() * T::spec_min_size() > 65535) by (nonlinear_arith)
                    requires
                        self@.len() == n,
                        T::spec_min_size() == width,
                        width >= 1,
                        n > 65535 || (n > 0 && width > 65535),
                ;
            }
            return Err(());
        }
        proof {
            assert(n * width <= 65535 * 65535) by (nonlinear_arith)
                requires
                    n <= 65535,
                    n == 0 || width <= 65535,
            ;
        }
        let total: usize = n * width;
        if total > 65535 {
            return Err(());
        }
        let prefix: u16 = total as u16;
        let mut out = match prefix.serialize() {
            Ok(b) => b,
            Err(()) => {
                return Err(());
            },
        };
        let mut i: usize = 0;
        while i < n
            invariant
                i <= n,
                n == self@.len(),
                out@ == be_u16(prefix) + ser_elems(self@.take(i as int)),
            decreases n - i,
        {
            let mut eb = match self[i].serialize() {
                Ok(b) => b,
                Err(()) => {
                    proof {
                        self@[i as int].lemma_fixed_ser();
                    }
                    return Err(());
                },
            };
            out.append(&mut eb);
            proof {
                lemma_ser_elems_push::<T>(self@.take(i as int), self@[i as int]);
                assert(self@.take(i as int).push(self@[i as int]) =~= self@.take(i + 1 as int));
                assert((be_u16(prefix) + ser_elems(self@.take(i as int))) + self@[i as int].spec_ser().unwrap()
                    =~= be_u16(prefix) + ser_elems(self@.take(i + 1 as int)));
            }
            i += 1;
        }
        proof {
            assert(self@.take(n as int) =~= self@);
        }
        Ok(out)
    }

    fn deserialize(bytes: &[u8]) -> (r: Result<(Vec<T>, &[u8]), ()>) {
        proof {
            T::lemma_min_size(Seq::<u8>::empty());
        }
        let (len16, rest) = match <u16 as Serial>::deserialize(bytes) {
            Ok(p) => p,
            Err(()) => {
                return Err(());
            },
        };
        let len = len16 as usize;
        let width = T::minimum_size();
        if len > rest.len() {
            return Err(());
        }
        if len % width != 0 {
            return Err(());
        }
        let ghost payload = bytes@.subrange(2, 2 + len as int);
        let ghost extra = bytes@.skip(2 + len as int);
        let count = len / width;
        proof {
            vstd::arithmetic::div_mod::lemma_fundamental_div_mod(len as int, width as int);
            assert(len as int == (width as int) * ((len as int) / (width as int))
                + (len as int) % (width as int));
            assert((len as int) % (width as int) == 0);
            assert(count == (len as int) / (width as int));
            vstd::arithmetic::mul::lemma_mul_is_commutative(count as int, width as int);
            assert(len == count * width);
        }
        let mut items: Vec<T> = Vec::new();
        let mut cur: &[u8] = rest;
        let mut i: usize = 0;
        proof {
            assert(items.deep_view() =~= Seq::<T::V>::empty());
            assert(payload.skip(0) =~= payload);
            assert(Seq::<T::V>::empty() + parse_elems::<T>(payload) =~= parse_elems::<T>(payload));
            assert(rest@ == bytes@.skip(2));
        }
        while i < count
            invariant
                i <= count,
                width == T::spec_min_size(),
                width >= 1,
                len == count * width,
                len + 2 <= bytes@.len(),
                payload == bytes@.subrange(2, 2 + len as int),
                extra == bytes@.skip(2 + len as int),
                cur@ == bytes@.skip(2 + (i * width) as int),
                i * width <= len,
                items@.len() == i,
                parse_elems::<T>(payload) == items.deep_view()
                    + parse_elems::<T>(payload.skip((i * width) as int)),
            decreases count - i,
        {
            proof {
                assert((i + 1) * width == i * width + width) by (nonlinear_arith);
                assert(i + 1 <= count);
                assert((i + 1) * width <= count * width) by (nonlinear_arith)
                    requires i + 1 <= count, width >= 1;
            }
            let ghost mid = payload.skip((i * width) as int);
            proof {
                assert(mid.len() == len - i * width >= width);
                T::lemma_fixed_parse(mid);
                T::lemma_parse_extend(mid, extra);
                assert(cur@ =~= mid + extra);
            }
            let (item, tail) = match T::deserialize(cur) {
                Ok(p) => p,
                Err(()) => {
                    return Err(());
                },
            };
            let ghost prev = items@;
            proof {
                assert(T::spec_parse(cur@) == T::spec_parse(mid));
                assert(mid.skip(T::spec_min_size()) =~= payload.skip(((i + 1) * width) as int));
                assert(tail@ =~= bytes@.skip(2 + ((i + 1) * width) as int));
                assert(parse_elems::<T>(mid) == seq![item.deep_view()]
                    + parse_elems::<T>(payload.skip(((i + 1) * width) as int)));
            }
            items.push(item);
            cur = tail;
            proof {
                let dv = Seq::new(prev.len(), |j: int| prev[j].deep_view());
                assert(items.deep_view() =~= dv.push(item.deep_view()));
                assert(dv.push(item.deep_view()) + parse_elems::<T>(payload.skip(((i + 1) * width) as int))
                    =~= dv + (seq![item.deep_view()] + parse_elems::<T>(payload.skip(((i + 1) * width) as int))));
            }
            i += 1;
        }
        proof {
            assert(i * width == len) by (nonlinear_arith)
                requires i == count, len == count * width;
            assert(payload.skip(len as int) =~= Seq::<u8>::empty());
            assert(parse_elems::<T>(payload.skip((i * width) as int)) =~= Seq::<T::V>::empty());
            assert(parse_elems::<T>(payload) =~= items.deep_view());
            assert(rd_u16(bytes@) == len16);
            assert(cur@ =~= bytes@.skip(2 + len as int));
        }
        Ok((items, cur))
    }

    fn minimum_size() -> (n: usize) {
        2
    }

    fn parse_hint(bytes: &[u8]) -> (h: ParseHint) {
        if bytes.len() < 2 {
            return ParseHint::Incomplete(2 - bytes.len());
        }
        match <u16 as Serial>::deserialize(bytes) {
            Ok((len16, rest)) => {
                let len = len16 as usize;
                if len > rest.len() {
                    ParseHint::Incomplete(len - rest.len())
                } else {
                    ParseHint::Complete(2 + len)
                }
            },
            Err(()) => ParseHint::Invalid,
        }
    }

    proof fn lemma_parse_bound(bytes: Seq<u8>) {
    }

    proof fn lemma_parse_extend(bytes: Seq<u8>, ext: Seq<u8>) {
        if Self::spec_parse(bytes) is Some {
            let len = rd_u16(bytes) as int;
            assert(rd_u16(bytes + ext) == rd_u16(bytes));
            assert((bytes + ext).subrange(2, 2 + len) =~= bytes.subrange(2, 2 + len));
        }
    }

    proof fn lemma_hint(bytes: Seq<u8>) {
        if bytes.len() < 2 {
            assert forall|ext: Seq<u8>| ext.len() < 2 - bytes.len()
                implies Self::spec_parse(bytes + ext) is None by {
            }
        } else {
            let len = rd_u16(bytes) as int;
            if bytes.len() - 2 < len {
                assert forall|ext: Seq<u8>| ext.len() < len - (bytes.len() - 2)
                    implies Self::spec_parse(bytes + ext) is None by {
                    assert(rd_u16(bytes + ext) == rd_u16(bytes));
                }
            } else {
                if len % T::spec_min_size() != 0 {
                    assert forall|ext: Seq<u8>| Self::spec_parse(bytes + ext) is None by {
                        assert(rd_u16(bytes + ext) == rd_u16(bytes));
                    }
                }
            }
        }
    }

    proof fn lemma_min_size(bytes: Seq<u8>) {
    }

    proof fn lemma_roundtrip(&self) {
        T::lemma_min_size(Seq::<u8>::empty());
        let w = T::spec_min_size();
        let s = self@;
        if s.len() * w <= 65535 {
            let total = s.len() * w;
            let prefix = total as u16;
            let e = be_u16(prefix) + ser_elems(s);
            lemma_ser_elems_len::<T>(s);
            assert(e.len() == 2 + total);
            assert(total >= 0) by (nonlinear_arith)
                requires total == s.len() * w, w >= 1;
            <u16 as Serial>::lemma_roundtrip(&prefix);
            assert(rd_u16(be_u16(prefix)) == prefix);
            assert(rd_u16(e) == rd_u16(be_u16(prefix)));
            assert(rd_u16(e) as int == total);
            vstd::arithmetic::div_mod::lemma_mod_multiples_basic(s.len() as int, w);
            assert(total % w == 0);
            assert(e.subrange(2, 2 + total) =~= ser_elems(s));
            lemma_elems_roundtrip::<T>(s);
            assert(self.deep_view() =~= Seq::new(s.len(), |i: int| s[i].deep_view()));
        }
    }
}

} // verus!
