//! An example message schema, composed from the primitive codecs the way
//! any application schema is: one discriminant byte assigned by declaration
//! order, then the fields' encodings in declared order.

use vstd::prelude::*;
use crate::protocol::{ParseHint, Serial};
use crate::fixed::{be_u32, rd_u32};

verus! {

/// A small tagged-union message type: `Ping` carries nothing, `Report`
/// carries two 32-bit coordinates and one byte, `Data` carries a
/// length-prefixed byte sequence.
#[derive(Debug, PartialEq)]
pub enum Sample {
    Ping,
    Report(u32, u32, u8),
    Data(Vec<u8>),
}

/// The mathematical shape of a `Sample`: the sequence field becomes a `Seq`.
pub enum SampleView {
    Ping,
    Report(u32, u32, u8),
    Data(Seq<u8>),
}

impl DeepView for Sample {
    type V = SampleView;

    open spec fn deep_view(&self) -> SampleView {
        match self {
            Sample::Ping => SampleView::Ping,
            Sample::Report(x, y, c) => SampleView::Report(*x, *y, *c),
            Sample::Data(v) => SampleView::Data(v.deep_view()),
        }
    }
}

/// A stream beginning with a discriminant no variant owns is invalid at
/// once — both to the probe and to any parse, however many bytes follow —
/// and is never mapped to some default variant.
pub proof fn unknown_discriminant_invalid(bytes: Seq<u8>)
    requires
        bytes.len() >= 1,
        bytes[0] != 0,
        bytes[0] != 1,
        bytes[0] != 2,
    ensures
        Sample::spec_hint(bytes) is Invalid,
        forall|ext: Seq<u8>| Sample::spec_parse(bytes + ext) is None,
{
    <Sample as Serial>::lemma_hint(bytes);
}

/// When the byte-sequence payload of a `Data` message cannot be parsed from
/// the bytes after the discriminant, no message parses from the whole.
proof fn lemma_data_parse_none(bytes: Seq<u8>, ext: Seq<u8>)
    requires
        bytes.len() >= 1,
        bytes[0] == 2,
        <Vec<u8> as Serial>::spec_parse(bytes.skip(1) + ext) is None,
    ensures
        Sample::spec_parse(bytes + ext) is None,
{
    assert((bytes + ext)[0] == bytes[0]);
    assert((bytes + ext).skip(1) =~= bytes.skip(1) + ext);
}

/// The probe soundness law, for the `Data` discriminant: the probe follows
/// the payload codec's probe, shifted by the discriminant byte.
proof fn lemma_hint_data(bytes: Seq<u8>)
    requires
        bytes.len() >= 1,
        bytes[0] == 2,
    ensures
        match Sample::spec_hint(bytes) {
            ParseHint::Complete(n) => n <= bytes.len() && match Sample::spec_parse(bytes) {
                Some(p) => p.1 == n,
                None => forall|ext: Seq<u8>| Sample::spec_parse(bytes + ext) is None,
            },
            ParseHint::Incomplete(k) => k >= 1 && forall|ext: Seq<u8>|
                ext.len() < k ==> Sample::spec_parse(bytes + ext) is None,
            ParseHint::Invalid => forall|ext: Seq<u8>|
                Sample::spec_parse(bytes + ext) is None,
        },
{
    let tail = bytes.skip(1);
    <Vec<u8> as Serial>::lemma_hint(tail);
    match <Vec<u8> as Serial>::spec_hint(tail) {
        ParseHint::Complete(n) => {
            assert(n <= 65537);
            assert(Sample::spec_hint(bytes) == ParseHint::Complete((n + 1) as usize));
            match <Vec<u8> as Serial>::spec_parse(tail) {
                Some(p) => {
                    assert(Sample::spec_parse(bytes) == Some((SampleView::Data(p.0), 1 + p.1)));
                },
                None => {
                    assert forall|ext: Seq<u8>|
                        Sample::spec_parse(bytes + ext) is None by {
                        assert(<Vec<u8> as Serial>::spec_parse(tail + ext) is None);
                        lemma_data_parse_none(bytes, ext);
                    }
                },
            }
        },
        ParseHint::Incomplete(k) => {
            assert forall|ext: Seq<u8>| ext.len() < k
                implies Sample::spec_parse(bytes + ext) is None by {
                assert(<Vec<u8> as Serial>::spec_parse(tail + ext) is None);
                lemma_data_parse_none(bytes, ext);
            }
        },
        ParseHint::Invalid => {
            assert forall|ext: Seq<u8>|
                Sample::spec_parse(bytes + ext) is None by {
                assert(<Vec<u8> as Serial>::spec_parse(tail + ext) is None);
                lemma_data_parse_none(bytes, ext);
            }
        },
    }
}

impl Serial for Sample {
    open spec fn spec_ser(&self) -> Option<Seq<u8>> {
        match self {
            Sample::Ping => Some(seq![0u8]),
            Sample::Report(x, y, c) => Some(seq![1u8] + be_u32(*x) + be_u32(*y) + seq![*c]),
            Sample::Data(v) => match v.spec_ser() {
                Some(e) => Some(seq![2u8] + e),
                None => None,
            },
        }
    }

    open spec fn spec_parse(bytes: Seq<u8>) -> Option<(SampleView, int)> {
        if bytes.len() < 1 {
            None
        } else if bytes[0] == 0 {
            Some((SampleView::Ping, 1))
        } else if bytes[0] == 1 {
            if bytes.len() >= 10 {
                Some((SampleView::Report(
                    rd_u32(bytes.subrange(1, 5)),
                    rd_u32(bytes.subrange(5, 9)),
                    bytes[9],
                ), 10))
            } else {
                None
            }
        } else if bytes[0] == 2 {
            match <Vec<u8> as Serial>::spec_parse(bytes.skip(1)) {
                Some(p) => Some((SampleView::Data(p.0), 1 + p.1)),
                None => None,
            }
        } else {
            None
        }
    }

    open spec fn spec_hint(bytes: Seq<u8>) -> ParseHint {
        if bytes.len() < 1 {
            ParseHint::Incomplete(1)
        } else if bytes[0] == 0 {
            ParseHint::Complete(1)
        } else if bytes[0] == 1 {
            if bytes.len() >= 10 {
                ParseHint::Complete(10)
            } else {
                ParseHint::Incomplete((10 - bytes.len()) as usize)
            }
        } else if bytes[0] == 2 {
            match <Vec<u8> as Serial>::spec_hint(bytes.skip(1)) {
                ParseHint::Complete(n) => ParseHint::Complete((n + 1) as usize),
                ParseHint::Incomplete(k) => ParseHint::Incomplete(k),
                ParseHint::Invalid => ParseHint::Invalid,
            }
        } else {
            ParseHint::Invalid
        }
    }

    open spec fn spec_min_size() -> int {
        1
    }

    fn serialize(&self) -> (r: Result<Vec<u8>, ()>) {
        match self {
            Sample::Ping => {
                let mut b: Vec<u8> = Vec::new();
                b.push(0u8);
                proof {
                    assert(b@ =~= seq![0u8]);
                }
                Ok(b)
            },
            Sample::Report(x, y, c) => {
                let mut b: Vec<u8> = Vec::new();
                b.push(1u8);
                let mut xb = match x.serialize() {
                    Ok(v) => v,
                    Err(()) => {
                        return Err(());
                    },
                };
                b.append(&mut xb);
                let mut yb = match y.serialize() {
                    Ok(v) => v,
                    Err(()) => {
                        return Err(());
                    },
                };
                b.append(&mut yb);
                b.push(*c);
                proof {
                    assert(b@ =~= seq![1u8] + be_u32(*x) + be_u32(*y) + seq![*c]);
                }
                Ok(b)
            },
            Sample::Data(v) => {
                match v.serialize() {
                    Ok(mut e) => {
                        let mut b: Vec<u8> = Vec::new();
                        b.push(2u8);
                        b.append(&mut e);
                        proof {
                            assert(v.spec_ser() matches Some(ev) && b@ =~= seq![2u8] + ev);
                        }
                        Ok(b)
                    },
                    Err(()) => Err(()),
                }
            },
        }
    }

    fn deserialize(bytes: &[u8]) -> (r: Result<(Sample, &[u8]), ()>) {
        match Self::parse_hint(bytes) {
            ParseHint::Complete(_) => {},
            _ => {
                proof {
                    if bytes@.len() >= 1 && bytes@[0] == 2 {
                        <Vec<u8> as Serial>::lemma_hint(bytes@.skip(1));
                        assert(bytes@.skip(1) + Seq::<u8>::empty() =~= bytes@.skip(1));
                    }
                }
                return Err(());
            },
        }
        let d = *vstd::slice::slice_index_get(bytes, 0);
        let tail = vstd::slice::slice_subrange(bytes, 1, bytes.len());
        if d == 0 {
            Ok((Sample::Ping, tail))
        } else if d == 1 {
            let (x, t1) = match <u32 as Serial>::deserialize(tail) {
                Ok(p) => p,
                Err(()) => {
                    return Err(());
                },
            };
            let (y, t2) = match <u32 as Serial>::deserialize(t1) {
                Ok(p) => p,
                Err(()) => {
                    return Err(());
                },
            };
            let (c, t3) = match <u8 as Serial>::deserialize(t2) {
                Ok(p) => p,
                Err(()) => {
                    return Err(());
                },
            };
            proof {
                assert(rd_u32(tail@) == rd_u32(bytes@.subrange(1, 5)));
                assert(rd_u32(t1@) == rd_u32(bytes@.subrange(5, 9)));
                assert(t3@ =~= bytes@.skip(10));
            }
            Ok((Sample::Report(x, y, c), t3))
        } else if d == 2 {
            match <Vec<u8> as Serial>::deserialize(tail) {
                Ok((v, t)) => {
                    proof {
                        let m = <Vec<u8> as Serial>::spec_parse(bytes@.skip(1)).unwrap().1;
                        assert(t@ =~= bytes@.skip(1 + m));
                    }
                    Ok((Sample::Data(v), t))
                },
                Err(()) => Err(()),
            }
        } else {
            Err(())
        }
    }

    fn minimum_size() -> (n: usize) {
        1
    }

    fn parse_hint(bytes: &[u8]) -> (h: ParseHint) {
        if bytes.len() < 1 {
            return ParseHint::Incomplete(1);
        }
        let d = *vstd::slice::slice_index_get(bytes, 0);
        if d == 0 {
            ParseHint::Complete(1)
        } else if d == 1 {
            if bytes.len() >= 10 {
                ParseHint::Complete(10)
            } else {
                ParseHint::Incomplete(10 - bytes.len())
            }
        } else if d == 2 {
            let tail = vstd::slice::slice_subrange(bytes, 1, bytes.len());
            match <Vec<u8> as Serial>::parse_hint(tail) {
                ParseHint::Complete(n) => {
                    proof {
                        assert(n <= 65537);
                    }
                    ParseHint::Complete(n + 1)
                },
                ParseHint::Incomplete(k) => ParseHint::Incomplete(k),
                ParseHint::Invalid => ParseHint::Invalid,
            }
        } else {
            ParseHint::Invalid
        }
    }

    proof fn lemma_parse_bound(bytes: Seq<u8>) {
        if bytes.len() >= 1 && bytes[0] == 2 {
            <Vec<u8> as Serial>::lemma_parse_bound(bytes.skip(1));
        }
    }

    proof fn lemma_parse_extend(bytes: Seq<u8>, ext: Seq<u8>) {
        if Self::spec_parse(bytes) is Some {
            assert((bytes + ext)[0] == bytes[0]);
            if bytes[0] == 1 {
                assert((bytes + ext).subrange(1, 5) =~= bytes.subrange(1, 5));
                assert((bytes + ext).subrange(5, 9) =~= bytes.subrange(5, 9));
            } else if bytes[0] == 2 {
                assert((bytes + ext).skip(1) =~= bytes.skip(1) + ext);
                <Vec<u8> as Serial>::lemma_parse_extend(bytes.skip(1), ext);
            }
        }
    }

    proof fn lemma_hint(bytes: Seq<u8>) {
        if bytes.len() < 1 {
            assert forall|ext: Seq<u8>| ext.len() < 1
                implies Self::spec_parse(bytes + ext) is None by {
            }
        } else if bytes[0] == 0 {
        } else if bytes[0] == 1 {
            if bytes.len() < 10 {
                assert forall|ext: Seq<u8>| ext.len() < 10 - bytes.len()
                    implies Self::spec_parse(bytes + ext) is None by {
                    assert((bytes + ext)[0] == bytes[0]);
                }
            }
        } else if bytes[0] == 2 {
            lemma_hint_data(bytes);
        } else {
            assert forall|ext: Seq<u8>|
                Self::spec_parse(bytes + ext) is None by {
                assert((bytes + ext)[0] == bytes[0]);
            }
        }
    }

    proof fn lemma_min_size(bytes: Seq<u8>) {
    }

    proof fn lemma_roundtrip(&self) {
        match self {
            Sample::Ping => {},
            Sample::Report(x, y, c) => {
                let e = seq![1u8] + be_u32(*x) + be_u32(*y) + seq![*c];
                assert(e.len() == 10);
                assert(e[0] == 1);
                <u32 as Serial>::lemma_roundtrip(x);
                <u32 as Serial>::lemma_roundtrip(y);
                assert(e.subrange(1, 5) =~= be_u32(*x));
                assert(e.subrange(5, 9) =~= be_u32(*y));
                assert(e[9] == *c);
            },
            Sample::Data(v) => {
                if v.spec_ser() is Some {
                    let ev = v.spec_ser().unwrap();
                    let e = seq![2u8] + ev;
                    assert(e[0] == 2);
                    v.lemma_roundtrip();
                    assert(e.skip(1) =~= ev);
                }
            },
        }
    }
}

} // verus!
