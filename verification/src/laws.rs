//! Laws that hold of every codec, proved once from the codec contract:
//! probe–decode agreement, fragmentation invariance, and pipelining.

use vstd::prelude::*;
use crate::protocol::{ParseHint, Serial};

verus! {

/// Probe–decode agreement: when a probe answers `Complete(n)` and the bytes
/// parse at all, the parse consumes exactly the `n` bytes the probe named.
/// (Probing itself is idempotent by contract: `parse_hint` equals the pure
/// function `spec_hint` of the bytes, so two probes of unchanged bytes
/// cannot differ.)
///
/// The parse premise is needed because a probe only frames: a sequence
/// whose declared byte length is no multiple of its element width probes
/// `Complete` — the frame is fully delimited — yet decodes to nothing, and
/// no further bytes could mend it. The codec contract's `lemma_hint` pins
/// that remainder case down.
pub proof fn probe_complete_parses<M: Serial>(bytes: Seq<u8>)
    requires
        M::spec_hint(bytes) is Complete,
        M::spec_parse(bytes) is Some,
    ensures
        match (M::spec_hint(bytes), M::spec_parse(bytes)) {
            (ParseHint::Complete(n), Some(p)) => p.1 == n,
            _ => false,
        },
{
    M::lemma_hint(bytes);
}

/// The probe never misses: whenever the bytes already parse, the probe
/// answers `Complete` with exactly the parse's consumption — it cannot
/// starve the connection by asking for more, nor condemn a healthy stream.
pub proof fn probe_never_misses<M: Serial>(bytes: Seq<u8>)
    requires
        M::spec_parse(bytes) is Some,
    ensures
        match (M::spec_hint(bytes), M::spec_parse(bytes)) {
            (ParseHint::Complete(n), Some(p)) => p.1 == n,
            _ => false,
        },
{
    M::lemma_hint(bytes);
    assert(bytes + Seq::<u8>::empty() =~= bytes);
    match M::spec_hint(bytes) {
        ParseHint::Complete(n) => {},
        ParseHint::Incomplete(k) => {
            assert(M::spec_parse(bytes + Seq::<u8>::empty()) is None);
            assert(false);
        },
        ParseHint::Invalid => {
            assert(M::spec_parse(bytes + Seq::<u8>::empty()) is None);
            assert(false);
        },
    }
}

/// Fragmentation invariance, codec half: every strict prefix of a valid
/// encoding parses to nothing and probes `Incomplete` — never `Complete`,
/// never `Invalid` — while the whole encoding parses to the encoded value.
/// However a message's bytes are split across reads, the connection starves
/// on every proper prefix and decodes exactly once, at the final chunk.
pub proof fn fragment_prefix_starves<M: Serial>(v: &M, cut: int)
    requires
        v.spec_ser() is Some,
        0 <= cut < v.spec_ser().unwrap().len(),
    ensures
        M::spec_parse(v.spec_ser().unwrap().take(cut)) is None,
        M::spec_hint(v.spec_ser().unwrap().take(cut)) is Incomplete,
        M::spec_parse(v.spec_ser().unwrap())
            == Some((v.deep_view(), v.spec_ser().unwrap().len() as int)),
{
    let e = v.spec_ser().unwrap();
    let p = e.take(cut);
    v.lemma_roundtrip();
    assert(p + e.skip(cut) =~= e);
    M::lemma_parse_extend(p, e.skip(cut));
    M::lemma_parse_bound(p);
    match M::spec_hint(p) {
        ParseHint::Complete(n) => {
            M::lemma_hint(p);
            match M::spec_parse(p) {
                Some(q) => {
                    assert(false);
                },
                None => {
                    assert(M::spec_parse(p + e.skip(cut)) is None);
                    assert(false);
                },
            }
        },
        ParseHint::Incomplete(k) => {
            if M::spec_parse(p) is Some {
                assert(false);
            }
        },
        ParseHint::Invalid => {
            M::lemma_hint(p);
            assert(M::spec_parse(p + e.skip(cut)) is None);
            assert(false);
        },
    }
}

/// Pipelining: two encoded messages delivered back to back parse one at a
/// time, in order — the first parse consumes exactly the first encoding,
/// what remains is exactly the second encoding, and that parses to the
/// second message with nothing left over.
pub proof fn pipelined_messages<M: Serial>(v1: &M, v2: &M)
    requires
        v1.spec_ser() is Some,
        v2.spec_ser() is Some,
    ensures
        ({
            let e1 = v1.spec_ser().unwrap();
            let e2 = v2.spec_ser().unwrap();
            &&& M::spec_parse(e1 + e2) == Some((v1.deep_view(), e1.len() as int))
            &&& (e1 + e2).skip(e1.len() as int) == e2
            &&& M::spec_parse(e2) == Some((v2.deep_view(), e2.len() as int))
        }),
{
    let e1 = v1.spec_ser().unwrap();
    let e2 = v2.spec_ser().unwrap();
    v1.lemma_roundtrip();
    v2.lemma_roundtrip();
    M::lemma_parse_extend(e1, e2);
    assert((e1 + e2).skip(e1.len() as int) =~= e2);
}

} // verus!
