//! The codec contract: every wire type can be serialized to bytes,
//! deserialized from a byte prefix, and probed for completeness without
//! consuming anything.

use vstd::prelude::*;

verus! {

/// Outcome of probing a byte prefix against a codec without decoding it.
#[derive(Clone, Copy, Debug, PartialEq, Eq, Structural)]
pub enum ParseHint {
    /// The first `n` bytes of the input form one fully valid encoded value.
    Complete(usize),
    /// At least this many more bytes must be appended before re-probing.
    Incomplete(usize),
    /// No amount of additional bytes can make this prefix valid.
    Invalid,
}

/// The codec contract. A type that implements it has
///
/// * a mathematical encoding, `spec_ser` (`None` when the value cannot be
///   encoded, e.g. an oversized sequence),
/// * a mathematical parse, `spec_parse`, giving the decoded value and how
///   many bytes of the prefix it occupies,
/// * a mathematical probe, `spec_hint`,
///
/// and executable `serialize` / `deserialize` / `parse_hint` that agree
/// exactly with those, plus proof obligations tying the three together:
/// parsing consumes a prefix and is stable under appending bytes, a probe's
/// verdict is sound, and decoding an encoding gives the value back.
///
/// The parse model speaks of `Self::V`, the mathematical deep view of the
/// type: an integer stands for itself, a vector for the sequence of its
/// elements' views.
pub trait Serial: DeepView + Sized {
    /// The encoding of this value, if it has one.
    spec fn spec_ser(&self) -> Option<Seq<u8>>;

    /// The value parsed from a prefix of `bytes`, with the exact number of
    /// bytes that prefix occupies.
    spec fn spec_parse(bytes: Seq<u8>) -> Option<(Self::V, int)>;

    /// The probe outcome on `bytes`.
    spec fn spec_hint(bytes: Seq<u8>) -> ParseHint;

    /// The smallest byte count that could possibly start a valid value.
    spec fn spec_min_size() -> int;

    /// Encode the value, or report that it cannot be legally encoded.
    fn serialize(&self) -> (r: Result<Vec<u8>, ()>)
        ensures
            match r {
                Ok(b) => self.spec_ser() == Some(b@),
                Err(()) => self.spec_ser() is None,
            },
    ;

    /// Decode one value from a prefix of `bytes`, returning it with the
    /// remaining tail.
    fn deserialize(bytes: &[u8]) -> (r: Result<(Self, &[u8]), ()>)
        ensures
            match r {
                Ok(p) => {
                    &&& Self::spec_parse(bytes@) matches Some(q)
                    &&& q.0 == p.0.deep_view()
                    &&& 0 <= q.1 <= bytes@.len()
                    &&& p.1@ == bytes@.skip(q.1)
                },
                Err(()) => Self::spec_parse(bytes@) is None,
            },
    ;

    /// The smallest byte count that could possibly start a valid value.
    fn minimum_size() -> (n: usize)
        ensures
            n == Self::spec_min_size(),
    ;

    /// Probe `bytes` for one complete encoded value.
    fn parse_hint(bytes: &[u8]) -> (h: ParseHint)
        ensures
            h == Self::spec_hint(bytes@),
    ;

    /// A successful parse occupies at least one byte and no more than the
    /// whole input.
    proof fn lemma_parse_bound(bytes: Seq<u8>)
        ensures
            Self::spec_parse(bytes) matches Some(p) ==> 1 <= p.1 <= bytes.len(),
    ;

    /// What a prefix parses to is not changed by appending bytes.
    proof fn lemma_parse_extend(bytes: Seq<u8>, ext: Seq<u8>)
        ensures
            Self::spec_parse(bytes) is Some ==> Self::spec_parse(bytes + ext)
                == Self::spec_parse(bytes),
    ;

    /// Soundness of the probe: `Complete(n)` means the input parses and the
    /// parse occupies exactly `n` bytes — or the input is already beyond
    /// repair; `Incomplete(k)` means no extension of fewer than `k` bytes can
    /// parse; `Invalid` means no extension at all can parse.
    proof fn lemma_hint(bytes: Seq<u8>)
        ensures
            match Self::spec_hint(bytes) {
                ParseHint::Complete(n) => n <= bytes.len() && match Self::spec_parse(bytes) {
                    Some(p) => p.1 == n,
                    None => forall|ext: Seq<u8>| Self::spec_parse(bytes + ext) is None,
                },
                ParseHint::Incomplete(k) => k >= 1 && forall|ext: Seq<u8>|
                    ext.len() < k ==> Self::spec_parse(bytes + ext) is None,
                ParseHint::Invalid => forall|ext: Seq<u8>|
                    Self::spec_parse(bytes + ext) is None,
            },
    ;

    /// Nothing shorter than `spec_min_size` bytes ever parses.
    proof fn lemma_min_size(bytes: Seq<u8>)
        ensures
            Self::spec_min_size() >= 1,
            bytes.len() < Self::spec_min_size() ==> Self::spec_parse(bytes) is None,
    ;

    /// Round trip: decoding an encoding yields the value back and consumes
    /// exactly the encoding's length.
    proof fn lemma_roundtrip(&self)
        ensures
            self.spec_ser() matches Some(e) ==> Self::spec_parse(e)
                == Some((self.deep_view(), e.len() as int)),
    ;
}

} // verus!
