//! The connection layer's framing state machine: an accumulation buffer, a
//! cached "bytes still required" shortfall, and the decisions that turn a
//! stream of arbitrarily fragmented reads into whole decoded messages.
//!
//! The connection owns no socket here: the owner asks [`Conn::plan`] how
//! many bytes to read, performs one non-blocking read of that size, and
//! hands whatever arrived to [`Conn::deliver`]. Everything the two calls do
//! to the buffer and the shortfall cache is specified exactly.

use vstd::prelude::*;
use crate::protocol::{ParseHint, Serial};

verus! {

/// Result of sending one message.
#[derive(Debug, Clone, Copy, PartialEq, Eq, Structural)]
pub enum SendResult {
    /// The encoded bytes were written.
    Sent,
    /// The peer closed, or writing failed.
    Disconnected,
    /// The message cannot be legally encoded; nothing was written.
    Invalid,
}

/// Result of one receive attempt.
#[derive(Debug, PartialEq)]
pub enum RecvResult<M> {
    /// The peer closed, or reading failed.
    Disconnected,
    /// One whole message was decoded.
    Message(M),
    /// The byte stream can never frame a valid message again.
    Invalid,
    /// Nothing new is available yet; try again later.
    NotYet,
}

/// What the connection asks its owner to do next.
#[derive(Debug, Clone, Copy, PartialEq, Eq, Structural)]
pub enum ReadPlan {
    /// Attempt one non-blocking read of exactly this many bytes (possibly
    /// zero, when the buffer already holds a whole message).
    Read(usize),
    /// The buffered bytes can never frame a valid message: the stream is
    /// desynchronized and the connection must be discarded.
    Broken,
}

/// What one delivery of freshly read bytes produced.
#[derive(Debug, PartialEq)]
pub enum Delivery<M> {
    /// One whole message was decoded; exactly its bytes left the buffer.
    Message(M),
    /// The read fell short of the request; the remaining shortfall was
    /// recorded, and the owner should report that nothing is ready yet.
    Starved,
    /// The full requested amount arrived but still more is needed: plan a
    /// further read and deliver again.
    Retry,
    /// The buffered bytes can never frame a valid message.
    Invalid,
}

/// One end of a message stream: the bytes received so far but not yet
/// attributed to a decoded message, plus the cached shortfall from the last
/// starved read.
pub struct Conn<M: Serial> {
    buffer: Vec<u8>,
    bytes_required: Option<usize>,
    marker: core::marker::PhantomData<M>,
}

impl<M: Serial> Conn<M> {
    /// The accumulation buffer: exactly the received bytes not yet consumed
    /// by a decoded message.
    pub closed spec fn buf(&self) -> Seq<u8> {
        self.buffer@
    }

    /// The cached shortfall from the last starved read or short probe.
    pub closed spec fn required(&self) -> Option<usize> {
        self.bytes_required
    }

    /// The shortfall cache is sound: when `k` is recorded, appending fewer
    /// than `k` bytes to the buffer cannot complete a message.
    pub open spec fn wf(&self) -> bool {
        match self.required() {
            Some(k) => k >= 1 && forall|ext: Seq<u8>|
                ext.len() < k ==> M::spec_parse(self.buf() + ext) is None,
            None => true,
        }
    }

    /// How many additional bytes the next read should request: the cached
    /// shortfall if one exists; the codec's minimum for an empty buffer;
    /// otherwise whatever a probe of the buffer says — zero when a whole
    /// message is already buffered, `Broken` when the buffer can never
    /// frame one.
    pub open spec fn spec_plan(&self) -> ReadPlan {
        match self.required() {
            Some(k) => ReadPlan::Read(k),
            None => if self.buf().len() == 0 {
                ReadPlan::Read(M::spec_min_size() as usize)
            } else {
                match M::spec_hint(self.buf()) {
                    ParseHint::Complete(n) => ReadPlan::Read(0),
                    ParseHint::Incomplete(k) => ReadPlan::Read(k),
                    ParseHint::Invalid => ReadPlan::Broken,
                }
            },
        }
    }

    /// A fresh connection: empty buffer, no cached shortfall.
    pub fn new() -> (c: Self)
        ensures
            c.wf(),
            c.buf() == Seq::<u8>::empty(),
            c.required() is None,
    {
        Conn { buffer: Vec::new(), bytes_required: None, marker: core::marker::PhantomData }
    }

    /// Decide the next read request. Consumes nothing and changes nothing.
    pub fn plan(&self) -> (p: ReadPlan)
        ensures
            p == self.spec_plan(),
    {
        match self.bytes_required {
            Some(k) => ReadPlan::Read(k),
            None => {
                if self.buffer.len() == 0 {
                    ReadPlan::Read(M::minimum_size())
                } else {
                    match M::parse_hint(self.buffer.as_slice()) {
                        ParseHint::Complete(_) => ReadPlan::Read(0),
                        ParseHint::Incomplete(k) => ReadPlan::Read(k),
                        ParseHint::Invalid => ReadPlan::Broken,
                    }
                }
            },
        }
    }

    /// How many bytes sit in the accumulation buffer.
    pub fn buffered(&self) -> (n: usize)
        ensures
            n == self.buf().len(),
    {
        self.buffer.len()
    }

    /// Fold the bytes one read produced into the buffer and try to frame a
    /// message. `requested` must be what [`Conn::plan`] just answered, and
    /// `data` what the read handed back — at most `requested` bytes.
    ///
    /// A short read records the remaining shortfall and starves. A full
    /// read re-probes: a complete frame is decoded and exactly its bytes
    /// leave the buffer head, the rest staying for the next message; an
    /// incomplete one records the new shortfall and asks the owner to plan
    /// again; an invalid one is terminal. Nothing is ever decoded twice and
    /// nothing is dropped but a decoded message's own bytes.
    pub fn deliver(&mut self, data: &[u8], requested: usize) -> (r: Delivery<M>)
        requires
            old(self).wf(),
            old(self).spec_plan() == ReadPlan::Read(requested),
            data@.len() <= requested,
        ensures
            final(self).wf(),
            ({
                let joined = old(self).buf() + data@;
                if data@.len() < requested {
                    &&& r is Starved
                    &&& final(self).buf() == joined
                    &&& final(self).required() == Some((requested - data@.len()) as usize)
                } else {
                    match M::spec_hint(joined) {
                        ParseHint::Complete(n) => match M::spec_parse(joined) {
                            Some(p) => {
                                &&& r matches Delivery::Message(m) && m.deep_view() == p.0
                                &&& final(self).buf() == joined.skip(p.1)
                                &&& final(self).required() is None
                            },
                            None => {
                                &&& r is Invalid
                                &&& final(self).buf() == joined.skip(n as int)
                                &&& final(self).required() is None
                            },
                        },
                        ParseHint::Incomplete(k) => {
                            &&& r is Retry
                            &&& final(self).buf() == joined
                            &&& final(self).required() == Some(k)
                        },
                        ParseHint::Invalid => {
                            &&& r is Invalid
                            &&& final(self).buf() == joined
                            &&& final(self).required() == old(self).required()
                        },
                    }
                }
            }),
    {
        let ghost oldbuf = self.buffer@;
        let ghost joined = self.buffer@ + data@;
        self.buffer.extend_from_slice(data);
        proof {
            assert(self.buffer@ =~= joined);
        }
        if data.len() < requested {
            self.bytes_required = Some(requested - data.len());
            proof {
                let short = (requested - data@.len()) as usize;
                assert forall|ext: Seq<u8>| ext.len() < short
                    implies M::spec_parse(joined + ext) is None by {
                    assert(joined + ext =~= oldbuf + (data@ + ext));
                    match old(self).required() {
                        Some(k) => {},
                        None => {
                            if oldbuf.len() == 0 {
                                assert(joined + ext =~= data@ + ext);
                                M::lemma_min_size(data@ + ext);
                            } else {
                                M::lemma_hint(oldbuf);
                            }
                        },
                    }
                }
            }
            return Delivery::Starved;
        }
        match M::parse_hint(self.buffer.as_slice()) {
            ParseHint::Complete(n) => {
                proof {
                    M::lemma_hint(joined);
                }
                match M::deserialize(self.buffer.as_slice()) {
                    Ok((m, tail)) => {
                        let rest = vstd::slice::slice_to_vec(tail);
                        self.buffer = rest;
                        self.bytes_required = None;
                        Delivery::Message(m)
                    },
                    Err(()) => {
                        let rest = vstd::slice::slice_to_vec(
                            vstd::slice::slice_subrange(self.buffer.as_slice(), n, self.buffer.len()),
                        );
                        self.buffer = rest;
                        self.bytes_required = None;
                        Delivery::Invalid
                    },
                }
            },
            ParseHint::Incomplete(k) => {
                self.bytes_required = Some(k);
                proof {
                    M::lemma_hint(joined);
                }
                Delivery::Retry
            },
            ParseHint::Invalid => {
                proof {
                    M::lemma_hint(joined);
                }
                Delivery::Invalid
            },
        }
    }
}

/// Encode a message for sending. The bytes, if any, are exactly the
/// message's wire encoding; a message that cannot be legally encoded (an
/// oversized sequence) is rejected as `Invalid` before anything touches the
/// stream.
pub fn encode_message<M: Serial>(m: &M) -> (r: Result<Vec<u8>, SendResult>)
    ensures
        match r {
            Ok(b) => m.spec_ser() == Some(b@),
            Err(e) => e == SendResult::Invalid && m.spec_ser() is None,
        },
{
    match m.serialize() {
        Ok(b) => Ok(b),
        Err(()) => Err(SendResult::Invalid),
    }
}

} // verus!
