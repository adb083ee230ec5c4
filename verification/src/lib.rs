//! A small binary wire-protocol toolkit: big-endian integer codecs,
//! length-prefixed sequences, tagged-union message codecs composed from
//! them, and a connection layer that reassembles whole messages out of
//! arbitrarily fragmented non-blocking reads.

pub mod connection;
pub mod fixed;
pub mod laws;
pub mod protocol;
pub mod sample;
pub mod sequences;
