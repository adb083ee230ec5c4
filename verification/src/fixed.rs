//! Fixed-width integer codecs: 8/16/32/64/128-bit, signed and unsigned,
//! all in big-endian byte order.

use vstd::prelude::*;
use crate::protocol::{ParseHint, Serial};

verus! {

/// A codec whose every value encodes to the same number of bytes, and whose
/// parse succeeds exactly when that many bytes are available. The
/// length-prefixed sequence codec is generic over such element types.
pub trait FixedWidth: Serial {
    /// Every value has an encoding, of exactly `spec_min_size` bytes.
    proof fn lemma_fixed_ser(&self)
        ensures
            self.spec_ser() matches Some(e) && e.len() == Self::spec_min_size(),
    ;

    /// Any input of at least `spec_min_size` bytes parses, consuming exactly
    /// `spec_min_size` bytes.
    proof fn lemma_fixed_parse(bytes: Seq<u8>)
        requires
            bytes.len() >= Self::spec_min_size(),
        ensures
            Self::spec_parse(bytes) matches Some(p) && p.1 == Self::spec_min_size(),
    ;
}

impl Serial for u8 {
    open spec fn spec_ser(&self) -> Option<Seq<u8>> {
        Some(seq![*self])
    }

    open spec fn spec_parse(bytes: Seq<u8>) -> Option<(u8, int)> {
        if bytes.len() >= 1 {
            Some((bytes[0], 1))
        } else {
            None
        }
    }

    open spec fn spec_hint(bytes: Seq<u8>) -> ParseHint {
        if bytes.len() >= 1 {
            ParseHint::Complete(1)
        } else {
            ParseHint::Incomplete(1)
        }
    }

    open spec fn spec_min_size() -> int {
        1
    }

    fn serialize(&self) -> (r: Result<Vec<u8>, ()>) {
        let mut b: Vec<u8> = Vec::new();
        b.push(*self);
        proof {
            assert(b@ =~= seq![*self]);
        }
        Ok(b)
    }

    fn deserialize(bytes: &[u8]) -> (r: Result<(u8, &[u8]), ()>) {
        if bytes.len() < 1 {
            Err(())
        } else {
            let v = *vstd::slice::slice_index_get(bytes, 0);
            let tail = vstd::slice::slice_subrange(bytes, 1, bytes.len());
            Ok((v, tail))
        }
    }

    fn minimum_size() -> (n: usize) {
        1
    }

    fn parse_hint(bytes: &[u8]) -> (h: ParseHint) {
        if bytes.len() >= 1 {
            ParseHint::Complete(1)
        } else {
            ParseHint::Incomplete(1)
        }
    }

    proof fn lemma_parse_bound(bytes: Seq<u8>) {
    }

    proof fn lemma_parse_extend(bytes: Seq<u8>, ext: Seq<u8>) {
    }

    proof fn lemma_hint(bytes: Seq<u8>) {
    }

    proof fn lemma_min_size(bytes: Seq<u8>) {
    }

    proof fn lemma_roundtrip(&self) {
    }
}

impl FixedWidth for u8 {
    proof fn lemma_fixed_ser(&self) {
    }

    proof fn lemma_fixed_parse(bytes: Seq<u8>) {
    }
}

/// The big-endian bytes of a `u16` value.
pub open spec fn be_u16(x: u16) -> Seq<u8> {
    seq![
        ((x >> 8) as u8),
        (x as u8),
    ]
}

/// The `u16` value read from 2 big-endian bytes.
pub open spec fn rd_u16(b: Seq<u8>) -> u16
    recommends
        b.len() >= 2,
{
    (((b[0] as u16) << 8)) | (b[1] as u16)
}

/// The big-endian bytes of a `u32` value.
pub open spec fn be_u32(x: u32) -> Seq<u8> {
    seq![
        ((x >> 24) as u8),
        ((x >> 16) as u8),
        ((x >> 8) as u8),
        (x as u8),
    ]
}

/// The `u32` value read from 4 big-endian bytes.
pub open spec fn rd_u32(b: Seq<u8>) -> u32
    recommends
        b.len() >= 4,
{
    (((b[0] as u32) << 24)) | (((b[1] as u32) << 16)) | (((b[2] as u32) << 8)) | (b[3] as u32)
}

/// The big-endian bytes of a `u64` value.
pub open spec fn be_u64(x: u64) -> Seq<u8> {
    seq![
        ((x >> 56) as u8),
        ((x >> 48) as u8),
        ((x >> 40) as u8),
        ((x >> 32) as u8),
        ((x >> 24) as u8),
        ((x >> 16) as u8),
        ((x >> 8) as u8),
        (x as u8),
    ]
}

/// The `u64` value read from 8 big-endian bytes.
pub open spec fn rd_u64(b: Seq<u8>) -> u64
    recommends
        b.len() >= 8,
{
    (((b[0] as u64) << 56)) | (((b[1] as u64) << 48)) | (((b[2] as u64) << 40)) | (((b[3] as u64) << 32)) | (((b[4] as u64) << 24)) | (((b[5] as u64) << 16)) | (((b[6] as u64) << 8)) | (b[7] as u64)
}

/// The big-endian bytes of a `u128` value.
pub open spec fn be_u128(x: u128) -> Seq<u8> {
    seq![
        ((x >> 120) as u8),
        ((x >> 112) as u8),
        ((x >> 104) as u8),
        ((x >> 96) as u8),
        ((x >> 88) as u8),
        ((x >> 80) as u8),
        ((x >> 72) as u8),
        ((x >> 64) as u8),
        ((x >> 56) as u8),
        ((x >> 48) as u8),
        ((x >> 40) as u8),
        ((x >> 32) as u8),
        ((x >> 24) as u8),
        ((x >> 16) as u8),
        ((x >> 8) as u8),
        (x as u8),
    ]
}

/// The `u128` value read from 16 big-endian bytes.
pub open spec fn rd_u128(b: Seq<u8>) -> u128
    recommends
        b.len() >= 16,
{
    (((b[0] as u128) << 120)) | (((b[1] as u128) << 112)) | (((b[2] as u128) << 104)) | (((b[3] as u128) << 96)) | (((b[4] as u128) << 88)) | (((b[5] as u128) << 80)) | (((b[6] as u128) << 72)) | (((b[7] as u128) << 64)) | (((b[8] as u128) << 56)) | (((b[9] as u128) << 48)) | (((b[10] as u128) << 40)) | (((b[11] as u128) << 32)) | (((b[12] as u128) << 24)) | (((b[13] as u128) << 16)) | (((b[14] as u128) << 8)) | (b[15] as u128)
}

impl Serial for i8 {
    open spec fn spec_ser(&self) -> Option<Seq<u8>> {
        Some(seq![(*self as u8)])
    }

    open spec fn spec_parse(bytes: Seq<u8>) -> Option<(i8, int)> {
        if bytes.len() >= 1 {
            Some(((bytes[0] as i8), 1))
        } else {
            None
        }
    }

    open spec fn spec_hint(bytes: Seq<u8>) -> ParseHint {
        if bytes.len() >= 1 {
            ParseHint::Complete(1)
        } else {
            ParseHint::Incomplete(1)
        }
    }

    open spec fn spec_min_size() -> int {
        1
    }

    fn serialize(&self) -> (r: Result<Vec<u8>, ()>) {
        let u: u8 = #[verifier::truncate] (*self as u8);
        u.serialize()
    }

    fn deserialize(bytes: &[u8]) -> (r: Result<(i8, &[u8]), ()>) {
        match <u8 as Serial>::deserialize(bytes) {
            Ok((v, tail)) => Ok((#[verifier::truncate] (v as i8), tail)),
            Err(()) => Err(()),
        }
    }

    fn minimum_size() -> (n: usize) {
        1
    }

    fn parse_hint(bytes: &[u8]) -> (h: ParseHint) {
        <u8 as Serial>::parse_hint(bytes)
    }

    proof fn lemma_parse_bound(bytes: Seq<u8>) {
    }

    proof fn lemma_parse_extend(bytes: Seq<u8>, ext: Seq<u8>) {
    }

    proof fn lemma_hint(bytes: Seq<u8>) {
    }

    proof fn lemma_min_size(bytes: Seq<u8>) {
    }

    proof fn lemma_roundtrip(&self) {
        let x = *self;
        assert((x as u8) as i8 == x) by (bit_vector);
    }
}

impl FixedWidth for i8 {
    proof fn lemma_fixed_ser(&self) {
    }

    proof fn lemma_fixed_parse(bytes: Seq<u8>) {
    }
}

impl Serial for u16 {
    open spec fn spec_ser(&self) -> Option<Seq<u8>> {
        Some(be_u16(*self))
    }

    open spec fn spec_parse(bytes: Seq<u8>) -> Option<(u16, int)> {
        if bytes.len() >= 2 {
            Some((rd_u16(bytes), 2))
        } else {
            None
        }
    }

    open spec fn spec_hint(bytes: Seq<u8>) -> ParseHint {
        if bytes.len() >= 2 {
            ParseHint::Complete(2)
        } else {
            ParseHint::Incomplete((2 - bytes.len()) as usize)
        }
    }

    open spec fn spec_min_size() -> int {
        2
    }

    fn serialize(&self) -> (r: Result<Vec<u8>, ()>) {
        let x = *self;
        let mut b: Vec<u8> = Vec::new();
        b.push(#[verifier::truncate] ((x >> 8) as u8));
        b.push(#[verifier::truncate] (x as u8));
        proof {
            assert(b@ =~= be_u16(x));
        }
        Ok(b)
    }

    fn deserialize(bytes: &[u8]) -> (r: Result<(u16, &[u8]), ()>) {
        if bytes.len() < 2 {
            Err(())
        } else {
            let b0 = *vstd::slice::slice_index_get(bytes, 0);
            let b1 = *vstd::slice::slice_index_get(bytes, 1);
            let v = ((b0 as u16) << 8) | (b1 as u16);
            let tail = vstd::slice::slice_subrange(bytes, 2, bytes.len());
            Ok((v, tail))
        }
    }

    fn minimum_size() -> (n: usize) {
        2
    }

    fn parse_hint(bytes: &[u8]) -> (h: ParseHint) {
        if bytes.len() >= 2 {
            ParseHint::Complete(2)
        } else {
            ParseHint::Incomplete(2 - bytes.len())
        }
    }

    proof fn lemma_parse_bound(bytes: Seq<u8>) {
    }

    proof fn lemma_parse_extend(bytes: Seq<u8>, ext: Seq<u8>) {
    }

    proof fn lemma_hint(bytes: Seq<u8>) {
    }

    proof fn lemma_min_size(bytes: Seq<u8>) {
    }

    proof fn lemma_roundtrip(&self) {
        let x = *self;
        assert((((x >> 8) as u8 as u16) << 8) | ((x as u8) as u16) == x) by (bit_vector);
        assert(rd_u16(be_u16(x)) == x);
    }
}

impl FixedWidth for u16 {
    proof fn lemma_fixed_ser(&self) {
    }

    proof fn lemma_fixed_parse(bytes: Seq<u8>) {
    }
}

impl Serial for i16 {
    open spec fn spec_ser(&self) -> Option<Seq<u8>> {
        Some(be_u16(*self as u16))
    }

    open spec fn spec_parse(bytes: Seq<u8>) -> Option<(i16, int)> {
        if bytes.len() >= 2 {
            Some(((rd_u16(bytes) as i16), 2))
        } else {
            None
        }
    }

    open spec fn spec_hint(bytes: Seq<u8>) -> ParseHint {
        if bytes.len() >= 2 {
            ParseHint::Complete(2)
        } else {
            ParseHint::Incomplete((2 - bytes.len()) as usize)
        }
    }

    open spec fn spec_min_size() -> int {
        2
    }

    fn serialize(&self) -> (r: Result<Vec<u8>, ()>) {
        let u: u16 = #[verifier::truncate] (*self as u16);
        u.serialize()
    }

    fn deserialize(bytes: &[u8]) -> (r: Result<(i16, &[u8]), ()>) {
        match <u16 as Serial>::deserialize(bytes) {
            Ok((v, tail)) => Ok((#[verifier::truncate] (v as i16), tail)),
            Err(()) => Err(()),
        }
    }

    fn minimum_size() -> (n: usize) {
        2
    }

    fn parse_hint(bytes: &[u8]) -> (h: ParseHint) {
        <u16 as Serial>::parse_hint(bytes)
    }

    proof fn lemma_parse_bound(bytes: Seq<u8>) {
    }

    proof fn lemma_parse_extend(bytes: Seq<u8>, ext: Seq<u8>) {
    }

    proof fn lemma_hint(bytes: Seq<u8>) {
    }

    proof fn lemma_min_size(bytes: Seq<u8>) {
    }

    proof fn lemma_roundtrip(&self) {
        let x = *self;
        assert(((((x as u16) >> 8) as u8 as u16) << 8) | (((x as u16) as u8) as u16) == (x as u16)) by (bit_vector);
        assert((x as u16) as i16 == x) by (bit_vector);
        assert(rd_u16(be_u16(x as u16)) == (x as u16));
    }
}

impl FixedWidth for i16 {
    proof fn lemma_fixed_ser(&self) {
    }

    proof fn lemma_fixed_parse(bytes: Seq<u8>) {
    }
}

impl Serial for u32 {
    open spec fn spec_ser(&self) -> Option<Seq<u8>> {
        Some(be_u32(*self))
    }

    open spec fn spec_parse(bytes: Seq<u8>) -> Option<(u32, int)> {
        if bytes.len() >= 4 {
            Some((rd_u32(bytes), 4))
        } else {
            None
        }
    }

    open spec fn spec_hint(bytes: Seq<u8>) -> ParseHint {
        if bytes.len() >= 4 {
            ParseHint::Complete(4)
        } else {
            ParseHint::Incomplete((4 - bytes.len()) as usize)
        }
    }

    open spec fn spec_min_size() -> int {
        4
    }

    fn serialize(&self) -> (r: Result<Vec<u8>, ()>) {
        let x = *self;
        let mut b: Vec<u8> = Vec::new();
        b.push(#[verifier::truncate] ((x >> 24) as u8));
        b.push(#[verifier::truncate] ((x >> 16) as u8));
        b.push(#[verifier::truncate] ((x >> 8) as u8));
        b.push(#[verifier::truncate] (x as u8));
        proof {
            assert(b@ =~= be_u32(x));
        }
        Ok(b)
    }

    fn deserialize(bytes: &[u8]) -> (r: Result<(u32, &[u8]), ()>) {
        if bytes.len() < 4 {
            Err(())
        } else {
            let b0 = *vstd::slice::slice_index_get(bytes, 0);
            let b1 = *vstd::slice::slice_index_get(bytes, 1);
            let b2 = *vstd::slice::slice_index_get(bytes, 2);
            let b3 = *vstd::slice::slice_index_get(bytes, 3);
            let v = ((b0 as u32) << 24) | ((b1 as u32) << 16) | ((b2 as u32) << 8) | (b3 as u32);
            let tail = vstd::slice::slice_subrange(bytes, 4, bytes.len());
            Ok((v, tail))
        }
    }

    fn minimum_size() -> (n: usize) {
        4
    }

    fn parse_hint(bytes: &[u8]) -> (h: ParseHint) {
        if bytes.len() >= 4 {
            ParseHint::Complete(4)
        } else {
            ParseHint::Incomplete(4 - bytes.len())
        }
    }

    proof fn lemma_parse_bound(bytes: Seq<u8>) {
    }

    proof fn lemma_parse_extend(bytes: Seq<u8>, ext: Seq<u8>) {
    }

    proof fn lemma_hint(bytes: Seq<u8>) {
    }

    proof fn lemma_min_size(bytes: Seq<u8>) {
    }

    proof fn lemma_roundtrip(&self) {
        let x = *self;
        assert((((x >> 24) as u8 as u32) << 24) | (((x >> 16) as u8 as u32) << 16) | (((x >> 8) as u8 as u32) << 8) | ((x as u8) as u32) == x) by (bit_vector);
        assert(rd_u32(be_u32(x)) == x);
    }
}

impl FixedWidth for u32 {
    proof fn lemma_fixed_ser(&self) {
    }

    proof fn lemma_fixed_parse(bytes: Seq<u8>) {
    }
}

impl Serial for i32 {
    open spec fn spec_ser(&self) -> Option<Seq<u8>> {
        Some(be_u32(*self as u32))
    }

    open spec fn spec_parse(bytes: Seq<u8>) -> Option<(i32, int)> {
        if bytes.len() >= 4 {
            Some(((rd_u32(bytes) as i32), 4))
        } else {
            None
        }
    }

    open spec fn spec_hint(bytes: Seq<u8>) -> ParseHint {
        if bytes.len() >= 4 {
            ParseHint::Complete(4)
        } else {
            ParseHint::Incomplete((4 - bytes.len()) as usize)
        }
    }

    open spec fn spec_min_size() -> int {
        4
    }

    fn serialize(&self) -> (r: Result<Vec<u8>, ()>) {
        let u: u32 = #[verifier::truncate] (*self as u32);
        u.serialize()
    }

    fn deserialize(bytes: &[u8]) -> (r: Result<(i32, &[u8]), ()>) {
        match <u32 as Serial>::deserialize(bytes) {
            Ok((v, tail)) => Ok((#[verifier::truncate] (v as i32), tail)),
            Err(()) => Err(()),
        }
    }

    fn minimum_size() -> (n: usize) {
        4
    }

    fn parse_hint(bytes: &[u8]) -> (h: ParseHint) {
        <u32 as Serial>::parse_hint(bytes)
    }

    proof fn lemma_parse_bound(bytes: Seq<u8>) {
    }

    proof fn lemma_parse_extend(bytes: Seq<u8>, ext: Seq<u8>) {
    }

    proof fn lemma_hint(bytes: Seq<u8>) {
    }

    proof fn lemma_min_size(bytes: Seq<u8>) {
    }

    proof fn lemma_roundtrip(&self) {
        let x = *self;
        assert(((((x as u32) >> 24) as u8 as u32) << 24) | ((((x as u32) >> 16) as u8 as u32) << 16) | ((((x as u32) >> 8) as u8 as u32) << 8) | (((x as u32) as u8) as u32) == (x as u32)) by (bit_vector);
        assert((x as u32) as i32 == x) by (bit_vector);
        assert(rd_u32(be_u32(x as u32)) == (x as u32));
    }
}

impl FixedWidth for i32 {
    proof fn lemma_fixed_ser(&self) {
    }

    proof fn lemma_fixed_parse(bytes: Seq<u8>) {
    }
}

impl Serial for u64 {
    open spec fn spec_ser(&self) -> Option<Seq<u8>> {
        Some(be_u64(*self))
    }

    open spec fn spec_parse(bytes: Seq<u8>) -> Option<(u64, int)> {
        if bytes.len() >= 8 {
            Some((rd_u64(bytes), 8))
        } else {
            None
        }
    }

    open spec fn spec_hint(bytes: Seq<u8>) -> ParseHint {
        if bytes.len() >= 8 {
            ParseHint::Complete(8)
        } else {
            ParseHint::Incomplete((8 - bytes.len()) as usize)
        }
    }

    open spec fn spec_min_size() -> int {
        8
    }

    fn serialize(&self) -> (r: Result<Vec<u8>, ()>) {
        let x = *self;
        let mut b: Vec<u8> = Vec::new();
        b.push(#[verifier::truncate] ((x >> 56) as u8));
        b.push(#[verifier::truncate] ((x >> 48) as u8));
        b.push(#[verifier::truncate] ((x >> 40) as u8));
        b.push(#[verifier::truncate] ((x >> 32) as u8));
        b.push(#[verifier::truncate] ((x >> 24) as u8));
        b.push(#[verifier::truncate] ((x >> 16) as u8));
        b.push(#[verifier::truncate] ((x >> 8) as u8));
        b.push(#[verifier::truncate] (x as u8));
        proof {
            assert(b@ =~= be_u64(x));
        }
        Ok(b)
    }

    fn deserialize(bytes: &[u8]) -> (r: Result<(u64, &[u8]), ()>) {
        if bytes.len() < 8 {
            Err(())
        } else {
            let b0 = *vstd::slice::slice_index_get(bytes, 0);
            let b1 = *vstd::slice::slice_index_get(bytes, 1);
            let b2 = *vstd::slice::slice_index_get(bytes, 2);
            let b3 = *vstd::slice::slice_index_get(bytes, 3);
            let b4 = *vstd::slice::slice_index_get(bytes, 4);
            let b5 = *vstd::slice::slice_index_get(bytes, 5);
            let b6 = *vstd::slice::slice_index_get(bytes, 6);
            let b7 = *vstd::slice::slice_index_get(bytes, 7);
            let v = ((b0 as u64) << 56) | ((b1 as u64) << 48) | ((b2 as u64) << 40) | ((b3 as u64) << 32) | ((b4 as u64) << 24) | ((b5 as u64) << 16) | ((b6 as u64) << 8) | (b7 as u64);
            let tail = vstd::slice::slice_subrange(bytes, 8, bytes.len());
            Ok((v, tail))
        }
    }

    fn minimum_size() -> (n: usize) {
        8
    }

    fn parse_hint(bytes: &[u8]) -> (h: ParseHint) {
        if bytes.len() >= 8 {
            ParseHint::Complete(8)
        } else {
            ParseHint::Incomplete(8 - bytes.len())
        }
    }

    proof fn lemma_parse_bound(bytes: Seq<u8>) {
    }

    proof fn lemma_parse_extend(bytes: Seq<u8>, ext: Seq<u8>) {
    }

    proof fn lemma_hint(bytes: Seq<u8>) {
    }

    proof fn lemma_min_size(bytes: Seq<u8>) {
    }

    proof fn lemma_roundtrip(&self) {
        let x = *self;
        assert((((x >> 56) as u8 as u64) << 56) | (((x >> 48) as u8 as u64) << 48) | (((x >> 40) as u8 as u64) << 40) | (((x >> 32) as u8 as u64) << 32) | (((x >> 24) as u8 as u64) << 24) | (((x >> 16) as u8 as u64) << 16) | (((x >> 8) as u8 as u64) << 8) | ((x as u8) as u64) == x) by (bit_vector);
        assert(rd_u64(be_u64(x)) == x);
    }
}

impl FixedWidth for u64 {
    proof fn lemma_fixed_ser(&self) {
    }

    proof fn lemma_fixed_parse(bytes: Seq<u8>) {
    }
}

impl Serial for i64 {
    open spec fn spec_ser(&self) -> Option<Seq<u8>> {
        Some(be_u64(*self as u64))
    }

    open spec fn spec_parse(bytes: Seq<u8>) -> Option<(i64, int)> {
        if bytes.len() >= 8 {
            Some(((rd_u64(bytes) as i64), 8))
        } else {
            None
        }
    }

    open spec fn spec_hint(bytes: Seq<u8>) -> ParseHint {
        if bytes.len() >= 8 {
            ParseHint::Complete(8)
        } else {
            ParseHint::Incomplete((8 - bytes.len()) as usize)
        }
    }

    open spec fn spec_min_size() -> int {
        8
    }

    fn serialize(&self) -> (r: Result<Vec<u8>, ()>) {
        let u: u64 = #[verifier::truncate] (*self as u64);
        u.serialize()
    }

    fn deserialize(bytes: &[u8]) -> (r: Result<(i64, &[u8]), ()>) {
        match <u64 as Serial>::deserialize(bytes) {
            Ok((v, tail)) => Ok((#[verifier::truncate] (v as i64), tail)),
            Err(()) => Err(()),
        }
    }

    fn minimum_size() -> (n: usize) {
        8
    }

    fn parse_hint(bytes: &[u8]) -> (h: ParseHint) {
        <u64 as Serial>::parse_hint(bytes)
    }

    proof fn lemma_parse_bound(bytes: Seq<u8>) {
    }

    proof fn lemma_parse_extend(bytes: Seq<u8>, ext: Seq<u8>) {
    }

    proof fn lemma_hint(bytes: Seq<u8>) {
    }

    proof fn lemma_min_size(bytes: Seq<u8>) {
    }

    proof fn lemma_roundtrip(&self) {
        let x = *self;
        assert(((((x as u64) >> 56) as u8 as u64) << 56) | ((((x as u64) >> 48) as u8 as u64) << 48) | ((((x as u64) >> 40) as u8 as u64) << 40) | ((((x as u64) >> 32) as u8 as u64) << 32) | ((((x as u64) >> 24) as u8 as u64) << 24) | ((((x as u64) >> 16) as u8 as u64) << 16) | ((((x as u64) >> 8) as u8 as u64) << 8) | (((x as u64) as u8) as u64) == (x as u64)) by (bit_vector);
        assert((x as u64) as i64 == x) by (bit_vector);
        assert(rd_u64(be_u64(x as u64)) == (x as u64));
    }
}

impl FixedWidth for i64 {
    proof fn lemma_fixed_ser(&self) {
    }

    proof fn lemma_fixed_parse(bytes: Seq<u8>) {
    }
}

impl Serial for u128 {
    open spec fn spec_ser(&self) -> Option<Seq<u8>> {
        Some(be_u128(*self))
    }

    open spec fn spec_parse(bytes: Seq<u8>) -> Option<(u128, int)> {
        if bytes.len() >= 16 {
            Some((rd_u128(bytes), 16))
        } else {
            None
        }
    }

    open spec fn spec_hint(bytes: Seq<u8>) -> ParseHint {
        if bytes.len() >= 16 {
            ParseHint::Complete(16)
        } else {
            ParseHint::Incomplete((16 - bytes.len()) as usize)
        }
    }

    open spec fn spec_min_size() -> int {
        16
    }

    fn serialize(&self) -> (r: Result<Vec<u8>, ()>) {
        let x = *self;
        let mut b: Vec<u8> = Vec::new();
        b.push(#[verifier::truncate] ((x >> 120) as u8));
        b.push(#[verifier::truncate] ((x >> 112) as u8));
        b.push(#[verifier::truncate] ((x >> 104) as u8));
        b.push(#[verifier::truncate] ((x >> 96) as u8));
        b.push(#[verifier::truncate] ((x >> 88) as u8));
        b.push(#[verifier::truncate] ((x >> 80) as u8));
        b.push(#[verifier::truncate] ((x >> 72) as u8));
        b.push(#[verifier::truncate] ((x >> 64) as u8));
        b.push(#[verifier::truncate] ((x >> 56) as u8));
        b.push(#[verifier::truncate] ((x >> 48) as u8));
        b.push(#[verifier::truncate] ((x >> 40) as u8));
        b.push(#[verifier::truncate] ((x >> 32) as u8));
        b.push(#[verifier::truncate] ((x >> 24) as u8));
        b.push(#[verifier::truncate] ((x >> 16) as u8));
        b.push(#[verifier::truncate] ((x >> 8) as u8));
        b.push(#[verifier::truncate] (x as u8));
        proof {
            assert(b@ =~= be_u128(x));
        }
        Ok(b)
    }

    fn deserialize(bytes: &[u8]) -> (r: Result<(u128, &[u8]), ()>) {
        if bytes.len() < 16 {
            Err(())
        } else {
            let b0 = *vstd::slice::slice_index_get(bytes, 0);
            let b1 = *vstd::slice::slice_index_get(bytes, 1);
            let b2 = *vstd::slice::slice_index_get(bytes, 2);
            let b3 = *vstd::slice::slice_index_get(bytes, 3);
            let b4 = *vstd::slice::slice_index_get(bytes, 4);
            let b5 = *vstd::slice::slice_index_get(bytes, 5);
            let b6 = *vstd::slice::slice_index_get(bytes, 6);
            let b7 = *vstd::slice::slice_index_get(bytes, 7);
            let b8 = *vstd::slice::slice_index_get(bytes, 8);
            let b9 = *vstd::slice::slice_index_get(bytes, 9);
            let b10 = *vstd::slice::slice_index_get(bytes, 10);
            let b11 = *vstd::slice::slice_index_get(bytes, 11);
            let b12 = *vstd::slice::slice_index_get(bytes, 12);
            let b13 = *vstd::slice::slice_index_get(bytes, 13);
            let b14 = *vstd::slice::slice_index_get(bytes, 14);
            let b15 = *vstd::slice::slice_index_get(bytes, 15);
            let v = ((b0 as u128) << 120) | ((b1 as u128) << 112) | ((b2 as u128) << 104) | ((b3 as u128) << 96) | ((b4 as u128) << 88) | ((b5 as u128) << 80) | ((b6 as u128) << 72) | ((b7 as u128) << 64) | ((b8 as u128) << 56) | ((b9 as u128) << 48) | ((b10 as u128) << 40) | ((b11 as u128) << 32) | ((b12 as u128) << 24) | ((b13 as u128) << 16) | ((b14 as u128) << 8) | (b15 as u128);
            let tail = vstd::slice::slice_subrange(bytes, 16, bytes.len());
            Ok((v, tail))
        }
    }

    fn minimum_size() -> (n: usize) {
        16
    }

    fn parse_hint(bytes: &[u8]) -> (h: ParseHint) {
        if bytes.len() >= 16 {
            ParseHint::Complete(16)
        } else {
            ParseHint::Incomplete(16 - bytes.len())
        }
    }

    proof fn lemma_parse_bound(bytes: Seq<u8>) {
    }

    proof fn lemma_parse_extend(bytes: Seq<u8>, ext: Seq<u8>) {
    }

    proof fn lemma_hint(bytes: Seq<u8>) {
    }

    proof fn lemma_min_size(bytes: Seq<u8>) {
    }

    proof fn lemma_roundtrip(&self) {
        let x = *self;
        assert((((x >> 120) as u8 as u128) << 120) | (((x >> 112) as u8 as u128) << 112) | (((x >> 104) as u8 as u128) << 104) | (((x >> 96) as u8 as u128) << 96) | (((x >> 88) as u8 as u128) << 88) | (((x >> 80) as u8 as u128) << 80) | (((x >> 72) as u8 as u128) << 72) | (((x >> 64) as u8 as u128) << 64) | (((x >> 56) as u8 as u128) << 56) | (((x >> 48) as u8 as u128) << 48) | (((x >> 40) as u8 as u128) << 40) | (((x >> 32) as u8 as u128) << 32) | (((x >> 24) as u8 as u128) << 24) | (((x >> 16) as u8 as u128) << 16) | (((x >> 8) as u8 as u128) << 8) | ((x as u8) as u128) == x) by (bit_vector);
        assert(rd_u128(be_u128(x)) == x);
    }
}

impl FixedWidth for u128 {
    proof fn lemma_fixed_ser(&self) {
    }

    proof fn lemma_fixed_parse(bytes: Seq<u8>) {
    }
}

impl Serial for i128 {
    open spec fn spec_ser(&self) -> Option<Seq<u8>> {
        Some(be_u128(*self as u128))
    }

    open spec fn spec_parse(bytes: Seq<u8>) -> Option<(i128, int)> {
        if bytes.len() >= 16 {
            Some(((rd_u128(bytes) as i128), 16))
        } else {
            None
        }
    }

    open spec fn spec_hint(bytes: Seq<u8>) -> ParseHint {
        if bytes.len() >= 16 {
            ParseHint::Complete(16)
        } else {
            ParseHint::Incomplete((16 - bytes.len()) as usize)
        }
    }

    open spec fn spec_min_size() -> int {
        16
    }

    fn serialize(&self) -> (r: Result<Vec<u8>, ()>) {
        let u: u128 = #[verifier::truncate] (*self as u128);
        u.serialize()
    }

    fn deserialize(bytes: &[u8]) -> (r: Result<(i128, &[u8]), ()>) {
        match <u128 as Serial>::deserialize(bytes) {
            Ok((v, tail)) => Ok((#[verifier::truncate] (v as i128), tail)),
            Err(()) => Err(()),
        }
    }

    fn minimum_size() -> (n: usize) {
        16
    }

    fn parse_hint(bytes: &[u8]) -> (h: ParseHint) {
        <u128 as Serial>::parse_hint(bytes)
    }

    proof fn lemma_parse_bound(bytes: Seq<u8>) {
    }

    proof fn lemma_parse_extend(bytes: Seq<u8>, ext: Seq<u8>) {
    }

    proof fn lemma_hint(bytes: Seq<u8>) {
    }

    proof fn lemma_min_size(bytes: Seq<u8>) {
    }

    proof fn lemma_roundtrip(&self) {
        let x = *self;
        assert(((((x as u128) >> 120) as u8 as u128) << 120) | ((((x as u128) >> 112) as u8 as u128) << 112) | ((((x as u128) >> 104) as u8 as u128) << 104) | ((((x as u128) >> 96) as u8 as u128) << 96) | ((((x as u128) >> 88) as u8 as u128) << 88) | ((((x as u128) >> 80) as u8 as u128) << 80) | ((((x as u128) >> 72) as u8 as u128) << 72) | ((((x as u128) >> 64) as u8 as u128) << 64) | ((((x as u128) >> 56) as u8 as u128) << 56) | ((((x as u128) >> 48) as u8 as u128) << 48) | ((((x as u128) >> 40) as u8 as u128) << 40) | ((((x as u128) >> 32) as u8 as u128) << 32) | ((((x as u128) >> 24) as u8 as u128) << 24) | ((((x as u128) >> 16) as u8 as u128) << 16) | ((((x as u128) >> 8) as u8 as u128) << 8) | (((x as u128) as u8) as u128) == (x as u128)) by (bit_vector);
        assert((x as u128) as i128 == x) by (bit_vector);
        assert(rd_u128(be_u128(x as u128)) == (x as u128));
    }
}

impl FixedWidth for i128 {
    proof fn lemma_fixed_ser(&self) {
    }

    proof fn lemma_fixed_parse(bytes: Seq<u8>) {
    }
}

} // verus!
