use wirecodec::protocol::{ParseHint, Serial};
use wirecodec::sample::Sample;
use wirecodec::connection::{encode_message, SendResult};

#[test]
fn u8_round_trip() {
    let b = 0xabu8.serialize().unwrap();
    assert_eq!(b, vec![0xab]);
    let (v, tail) = <u8 as Serial>::deserialize(&b).unwrap();
    assert_eq!(v, 0xab);
    assert_eq!(tail.len(), 0);
}

#[test]
fn u16_round_trip() {
    let b = 0x0102u16.serialize().unwrap();
    assert_eq!(b, vec![1, 2]);
    let (v, tail) = <u16 as Serial>::deserialize(&b).unwrap();
    assert_eq!(v, 0x0102);
    assert_eq!(tail.len(), 0);
}

#[test]
fn u32_round_trip() {
    let b = 0xdeadbeefu32.serialize().unwrap();
    assert_eq!(b, vec![0xde, 0xad, 0xbe, 0xef]);
    let (v, tail) = <u32 as Serial>::deserialize(&b).unwrap();
    assert_eq!(v, 0xdeadbeef);
    assert_eq!(tail.len(), 0);
}

#[test]
fn u64_round_trip() {
    let b = 0x0102030405060708u64.serialize().unwrap();
    assert_eq!(b, vec![1, 2, 3, 4, 5, 6, 7, 8]);
    let (v, _) = <u64 as Serial>::deserialize(&b).unwrap();
    assert_eq!(v, 0x0102030405060708);
}

#[test]
fn u128_round_trip() {
    let x = 0x0102030405060708090a0b0c0d0e0f10u128;
    let b = x.serialize().unwrap();
    assert_eq!(b.len(), 16);
    assert_eq!(b[0], 1);
    assert_eq!(b[15], 0x10);
    let (v, _) = <u128 as Serial>::deserialize(&b).unwrap();
    assert_eq!(v, x);
}

#[test]
fn signed_round_trips() {
    let b = (-2i8).serialize().unwrap();
    assert_eq!(b, vec![0xfe]);
    let (v, _) = <i8 as Serial>::deserialize(&b).unwrap();
    assert_eq!(v, -2);

    let b = (-1i16).serialize().unwrap();
    assert_eq!(b, vec![0xff, 0xff]);
    let (v, _) = <i16 as Serial>::deserialize(&b).unwrap();
    assert_eq!(v, -1);

    let b = (-2i32).serialize().unwrap();
    assert_eq!(b, vec![0xff, 0xff, 0xff, 0xfe]);
    let (v, _) = <i32 as Serial>::deserialize(&b).unwrap();
    assert_eq!(v, -2);

    let b = i64::MIN.serialize().unwrap();
    assert_eq!(b, vec![0x80, 0, 0, 0, 0, 0, 0, 0]);
    let (v, _) = <i64 as Serial>::deserialize(&b).unwrap();
    assert_eq!(v, i64::MIN);

    let b = (-1i128).serialize().unwrap();
    assert_eq!(b, vec![0xff; 16]);
    let (v, _) = <i128 as Serial>::deserialize(&b).unwrap();
    assert_eq!(v, -1);
}

#[test]
fn integer_probe_by_width() {
    assert_eq!(<u32 as Serial>::parse_hint(&[1, 2]), ParseHint::Incomplete(2));
    assert_eq!(<u32 as Serial>::parse_hint(&[1, 2, 3, 4]), ParseHint::Complete(4));
    assert_eq!(<u32 as Serial>::parse_hint(&[1, 2, 3, 4, 5]), ParseHint::Complete(4));
    assert!(<u32 as Serial>::deserialize(&[1, 2]).is_err());
    assert_eq!(<u32 as Serial>::minimum_size(), 4);
    assert_eq!(<u128 as Serial>::minimum_size(), 16);
}

#[test]
fn deserialize_leaves_tail() {
    let bytes = [0, 0, 0, 7, 9, 9];
    let (v, tail) = <u32 as Serial>::deserialize(&bytes).unwrap();
    assert_eq!(v, 7);
    assert_eq!(tail, &[9, 9]);
}

#[test]
fn vec_round_trip() {
    let v: Vec<u32> = vec![10, 20];
    let b = v.serialize().unwrap();
    assert_eq!(b, vec![0, 8, 0, 0, 0, 10, 0, 0, 0, 20]);
    let (w, tail) = <Vec<u32> as Serial>::deserialize(&b).unwrap();
    assert_eq!(w, v);
    assert_eq!(tail.len(), 0);
}

#[test]
fn vec_empty_round_trip() {
    let v: Vec<u16> = vec![];
    let b = v.serialize().unwrap();
    assert_eq!(b, vec![0, 0]);
    let (w, tail) = <Vec<u16> as Serial>::deserialize(&b).unwrap();
    assert_eq!(w, v);
    assert_eq!(tail.len(), 0);
}

#[test]
fn vec_probe_counts_payload() {
    // prefix itself missing
    assert_eq!(<Vec<u32> as Serial>::parse_hint(&[]), ParseHint::Incomplete(2));
    assert_eq!(<Vec<u32> as Serial>::parse_hint(&[0]), ParseHint::Incomplete(1));
    // declared 8 payload bytes, 4 present
    assert_eq!(
        <Vec<u32> as Serial>::parse_hint(&[0, 8, 0, 0, 0, 10]),
        ParseHint::Incomplete(4)
    );
    assert_eq!(
        <Vec<u32> as Serial>::parse_hint(&[0, 8, 0, 0, 0, 10, 0, 0, 0, 20]),
        ParseHint::Complete(10)
    );
}

#[test]
fn vec_misaligned_length_rejected() {
    // declares 2 payload bytes, which is no multiple of the 4-byte element
    let bytes = [0, 2, 0, 0];
    assert_eq!(<Vec<u32> as Serial>::parse_hint(&bytes), ParseHint::Complete(4));
    assert!(<Vec<u32> as Serial>::deserialize(&bytes).is_err());
}

#[test]
fn vec_short_payload_rejected() {
    // declares 8 payload bytes, only 4 present
    let bytes = [0, 8, 0, 0, 0, 10];
    assert!(<Vec<u32> as Serial>::deserialize(&bytes).is_err());
}

#[test]
fn oversized_sequence_rejected() {
    let v: Vec<u8> = vec![0; 65536];
    assert!(v.serialize().is_err());
    assert_eq!(encode_message(&v).unwrap_err(), SendResult::Invalid);
    let w: Vec<u8> = vec![0; 65535];
    assert!(w.serialize().is_ok());
}

#[test]
fn oversized_wide_sequence_rejected() {
    // 8192 elements of 8 bytes each would need 65536 payload bytes
    let v: Vec<u64> = vec![0; 8192];
    assert!(v.serialize().is_err());
    let w: Vec<u64> = vec![1; 8191];
    let b = w.serialize().unwrap();
    assert_eq!(b.len(), 2 + 8191 * 8);
}

#[test]
fn ping_encodes_to_discriminant_alone() {
    let b = Sample::Ping.serialize().unwrap();
    assert_eq!(b, vec![0]);
    let (m, tail) = <Sample as Serial>::deserialize(&b).unwrap();
    assert_eq!(m, Sample::Ping);
    assert_eq!(tail.len(), 0);
}

#[test]
fn report_encodes_to_ten_bytes() {
    let b = Sample::Report(10, 20, 65).serialize().unwrap();
    assert_eq!(b, vec![1, 0, 0, 0, 10, 0, 0, 0, 20, 65]);
    let (m, tail) = <Sample as Serial>::deserialize(&b).unwrap();
    assert_eq!(m, Sample::Report(10, 20, 65));
    assert_eq!(tail.len(), 0);
}

#[test]
fn data_round_trip() {
    let b = Sample::Data(vec![1, 2, 3]).serialize().unwrap();
    assert_eq!(b, vec![2, 0, 3, 1, 2, 3]);
    let (m, tail) = <Sample as Serial>::deserialize(&b).unwrap();
    assert_eq!(m, Sample::Data(vec![1, 2, 3]));
    assert_eq!(tail.len(), 0);
}

#[test]
fn sample_probe_walks_fields() {
    assert_eq!(<Sample as Serial>::minimum_size(), 1);
    assert_eq!(<Sample as Serial>::parse_hint(&[]), ParseHint::Incomplete(1));
    assert_eq!(<Sample as Serial>::parse_hint(&[0]), ParseHint::Complete(1));
    // discriminant 1 needs nine more field bytes
    assert_eq!(<Sample as Serial>::parse_hint(&[1]), ParseHint::Incomplete(9));
    assert_eq!(<Sample as Serial>::parse_hint(&[1, 0, 0, 0, 10]), ParseHint::Incomplete(5));
    assert_eq!(
        <Sample as Serial>::parse_hint(&[1, 0, 0, 0, 10, 0, 0, 0, 20, 65]),
        ParseHint::Complete(10)
    );
    // discriminant 2 defers to the sequence codec, shifted by one
    assert_eq!(<Sample as Serial>::parse_hint(&[2]), ParseHint::Incomplete(2));
    assert_eq!(<Sample as Serial>::parse_hint(&[2, 0, 3]), ParseHint::Incomplete(3));
    assert_eq!(<Sample as Serial>::parse_hint(&[2, 0, 3, 1, 2, 3]), ParseHint::Complete(6));
}

#[test]
fn unknown_discriminant_is_invalid() {
    assert_eq!(<Sample as Serial>::parse_hint(&[255]), ParseHint::Invalid);
    assert_eq!(<Sample as Serial>::parse_hint(&[3, 0, 0]), ParseHint::Invalid);
    assert!(<Sample as Serial>::deserialize(&[255]).is_err());
    assert!(<Sample as Serial>::deserialize(&[255, 0, 0, 0, 0]).is_err());
}

#[test]
fn probe_is_idempotent() {
    let bytes = [1, 0, 0, 0, 10];
    let first = <Sample as Serial>::parse_hint(&bytes);
    let second = <Sample as Serial>::parse_hint(&bytes);
    assert_eq!(first, second);
    assert_eq!(first, ParseHint::Incomplete(5));
}

#[test]
fn encode_message_hands_back_wire_bytes() {
    let b = encode_message(&Sample::Report(10, 20, 65)).unwrap();
    assert_eq!(b, vec![1, 0, 0, 0, 10, 0, 0, 0, 20, 65]);
    assert!(encode_message(&Sample::Data(vec![0; 65536])).is_err());
}
