use wirecodec::connection::{Conn, Delivery, ReadPlan, RecvResult};
use wirecodec::protocol::Serial;
use wirecodec::sample::Sample;

/// Serve at most `n` bytes from the front of `source`, the way one
/// non-blocking read would; an empty source would block.
fn take(source: &mut Vec<u8>, n: usize) -> Option<Vec<u8>> {
    if n == 0 {
        return Some(Vec::new());
    }
    if source.is_empty() {
        return None;
    }
    let k = n.min(source.len());
    let head: Vec<u8> = source.drain(..k).collect();
    Some(head)
}

/// One receive attempt, driven the way a connection owner drives it: ask
/// for a plan, perform one read, deliver what arrived, repeat on `Retry`.
fn recv(conn: &mut Conn<Sample>, source: &mut Vec<u8>) -> RecvResult<Sample> {
    loop {
        let n = match conn.plan() {
            ReadPlan::Read(n) => n,
            ReadPlan::Broken => return RecvResult::Invalid,
        };
        let data = match take(source, n) {
            Some(d) => d,
            None => return RecvResult::NotYet,
        };
        match conn.deliver(&data, n) {
            Delivery::Message(m) => return RecvResult::Message(m),
            Delivery::Starved => return RecvResult::NotYet,
            Delivery::Invalid => return RecvResult::Invalid,
            Delivery::Retry => continue,
        }
    }
}

#[test]
fn whole_message_in_one_burst() {
    let mut conn: Conn<Sample> = Conn::new();
    let mut source = Sample::Report(10, 20, 65).serialize().unwrap();
    assert_eq!(recv(&mut conn, &mut source), RecvResult::Message(Sample::Report(10, 20, 65)));
    assert_eq!(conn.buffered(), 0);
    assert_eq!(source.len(), 0);
}

#[test]
fn first_byte_alone_is_not_yet() {
    let mut conn: Conn<Sample> = Conn::new();
    let mut source = vec![1u8];
    assert_eq!(recv(&mut conn, &mut source), RecvResult::NotYet);
    assert_eq!(conn.buffered(), 1);
    source.extend_from_slice(&[0, 0, 0, 10, 0, 0, 0, 20, 65]);
    assert_eq!(recv(&mut conn, &mut source), RecvResult::Message(Sample::Report(10, 20, 65)));
    assert_eq!(conn.buffered(), 0);
}

#[test]
fn byte_by_byte_fragmentation() {
    let encoded = Sample::Report(10, 20, 65).serialize().unwrap();
    let mut conn: Conn<Sample> = Conn::new();
    let mut source: Vec<u8> = Vec::new();
    for (i, byte) in encoded.iter().enumerate() {
        source.push(*byte);
        let out = recv(&mut conn, &mut source);
        if i + 1 < encoded.len() {
            assert_eq!(out, RecvResult::NotYet);
        } else {
            assert_eq!(out, RecvResult::Message(Sample::Report(10, 20, 65)));
        }
    }
    assert_eq!(conn.buffered(), 0);
}

#[test]
fn fragmented_data_message() {
    let encoded = Sample::Data(vec![7, 8, 9]).serialize().unwrap();
    let mut conn: Conn<Sample> = Conn::new();
    // split after the discriminant and again inside the payload
    let mut source = encoded[..1].to_vec();
    assert_eq!(recv(&mut conn, &mut source), RecvResult::NotYet);
    source.extend_from_slice(&encoded[1..4]);
    assert_eq!(recv(&mut conn, &mut source), RecvResult::NotYet);
    source.extend_from_slice(&encoded[4..]);
    assert_eq!(recv(&mut conn, &mut source), RecvResult::Message(Sample::Data(vec![7, 8, 9])));
}

#[test]
fn pipelined_messages_decode_in_order() {
    let mut source = Sample::Ping.serialize().unwrap();
    source.extend(Sample::Report(10, 20, 65).serialize().unwrap());
    source.extend(Sample::Data(vec![1, 2]).serialize().unwrap());
    let mut conn: Conn<Sample> = Conn::new();
    assert_eq!(recv(&mut conn, &mut source), RecvResult::Message(Sample::Ping));
    assert_eq!(recv(&mut conn, &mut source), RecvResult::Message(Sample::Report(10, 20, 65)));
    assert_eq!(recv(&mut conn, &mut source), RecvResult::Message(Sample::Data(vec![1, 2])));
    assert_eq!(conn.buffered(), 0);
    assert_eq!(source.len(), 0);
    assert_eq!(recv(&mut conn, &mut source), RecvResult::NotYet);
}

#[test]
fn unknown_tag_is_invalid_and_sticky() {
    let mut conn: Conn<Sample> = Conn::new();
    let mut source = vec![255u8, 0, 0];
    assert_eq!(recv(&mut conn, &mut source), RecvResult::Invalid);
    // the poisoned byte was not consumed; the stream stays desynchronized
    assert_eq!(conn.buffered(), 1);
    assert_eq!(conn.plan(), ReadPlan::Broken);
    assert_eq!(recv(&mut conn, &mut source), RecvResult::Invalid);
}

#[test]
fn empty_read_starves_and_records_shortfall() {
    let mut conn: Conn<Sample> = Conn::new();
    assert_eq!(conn.plan(), ReadPlan::Read(1));
    assert_eq!(conn.deliver(&[], 1), Delivery::Starved);
    assert_eq!(conn.buffered(), 0);
    assert_eq!(conn.plan(), ReadPlan::Read(1));
}

#[test]
fn plan_requests_exact_shortfall() {
    let mut conn: Conn<Sample> = Conn::new();
    assert_eq!(conn.deliver(&[1], 1), Delivery::Retry);
    assert_eq!(conn.plan(), ReadPlan::Read(9));
    assert_eq!(conn.deliver(&[0, 0, 0, 10, 0], 9), Delivery::Starved);
    assert_eq!(conn.plan(), ReadPlan::Read(4));
    match conn.deliver(&[0, 0, 20, 65], 4) {
        Delivery::Message(m) => assert_eq!(m, Sample::Report(10, 20, 65)),
        other => panic!("expected a message, got {:?}", other),
    }
}
