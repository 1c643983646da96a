use lora_mesh::frame::{decode, encode};
use lora_mesh::{
    CodecError, DeviceId, Engine, Frame, Message, Outcome, Report, Role, SendError, Timestamp,
};

const LOCAL: [u8; 24] = *b"AAAAAAAAAAAAAAAAAAAAAAAA";
const PEER: [u8; 24] = *b"BBBBBBBBBBBBBBBBBBBBBBBB";
const THIRD: [u8; 24] = *b"CCCCCCCCCCCCCCCCCCCCCCCC";

fn local() -> DeviceId {
    DeviceId { bytes: LOCAL }
}

fn peer() -> DeviceId {
    DeviceId { bytes: PEER }
}

fn third() -> DeviceId {
    DeviceId { bytes: THIRD }
}

fn stamp(text: &[u8; 10]) -> Timestamp {
    Timestamp { digits: *text }
}

fn node() -> Engine {
    Engine::new(Some(local()))
}

fn send(engine: &mut Engine, to: &[u8], text: &[u8], now: u64) -> Vec<u8> {
    let out = engine.compose(to, text, now).unwrap();
    engine.record_sent(out.message);
    out.line
}

#[test]
fn hi_is_delivered_confirmed_and_acknowledged() {
    let mut engine = node();
    let report = engine
        .on_read(b"+RCV=0,60,AAAAAAAAAAAAAAAAAAAAAAAABBBBBBBBBBBBBBBBBBBBBBBB1700000000hi\r\n");
    let confirm =
        b"AT+SEND=0,67,CONFIRMED1700000000BBBBBBBBBBBBBBBBBBBBBBBBAAAAAAAAAAAAAAAAAAAAAAAA\r\n"
            .to_vec();
    assert_eq!(report, Report::Handled(Outcome::Delivered { confirm: confirm.clone() }));
    assert_eq!(report.transmission(), Some(&confirm));
    assert_eq!(
        engine.snapshot(&peer()),
        Some(vec![Message {
            sender: peer(),
            recipient: local(),
            data: b"hi".to_vec(),
            time: 1700000000,
            confirmed: true,
            retry_count: 0,
        }])
    );
    assert_eq!(engine.snapshot(&local()), None);
}

#[test]
fn compose_for_hi_gives_the_deliver_command() {
    let engine = node();
    let out = engine.compose(&PEER, b"hi", 1700000000).unwrap();
    assert_eq!(
        out.line,
        b"AT+SEND=0,60,BBBBBBBBBBBBBBBBBBBBBBBBAAAAAAAAAAAAAAAAAAAAAAAA1700000000hi\r\n".to_vec()
    );
    assert_eq!(
        out.message,
        Message {
            sender: local(),
            recipient: peer(),
            data: b"hi".to_vec(),
            time: 1700000000,
            confirmed: false,
            retry_count: 0,
        }
    );
    assert_eq!(encode(&out.message, Role::Deliver), Ok(out.line));
}

#[test]
fn compose_trims_the_text_and_keeps_nothing() {
    let engine = node();
    let out = engine.compose(&PEER, b"  hi there \r\n", 1700000000).unwrap();
    assert_eq!(out.message.data, b"hi there".to_vec());
    assert_eq!(&out.line[10..13], b"66,");
    assert_eq!(engine.snapshot(&peer()), None);
}

#[test]
fn compose_needs_an_identity() {
    let engine = Engine::new(None);
    assert_eq!(engine.compose(&PEER, b"hi", 1700000000), Err(SendError::IdentityUnresolved));
    assert_eq!(engine.compose(b"short", b"hi", 5), Err(SendError::IdentityUnresolved));
}

#[test]
fn compose_rejects_fields_of_the_wrong_width() {
    let engine = node();
    assert_eq!(engine.compose(&PEER[..23], b"hi", 1700000000), Err(SendError::MalformedInput));
    assert_eq!(engine.compose(b"", b"hi", 1700000000), Err(SendError::MalformedInput));
    assert_eq!(engine.compose(&PEER, b"hi", 999_999_999), Err(SendError::MalformedInput));
    assert_eq!(engine.compose(&PEER, b"hi", 10_000_000_000), Err(SendError::MalformedInput));
}

#[test]
fn a_sent_message_waits_unconfirmed_under_its_recipient() {
    let mut engine = node();
    send(&mut engine, &PEER, b"hi", 1700000000);
    let list = engine.snapshot(&peer()).unwrap();
    assert_eq!(list.len(), 1);
    assert!(!list[0].confirmed);
    assert_eq!(list[0].retry_count, 0);
    assert_eq!(list[0].sender, local());
}

#[test]
fn without_a_confirm_the_message_stays_unconfirmed() {
    let mut engine = node();
    send(&mut engine, &PEER, b"hi", 1700000000);
    let before = engine.snapshot(&peer());
    let traffic: [&[u8]; 8] = [
        b"",
        b"+OK\r\n",
        b"+RCV=0,2,hi\r\n",
        b"+RCV=0,60,CCCCCCCCCCCCCCCCCCCCCCCCBBBBBBBBBBBBBBBBBBBBBBBB1700000000hi\r\n",
        b"+RCV=0,67,CONFIRMED1700000000CCCCCCCCCCCCCCCCCCCCCCCCBBBBBBBBBBBBBBBBBBBBBBBB\r\n",
        b"+RCV=0,67,CONFIRMED1700000001AAAAAAAAAAAAAAAAAAAAAAAABBBBBBBBBBBBBBBBBBBBBBBB\r\n",
        b"+RCV=0,67,CONFIRMED1700000000AAAAAAAAAAAAAAAAAAAAAAAACCCCCCCCCCCCCCCCCCCCCCCC\r\n",
        b"+RCV=0,",
    ];
    for _ in 0..50 {
        for chunk in traffic {
            engine.on_read(chunk);
        }
        engine.on_link_error();
    }
    assert_eq!(engine.snapshot(&peer()), before);
    assert!(!engine.snapshot(&peer()).unwrap()[0].confirmed);
    assert_eq!(engine.snapshot(&peer()).unwrap()[0].retry_count, 0);
}

#[test]
fn a_matching_confirm_flips_the_message_once() {
    let mut engine = node();
    send(&mut engine, &PEER, b"hi", 1700000000);
    send(&mut engine, &PEER, b"later", 1700000009);
    let confirm: &[u8] =
        b"+RCV=0,67,CONFIRMED1700000000AAAAAAAAAAAAAAAAAAAAAAAABBBBBBBBBBBBBBBBBBBBBBBB\r\n";
    assert_eq!(engine.on_read(confirm), Report::Handled(Outcome::Acknowledged));
    let list = engine.snapshot(&peer()).unwrap();
    assert!(list[0].confirmed);
    assert!(!list[1].confirmed);
    let report = engine.on_read(confirm);
    assert_eq!(report, Report::Handled(Outcome::Unmatched));
    assert_eq!(report.transmission(), None);
    assert_eq!(engine.snapshot(&peer()).unwrap(), list);
}

#[test]
fn a_confirm_that_matches_nothing_is_dropped() {
    let mut engine = node();
    send(&mut engine, &PEER, b"hi", 1700000000);
    let before = engine.snapshot(&peer());
    let wrong_time = Frame::Confirm { stamp: stamp(b"1700000001"), recipient: local(), sender: peer() };
    let wrong_peer = Frame::Confirm { stamp: stamp(b"1700000000"), recipient: local(), sender: third() };
    assert_eq!(engine.dispatch(&wrong_time), Outcome::Unmatched);
    assert_eq!(engine.dispatch(&wrong_peer), Outcome::Unmatched);
    assert_eq!(engine.snapshot(&peer()), before);
    assert_eq!(engine.snapshot(&third()), None);
}

#[test]
fn a_deliver_for_another_node_is_passed_on_byte_for_byte() {
    let mut engine = node();
    let report = engine
        .on_read(b"+RCV=0,63,CCCCCCCCCCCCCCCCCCCCCCCCBBBBBBBBBBBBBBBBBBBBBBBB1700000000a,b,c\r\n");
    let line =
        b"AT+SEND=0,63,CCCCCCCCCCCCCCCCCCCCCCCCBBBBBBBBBBBBBBBBBBBBBBBB1700000000a,b,c\r\n".to_vec();
    assert_eq!(report, Report::Handled(Outcome::Forwarded { line: line.clone() }));
    assert_eq!(report.transmission(), Some(&line));
    assert_eq!(engine.snapshot(&peer()), None);
    assert_eq!(engine.snapshot(&third()), None);
}

#[test]
fn a_deliver_with_an_odd_timestamp_is_passed_on_unchanged() {
    let mut engine = node();
    let report = engine
        .on_read(b"+RCV=0,59,CCCCCCCCCCCCCCCCCCCCCCCCBBBBBBBBBBBBBBBBBBBBBBBBnot a timex\r\n");
    assert_eq!(
        report,
        Report::Handled(Outcome::Forwarded {
            line: b"AT+SEND=0,59,CCCCCCCCCCCCCCCCCCCCCCCCBBBBBBBBBBBBBBBBBBBBBBBBnot a timex\r\n"
                .to_vec()
        })
    );
}

#[test]
fn a_confirm_for_another_node_is_passed_on() {
    let mut engine = node();
    send(&mut engine, &PEER, b"hi", 1700000000);
    let before = engine.snapshot(&peer());
    let report = engine.on_read(
        b"+RCV=0,67,CONFIRMED1700000000CCCCCCCCCCCCCCCCCCCCCCCCBBBBBBBBBBBBBBBBBBBBBBBB\r\n",
    );
    assert_eq!(
        report,
        Report::Handled(Outcome::Forwarded {
            line:
                b"AT+SEND=0,67,CONFIRMED1700000000CCCCCCCCCCCCCCCCCCCCCCCCBBBBBBBBBBBBBBBBBBBBBBBB\r\n"
                    .to_vec()
        })
    );
    assert_eq!(engine.snapshot(&peer()), before);
}

#[test]
fn a_deliver_without_text_for_another_node_is_dropped() {
    let mut engine = node();
    let report =
        engine.on_read(b"+RCV=0,58,CCCCCCCCCCCCCCCCCCCCCCCCBBBBBBBBBBBBBBBBBBBBBBBB1700000000\r\n");
    assert_eq!(report, Report::Handled(Outcome::Dropped));
    assert_eq!(report.transmission(), None);
}

#[test]
fn a_deliver_without_text_for_this_node_is_kept() {
    let mut engine = node();
    let report =
        engine.on_read(b"+RCV=0,58,AAAAAAAAAAAAAAAAAAAAAAAABBBBBBBBBBBBBBBBBBBBBBBB1700000000\r\n");
    assert!(matches!(report, Report::Handled(Outcome::Delivered { .. })));
    assert_eq!(engine.snapshot(&peer()).unwrap()[0].data, Vec::<u8>::new());
}

#[test]
fn a_malformed_line_is_dropped() {
    let mut engine = node();
    let report = engine.on_read(b"+RCV=0,10,AAAAAAAAAA\r\n");
    assert_eq!(report, Report::Malformed);
    assert_eq!(report.transmission(), None);
    assert_eq!(engine.on_read(b"+RCV=0\r\n"), Report::Malformed);
    assert_eq!(engine.receive(b"+RCV=0,10,AAAAAAAAAA\r\n"), Err(CodecError::MalformedFrame));
    assert_eq!(engine.snapshot(&peer()), None);
}

#[test]
fn noise_and_partial_lines_are_reported() {
    let mut engine = node();
    assert_eq!(engine.on_read(b"+OK\r\n"), Report::Noise);
    assert_eq!(engine.on_read(b"+RCV=0,60,AAAAAAAAAAAAAAAAAAAAAAAABBBBBBBB"), Report::Waiting);
    assert_eq!(engine.on_read(b""), Report::Waiting);
    let report = engine.on_read(b"BBBBBBBBBBBBBBBB1700000000hi\r\n");
    assert!(matches!(report, Report::Handled(Outcome::Delivered { .. })));
    assert_eq!(engine.snapshot(&peer()).unwrap()[0].data, b"hi".to_vec());
}

#[test]
fn a_link_error_discards_the_partial_line() {
    let mut engine = node();
    assert_eq!(engine.on_read(b"+RCV=0,60,AAAAAAAAAAAAAAAAAAAAAAAABBBBBBBB"), Report::Waiting);
    engine.on_link_error();
    assert_eq!(engine.on_read(b"BBBBBBBBBBBBBBBB1700000000hi\r\n"), Report::Noise);
    assert_eq!(engine.snapshot(&peer()), None);
    assert_eq!(engine.local_id(), Some(local()));
}

#[test]
fn the_same_deliver_twice_is_kept_twice() {
    let mut engine = node();
    let line: &[u8] = b"+RCV=0,60,AAAAAAAAAAAAAAAAAAAAAAAABBBBBBBBBBBBBBBBBBBBBBBB1700000000hi\r\n";
    engine.on_read(line);
    engine.on_read(line);
    assert_eq!(engine.snapshot(&peer()).unwrap().len(), 2);
}

#[test]
fn without_an_identity_everything_is_relayed() {
    let mut engine = Engine::new(None);
    assert_eq!(engine.local_id(), None);
    let report = engine
        .on_read(b"+RCV=0,60,AAAAAAAAAAAAAAAAAAAAAAAABBBBBBBBBBBBBBBBBBBBBBBB1700000000hi\r\n");
    assert!(matches!(report, Report::Handled(Outcome::Forwarded { .. })));
    let report = engine.on_read(
        b"+RCV=0,67,CONFIRMED1700000000AAAAAAAAAAAAAAAAAAAAAAAABBBBBBBBBBBBBBBBBBBBBBBB\r\n",
    );
    assert!(matches!(report, Report::Handled(Outcome::Forwarded { .. })));
    assert_eq!(engine.snapshot(&peer()), None);
    assert!(!engine.record_retry(&peer(), 1700000000));
}

#[test]
fn record_retry_counts_for_what_still_waits() {
    let mut engine = node();
    send(&mut engine, &PEER, b"hi", 1700000000);
    assert!(engine.record_retry(&peer(), 1700000000));
    assert_eq!(engine.snapshot(&peer()).unwrap()[0].retry_count, 1);
    assert!(!engine.record_retry(&peer(), 1700000001));
    assert!(!engine.record_retry(&third(), 1700000000));
    engine.dispatch(&Frame::Confirm { stamp: stamp(b"1700000000"), recipient: local(), sender: peer() });
    assert!(!engine.record_retry(&peer(), 1700000000));
    let list = engine.snapshot(&peer()).unwrap();
    assert!(list[0].confirmed);
    assert_eq!(list[0].retry_count, 1);
}

#[test]
fn two_nodes_exchange_a_message() {
    let mut a = Engine::new(Some(local()));
    let mut b = Engine::new(Some(peer()));
    let line = send(&mut a, &PEER, b" hello ", 1700000000);
    let answer = match b.receive(&line) {
        Ok(Outcome::Delivered { confirm }) => confirm,
        other => panic!("not delivered: {:?}", other),
    };
    assert_eq!(b.snapshot(&local()).unwrap()[0].data, b"hello".to_vec());
    assert!(b.snapshot(&local()).unwrap()[0].confirmed);
    assert_eq!(a.receive(&answer), Ok(Outcome::Acknowledged));
    assert!(a.snapshot(&peer()).unwrap()[0].confirmed);
    assert_eq!(
        decode(&answer),
        Ok(Frame::Confirm { stamp: stamp(b"1700000000"), recipient: local(), sender: peer() })
    );
}

#[test]
fn a_third_node_relays_both_ways() {
    let mut a = Engine::new(Some(local()));
    let mut relay = Engine::new(Some(third()));
    let mut b = Engine::new(Some(peer()));
    let line = send(&mut a, &PEER, b"hello", 1700000000);
    let passed = match relay.receive(&line) {
        Ok(Outcome::Forwarded { line }) => line,
        other => panic!("not forwarded: {:?}", other),
    };
    assert_eq!(passed, line);
    let answer = match b.receive(&passed) {
        Ok(Outcome::Delivered { confirm }) => confirm,
        other => panic!("not delivered: {:?}", other),
    };
    let back = match relay.receive(&answer) {
        Ok(Outcome::Forwarded { line }) => line,
        other => panic!("not forwarded: {:?}", other),
    };
    assert_eq!(back, answer);
    assert_eq!(a.receive(&back), Ok(Outcome::Acknowledged));
    assert!(a.snapshot(&peer()).unwrap()[0].confirmed);
    assert_eq!(relay.snapshot(&local()), None);
    assert_eq!(relay.snapshot(&peer()), None);
}
