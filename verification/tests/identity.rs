use lora_mesh::identity::{
    identity_query, parse_identity, Answer, Handshake, Request, BOOT_SETTLE_MS, REPLY_CAPACITY,
    RESPONSE_DELAY_MS,
};
use lora_mesh::link::{
    supported_adapter, BAUD_RATE, POLL_INTERVAL_MS, READ_CAPACITY, READ_TIMEOUT_MS,
};
use lora_mesh::DeviceId;

#[test]
fn the_query_is_one_line() {
    assert_eq!(identity_query(), b"AT+UID?\r\n".to_vec());
}

#[test]
fn the_reply_states_the_address() {
    assert_eq!(
        parse_identity(b"+UID=002E0051044A7EE1000026BF\r\n"),
        Some(DeviceId { bytes: *b"002E0051044A7EE1000026BF" })
    );
}

#[test]
fn what_precedes_the_mark_and_white_space_are_left_out() {
    assert_eq!(
        parse_identity(b"+OK\r\n+UID=  002E0051044A7EE1000026BF \t\r\n"),
        Some(DeviceId { bytes: *b"002E0051044A7EE1000026BF" })
    );
}

#[test]
fn a_reply_without_the_mark_states_nothing() {
    assert_eq!(parse_identity(b""), None);
    assert_eq!(parse_identity(b"+OK\r\n"), None);
    assert_eq!(parse_identity(b"+UID 002E0051044A7EE1000026BF\r\n"), None);
    assert_eq!(parse_identity(b"002E0051044A7EE1000026BF\r\n"), None);
}

#[test]
fn a_second_equals_sign_spoils_the_reply() {
    assert_eq!(parse_identity(b"+UID=002E0051044A7EE1000026BF\r\n+RCV=0,1,a\r\n"), None);
    assert_eq!(parse_identity(b"+UID==02E0051044A7EE1000026BF\r\n"), None);
}

#[test]
fn an_address_of_another_width_is_none() {
    assert_eq!(parse_identity(b"+UID=002E0051044A7EE1000026B\r\n"), None);
    assert_eq!(parse_identity(b"+UID=002E0051044A7EE1000026BF0\r\n"), None);
    assert_eq!(parse_identity(b"+UID=\r\n"), None);
    assert_eq!(parse_identity(b"+UID=002E0051044A 7EE1000026BF\r\n"), None);
}

#[test]
fn the_handshake_waits_as_the_module_needs() {
    assert_eq!(BOOT_SETTLE_MS, 2000);
    assert_eq!(RESPONSE_DELAY_MS, 100);
    assert_eq!(REPLY_CAPACITY, 240);
}

#[test]
fn the_link_is_polled_every_twenty_five_milliseconds() {
    assert_eq!(POLL_INTERVAL_MS, 25);
    assert_eq!(READ_TIMEOUT_MS, 10);
    assert_eq!(READ_CAPACITY, 300);
    assert_eq!(BAUD_RATE, 9600);
}

#[test]
fn only_the_two_known_adapters_are_supported() {
    assert!(supported_adapter(0x2341, 0x0042));
    assert!(supported_adapter(0x2341, 0x0043));
    assert!(!supported_adapter(0x2341, 0x0044));
    assert!(!supported_adapter(0x2341, 0x0041));
    assert!(!supported_adapter(0x2340, 0x0042));
    assert!(!supported_adapter(0x0042, 0x2341));
    assert!(!supported_adapter(0, 0));
}

#[test]
fn the_handshake_asks_settles_waits_and_reads() {
    let start = Handshake::begin();
    assert_eq!(start, Handshake::Asking);
    assert_eq!(start.request(), Request::Write(b"AT+UID?\r\n".to_vec()));
    let settling = start.after(&Answer::Done);
    assert_eq!(settling.request(), Request::Wait(2000));
    let awaiting = settling.after(&Answer::Done);
    assert_eq!(awaiting.request(), Request::Wait(100));
    let reading = awaiting.after(&Answer::Done);
    assert_eq!(reading.request(), Request::Read(240));
    let end = reading.after(&Answer::Bytes(b"+UID=002E0051044A7EE1000026BF\r\n".to_vec()));
    assert_eq!(end.request(), Request::Nothing);
    assert_eq!(end.identity(), Some(DeviceId { bytes: *b"002E0051044A7EE1000026BF" }));
    assert_eq!(end.after(&Answer::Failed), end);
}

#[test]
fn a_failure_ends_the_handshake_without_an_address() {
    for stage in [Handshake::Asking, Handshake::Settling, Handshake::Awaiting, Handshake::Reading] {
        let end = stage.after(&Answer::Failed);
        assert_eq!(end, Handshake::Unresolved);
        assert_eq!(end.request(), Request::Nothing);
        assert_eq!(end.identity(), None);
        assert_eq!(stage.identity(), None);
    }
    assert_eq!(Handshake::Unresolved.after(&Answer::Done), Handshake::Unresolved);
}

#[test]
fn a_reply_without_an_address_ends_the_handshake_unresolved() {
    assert_eq!(Handshake::Reading.after(&Answer::Bytes(b"+OK\r\n".to_vec())), Handshake::Unresolved);
    assert_eq!(Handshake::Reading.after(&Answer::Bytes(Vec::new())), Handshake::Unresolved);
    assert_eq!(Handshake::Reading.after(&Answer::Done), Handshake::Unresolved);
}
