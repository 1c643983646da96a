use lora_mesh::{ConversationStore, DeviceId, Message};

fn id(letter: u8) -> DeviceId {
    DeviceId { bytes: [letter; 24] }
}

fn sent(from: u8, to: u8, text: &[u8], time: u64) -> Message {
    Message {
        sender: id(from),
        recipient: id(to),
        data: text.to_vec(),
        time,
        confirmed: false,
        retry_count: 0,
    }
}

#[test]
fn a_new_store_holds_nothing() {
    let store = ConversationStore::new();
    assert_eq!(store.snapshot(&id(b'A')), None);
    assert_eq!(store.snapshot(&id(b'B')), None);
}

#[test]
fn append_keeps_the_order_within_a_list() {
    let mut store = ConversationStore::new();
    store.append(&id(b'B'), sent(b'A', b'B', b"one", 1700000001));
    store.append(&id(b'C'), sent(b'A', b'C', b"other", 1700000002));
    store.append(&id(b'B'), sent(b'A', b'B', b"two", 1700000003));
    assert_eq!(
        store.snapshot(&id(b'B')),
        Some(vec![sent(b'A', b'B', b"one", 1700000001), sent(b'A', b'B', b"two", 1700000003)])
    );
    assert_eq!(store.snapshot(&id(b'C')), Some(vec![sent(b'A', b'C', b"other", 1700000002)]));
    assert_eq!(store.snapshot(&id(b'A')), None);
}

#[test]
fn acknowledge_marks_what_matches_sender_and_time() {
    let mut store = ConversationStore::new();
    store.append(&id(b'B'), sent(b'A', b'B', b"one", 1700000001));
    store.append(&id(b'B'), sent(b'A', b'B', b"two", 1700000002));
    store.append(&id(b'B'), sent(b'X', b'B', b"three", 1700000001));
    store.append(&id(b'C'), sent(b'A', b'C', b"four", 1700000001));
    assert!(store.acknowledge(&id(b'B'), &id(b'A'), 1700000001));
    let list = store.snapshot(&id(b'B')).unwrap();
    assert!(list[0].confirmed);
    assert!(!list[1].confirmed);
    assert!(!list[2].confirmed);
    assert_eq!(list[0].data, b"one".to_vec());
    assert_eq!(store.snapshot(&id(b'C')), Some(vec![sent(b'A', b'C', b"four", 1700000001)]));
}

#[test]
fn acknowledge_marks_every_match_in_the_list() {
    let mut store = ConversationStore::new();
    store.append(&id(b'B'), sent(b'A', b'B', b"one", 1700000001));
    store.append(&id(b'B'), sent(b'A', b'B', b"again", 1700000001));
    assert!(store.acknowledge(&id(b'B'), &id(b'A'), 1700000001));
    let list = store.snapshot(&id(b'B')).unwrap();
    assert!(list[0].confirmed && list[1].confirmed);
}

#[test]
fn acknowledge_flips_only_once() {
    let mut store = ConversationStore::new();
    store.append(&id(b'B'), sent(b'A', b'B', b"one", 1700000001));
    assert!(store.acknowledge(&id(b'B'), &id(b'A'), 1700000001));
    let after_first = store.snapshot(&id(b'B'));
    assert!(!store.acknowledge(&id(b'B'), &id(b'A'), 1700000001));
    assert_eq!(store.snapshot(&id(b'B')), after_first);
}

#[test]
fn acknowledge_without_a_match_changes_nothing() {
    let mut store = ConversationStore::new();
    store.append(&id(b'B'), sent(b'A', b'B', b"one", 1700000001));
    let before = store.snapshot(&id(b'B'));
    assert!(!store.acknowledge(&id(b'B'), &id(b'A'), 1700000002));
    assert!(!store.acknowledge(&id(b'B'), &id(b'X'), 1700000001));
    assert!(!store.acknowledge(&id(b'C'), &id(b'A'), 1700000001));
    assert_eq!(store.snapshot(&id(b'B')), before);
    assert_eq!(store.snapshot(&id(b'C')), None);
}

#[test]
fn count_retry_counts_for_unconfirmed_messages_only() {
    let mut store = ConversationStore::new();
    store.append(&id(b'B'), sent(b'A', b'B', b"one", 1700000001));
    store.append(&id(b'B'), sent(b'A', b'B', b"two", 1700000002));
    assert!(store.count_retry(&id(b'B'), &id(b'A'), 1700000001));
    assert!(store.count_retry(&id(b'B'), &id(b'A'), 1700000001));
    let list = store.snapshot(&id(b'B')).unwrap();
    assert_eq!(list[0].retry_count, 2);
    assert_eq!(list[1].retry_count, 0);
    assert!(!list[0].confirmed);
    assert!(store.acknowledge(&id(b'B'), &id(b'A'), 1700000001));
    assert!(!store.count_retry(&id(b'B'), &id(b'A'), 1700000001));
    assert_eq!(store.snapshot(&id(b'B')).unwrap()[0].retry_count, 2);
    assert!(!store.count_retry(&id(b'C'), &id(b'A'), 1700000001));
}

#[test]
fn the_retry_count_stops_at_its_largest_value() {
    let mut store = ConversationStore::new();
    let mut worn = sent(b'A', b'B', b"one", 1700000001);
    worn.retry_count = u64::MAX - 1;
    store.append(&id(b'B'), worn);
    assert!(store.count_retry(&id(b'B'), &id(b'A'), 1700000001));
    assert_eq!(store.snapshot(&id(b'B')).unwrap()[0].retry_count, u64::MAX);
    assert!(store.count_retry(&id(b'B'), &id(b'A'), 1700000001));
    assert_eq!(store.snapshot(&id(b'B')).unwrap()[0].retry_count, u64::MAX);
}

#[test]
fn a_snapshot_is_a_copy() {
    let mut store = ConversationStore::new();
    store.append(&id(b'B'), sent(b'A', b'B', b"one", 1700000001));
    let mut list = store.snapshot(&id(b'B')).unwrap();
    list[0].confirmed = true;
    list.clear();
    assert_eq!(store.snapshot(&id(b'B')), Some(vec![sent(b'A', b'B', b"one", 1700000001)]));
}

#[test]
fn the_peer_of_a_message_is_the_other_end() {
    let out = sent(b'A', b'B', b"one", 1700000001);
    assert!(out.is_outgoing(&id(b'A')));
    assert!(!out.is_outgoing(&id(b'B')));
    assert_eq!(out.peer(&id(b'A')), id(b'B'));
    assert_eq!(out.peer(&id(b'B')), id(b'A'));
    assert_eq!(out.peer(&id(b'C')), id(b'A'));
    let own = sent(b'A', b'A', b"note", 1700000001);
    assert_eq!(own.peer(&id(b'A')), id(b'A'));
}

#[test]
fn duplicate_copies_every_field() {
    let mut message = sent(b'A', b'B', b"one", 1700000001);
    message.confirmed = true;
    message.retry_count = 3;
    assert_eq!(message.duplicate(), message);
}
