//! The log of messages, one list for each peer.

use crate::device_id::DeviceId;
use crate::message::{Message, MessageView};
use vstd::prelude::*;

verus! {

/// What a store holds: for each peer that has a list, its messages in the
/// order in which they were added.
pub type Logs = Map<Seq<u8>, Seq<MessageView>>;

/// The messages exchanged with one peer, oldest first.
struct Conversation {
    peer: DeviceId,
    messages: Vec<Message>,
}

/// The messages of a session, grouped by peer. Messages are only ever added
/// at the end of a list; within a list a message only changes by being
/// marked as confirmed or by being counted as sent again.
pub struct ConversationStore {
    conversations: Vec<Conversation>,
}

/// The messages of a list, as plain values.
pub open spec fn log_view(messages: Seq<Message>) -> Seq<MessageView> {
    messages.map_values(|m: Message| m@)
}

/// The list kept for `peer`, and the empty list where none is kept.
pub open spec fn log_of(logs: Logs, peer: Seq<u8>) -> Seq<MessageView> {
    if logs.dom().contains(peer) {
        logs[peer]
    } else {
        Seq::empty()
    }
}

/// `logs` with `message` added at the end of the list of `peer`.
pub open spec fn appended(logs: Logs, peer: Seq<u8>, message: MessageView) -> Logs {
    logs.insert(peer, log_of(logs, peer).push(message))
}

/// Whether `m` is a message from `sender`, sent at `time`, that is not yet
/// marked as confirmed.
pub open spec fn is_pending(m: MessageView, sender: Seq<u8>, time: u64) -> bool {
    m.sender == sender && m.time == time && !m.confirmed
}

/// Whether a list holds a message from `sender`, sent at `time`, that is not
/// yet marked as confirmed.
pub open spec fn has_pending(log: Seq<MessageView>, sender: Seq<u8>, time: u64) -> bool {
    exists|i: int| 0 <= i < log.len() && is_pending(#[trigger] log[i], sender, time)
}

/// A list in which every message from `sender` sent at `time` that was not
/// yet confirmed is marked as confirmed, and nothing else differs.
pub open spec fn acknowledged_log(log: Seq<MessageView>, sender: Seq<u8>, time: u64) -> Seq<
    MessageView,
> {
    log.map_values(
        |m: MessageView|
            if is_pending(m, sender, time) {
                m.acknowledged()
            } else {
                m
            },
    )
}

/// `logs` after an acknowledgment from `peer` for what `sender` sent at
/// `time`: the list of `peer`, if there is one, has those messages marked.
pub open spec fn acknowledged(logs: Logs, peer: Seq<u8>, sender: Seq<u8>, time: u64) -> Logs {
    if logs.dom().contains(peer) {
        logs.insert(peer, acknowledged_log(logs[peer], sender, time))
    } else {
        logs
    }
}

/// A list in which every message from `sender` sent at `time` that is not
/// yet confirmed counts one more retry, and nothing else differs.
pub open spec fn retried_log(log: Seq<MessageView>, sender: Seq<u8>, time: u64) -> Seq<
    MessageView,
> {
    log.map_values(
        |m: MessageView|
            if is_pending(m, sender, time) {
                m.retried()
            } else {
                m
            },
    )
}

/// `logs` after `sender` has sent again to `peer` what it sent at `time`.
pub open spec fn retried(logs: Logs, peer: Seq<u8>, sender: Seq<u8>, time: u64) -> Logs {
    if logs.dom().contains(peer) {
        logs.insert(peer, retried_log(logs[peer], sender, time))
    } else {
        logs
    }
}

/// Whether `after` may be what has become of the message `before`: the same
/// message, which may have been confirmed meanwhile, but not the reverse,
/// and may count more retries, but not fewer.
pub open spec fn is_later(before: MessageView, after: MessageView) -> bool {
    &&& after.sender == before.sender
    &&& after.recipient == before.recipient
    &&& after.data == before.data
    &&& after.time == before.time
    &&& before.confirmed ==> after.confirmed
    &&& before.retry_count <= after.retry_count
}

/// Whether `after` may be what has become of the store `before`: no list
/// and no message is gone, the messages stand where they stood, and each is
/// what it was or a later state of it.
pub open spec fn has_grown(before: Logs, after: Logs) -> bool {
    forall|peer: Seq<u8>| #[trigger]
        before.dom().contains(peer) ==> {
            &&& after.dom().contains(peer)
            &&& before[peer].len() <= after[peer].len()
            &&& forall|i: int|
                0 <= i < before[peer].len() ==> is_later(
                    before[peer][i],
                    #[trigger] after[peer][i],
                )
        }
}

/// No peer has two of the lists.
spec fn distinct(lists: Seq<Conversation>) -> bool {
    forall|i: int, j: int|
        0 <= i < j < lists.len() ==> (#[trigger] lists[i]).peer@ != (#[trigger] lists[j]).peer@
}

/// Whether the list at index `i` is the one kept for `peer`.
spec fn holds_at(lists: Seq<Conversation>, peer: Seq<u8>, i: int) -> bool {
    0 <= i < lists.len() && lists[i].peer@ == peer
}

/// What the lists hold, by peer.
spec fn logs_of(lists: Seq<Conversation>) -> Logs {
    Map::new(
        |peer: Seq<u8>| exists|i: int| holds_at(lists, peer, i),
        |peer: Seq<u8>| log_view(lists[choose|i: int| holds_at(lists, peer, i)].messages@),
    )
}

/// The list at index `i` is what is held for its peer.
proof fn lemma_log_at(lists: Seq<Conversation>, peer: Seq<u8>, i: int)
    requires
        distinct(lists),
        holds_at(lists, peer, i),
    ensures
        logs_of(lists).dom().contains(peer),
        logs_of(lists)[peer] == log_view(lists[i].messages@),
{
    let c = choose|c: int| holds_at(lists, peer, c);
    assert(holds_at(lists, peer, c));
    assert(c == i);
}

/// Where no list is kept for `peer`, nothing is held for it.
proof fn lemma_no_log(lists: Seq<Conversation>, peer: Seq<u8>)
    requires
        forall|i: int| !holds_at(lists, peer, i),
    ensures
        !logs_of(lists).dom().contains(peer),
{
}

/// Lists that differ in the messages of one peer hold the same as before
/// but for that peer's list.
proof fn lemma_one_list_changed(before: Seq<Conversation>, after: Seq<Conversation>, at: int)
    requires
        distinct(before),
        0 <= at < before.len(),
        after.len() == before.len(),
        forall|i: int| 0 <= i < before.len() ==> (#[trigger] after[i]).peer@ == before[i].peer@,
        forall|i: int|
            0 <= i < before.len() && i != at ==> (#[trigger] after[i]).messages@
                == before[i].messages@,
    ensures
        distinct(after),
        logs_of(after) == logs_of(before).insert(
            before[at].peer@,
            log_view(after[at].messages@),
        ),
{
    let peer = before[at].peer@;
    assert(distinct(after)) by {
        assert forall|i: int, j: int| 0 <= i < j < after.len() implies (#[trigger] after[i]).peer@
            != (#[trigger] after[j]).peer@ by {
            assert(before[i].peer@ != before[j].peer@);
        }
    }
    assert(holds_at(after, peer, at));
    lemma_log_at(after, peer, at);
    let goal = logs_of(before).insert(peer, log_view(after[at].messages@));
    assert forall|k: Seq<u8>| logs_of(after).dom().contains(k) <==> goal.dom().contains(k) by {
        if logs_of(after).dom().contains(k) && k != peer {
            let c = choose|c: int| holds_at(after, k, c);
            assert(holds_at(before, k, c));
        }
        if logs_of(before).dom().contains(k) && k != peer {
            let c = choose|c: int| holds_at(before, k, c);
            assert(holds_at(after, k, c));
        }
    }
    assert forall|k: Seq<u8>| logs_of(after).dom().contains(k) implies logs_of(after)[k]
        == goal[k] by {
        if k != peer {
            let c = choose|c: int| holds_at(after, k, c);
            assert(holds_at(before, k, c));
            lemma_log_at(after, k, c);
            lemma_log_at(before, k, c);
        }
    }
    assert(logs_of(after) =~= goal);
}

/// Lists with one more list, for a peer that had none, hold the same as
/// before and that list.
proof fn lemma_list_added(before: Seq<Conversation>, added: Conversation)
    requires
        distinct(before),
        forall|i: int| !holds_at(before, added.peer@, i),
    ensures
        distinct(before.push(added)),
        logs_of(before.push(added)) == logs_of(before).insert(
            added.peer@,
            log_view(added.messages@),
        ),
{
    let after = before.push(added);
    let peer = added.peer@;
    let n = before.len() as int;
    assert(distinct(after)) by {
        assert forall|i: int, j: int| 0 <= i < j < after.len() implies (#[trigger] after[i]).peer@
            != (#[trigger] after[j]).peer@ by {
            if j == n {
                assert(!holds_at(before, peer, i));
            } else {
                assert(before[i].peer@ != before[j].peer@);
            }
        }
    }
    assert(holds_at(after, peer, n));
    lemma_log_at(after, peer, n);
    let goal = logs_of(before).insert(peer, log_view(added.messages@));
    assert forall|k: Seq<u8>| logs_of(after).dom().contains(k) <==> goal.dom().contains(k) by {
        if logs_of(after).dom().contains(k) && k != peer {
            let c = choose|c: int| holds_at(after, k, c);
            assert(holds_at(before, k, c));
        }
        if logs_of(before).dom().contains(k) && k != peer {
            let c = choose|c: int| holds_at(before, k, c);
            assert(holds_at(after, k, c));
        }
    }
    assert forall|k: Seq<u8>| logs_of(after).dom().contains(k) implies logs_of(after)[k]
        == goal[k] by {
        if k != peer {
            let c = choose|c: int| holds_at(after, k, c);
            assert(holds_at(before, k, c));
            lemma_log_at(after, k, c);
            lemma_log_at(before, k, c);
        }
    }
    assert(logs_of(after) =~= goal);
}

/// Where the list of `peer` stands among `lists`, if there is one.
fn locate(lists: &Vec<Conversation>, peer: &DeviceId) -> (r: Option<usize>)
    ensures
        match r {
            Some(i) => holds_at(lists@, peer@, i as int),
            None => forall|i: int| !holds_at(lists@, peer@, i),
        },
{
    let mut i: usize = 0;
    while i < lists.len()
        invariant
            i <= lists@.len(),
            forall|j: int| 0 <= j < i ==> !holds_at(lists@, peer@, j),
        decreases lists@.len() - i,
    {
        if lists[i].peer.same(peer) {
            return Some(i);
        }
        i += 1;
    }
    None
}

/// The two ways in which a message that is kept may change.
enum Revision {
    Acknowledge,
    Retry,
}

/// `m` after a revision of what `sender` sent at `time`.
spec fn revised(m: MessageView, sender: Seq<u8>, time: u64, how: Revision) -> MessageView {
    if is_pending(m, sender, time) {
        match how {
            Revision::Acknowledge => m.acknowledged(),
            Revision::Retry => m.retried(),
        }
    } else {
        m
    }
}

/// A list after a revision of what `sender` sent at `time`.
spec fn revised_log(log: Seq<MessageView>, sender: Seq<u8>, time: u64, how: Revision) -> Seq<
    MessageView,
> {
    log.map_values(|m: MessageView| revised(m, sender, time, how))
}

/// Revises, in the list at index `at`, every message from `sender` sent at
/// `time` that is not yet confirmed. Says whether there was one.
fn revise(
    lists: &mut Vec<Conversation>,
    at: usize,
    sender: &DeviceId,
    time: u64,
    how: Revision,
) -> (changed: bool)
    requires
        at < old(lists)@.len(),
    ensures
        final(lists)@.len() == old(lists)@.len(),
        forall|i: int|
            0 <= i < old(lists)@.len() ==> (#[trigger] final(lists)@[i]).peer@ == old(
                lists,
            )@[i].peer@,
        forall|i: int|
            0 <= i < old(lists)@.len() && i != at ==> (#[trigger] final(lists)@[i]).messages@
                == old(lists)@[i].messages@,
        log_view(final(lists)@[at as int].messages@) == revised_log(
            log_view(old(lists)@[at as int].messages@),
            sender@,
            time,
            how,
        ),
        changed == has_pending(log_view(old(lists)@[at as int].messages@), sender@, time),
{
    let ghost before = log_view(lists@[at as int].messages@);
    let mut changed = false;
    let mut j: usize = 0;
    while j < lists[at].messages.len()
        invariant
            at < lists@.len() == old(lists)@.len(),
            forall|i: int|
                0 <= i < old(lists)@.len() ==> (#[trigger] lists@[i]).peer@ == old(
                    lists,
                )@[i].peer@,
            forall|i: int|
                0 <= i < old(lists)@.len() && i != at ==> (#[trigger] lists@[i]).messages@ == old(
                    lists,
                )@[i].messages@,
            before == log_view(old(lists)@[at as int].messages@),
            lists@[at as int].messages@.len() == before.len(),
            j <= before.len(),
            forall|k: int|
                0 <= k < j ==> (#[trigger] lists@[at as int].messages@[k])@ == revised(
                    before[k],
                    sender@,
                    time,
                    how,
                ),
            forall|k: int|
                j <= k < before.len() ==> (#[trigger] lists@[at as int].messages@[k])@
                    == before[k],
            changed == exists|k: int| 0 <= k < j && is_pending(#[trigger] before[k], sender@, time),
        decreases before.len() - j,
    {
        let pending = !lists[at].messages[j].confirmed && lists[at].messages[j].time == time
            && lists[at].messages[j].sender.same(sender);
        assert(pending == is_pending(before[j as int], sender@, time));
        if pending {
            match how {
                Revision::Acknowledge => {
                    lists[at].messages[j].confirmed = true;
                },
                Revision::Retry => {
                    if lists[at].messages[j].retry_count < u64::MAX {
                        lists[at].messages[j].retry_count = lists[at].messages[j].retry_count + 1;
                    }
                },
            }
            changed = true;
        }
        j += 1;
    }
    assert(log_view(lists@[at as int].messages@) =~= revised_log(before, sender@, time, how));
    changed
}

impl ConversationStore {
    /// No peer has two lists.
    #[verifier::type_invariant]
    spec fn distinct_peers(self) -> bool {
        distinct(self.conversations@)
    }

    /// What the store holds.
    pub closed spec fn logs(self) -> Logs {
        logs_of(self.conversations@)
    }

    /// A store that holds nothing.
    pub fn new() -> (store: ConversationStore)
        ensures
            store.logs() == Map::<Seq<u8>, Seq<MessageView>>::empty(),
    {
        let store = ConversationStore { conversations: Vec::new() };
        assert(store.logs() =~= Map::<Seq<u8>, Seq<MessageView>>::empty());
        store
    }

    /// Adds `message` at the end of the list of `peer`, which is begun if
    /// there is none.
    pub fn append(&mut self, peer: &DeviceId, message: Message)
        ensures
            final(self).logs() == appended(old(self).logs(), peer@, message@),
    {
        proof {
            use_type_invariant(&*self);
        }
        let mut lists: Vec<Conversation> = Vec::new();
        std::mem::swap(&mut self.conversations, &mut lists);
        let ghost before = lists@;
        match locate(&lists, peer) {
            Some(i) => {
                lists[i].messages.push(message);
                proof {
                    lemma_log_at(before, peer@, i as int);
                    lemma_one_list_changed(before, lists@, i as int);
                    assert(log_view(lists@[i as int].messages@) =~= log_view(
                        before[i as int].messages@,
                    ).push(message@));
                }
            },
            None => {
                let mut messages: Vec<Message> = Vec::new();
                messages.push(message);
                let added = Conversation { peer: *peer, messages };
                proof {
                    lemma_no_log(before, peer@);
                    lemma_list_added(before, added);
                    assert(log_view(added.messages@) =~= Seq::<MessageView>::empty().push(
                        message@,
                    ));
                }
                lists.push(added);
            },
        }
        self.conversations = lists;
    }

    /// Revises what `sender` sent to `peer` at `time`.
    fn revise_for(&mut self, peer: &DeviceId, sender: &DeviceId, time: u64, how: Revision) -> (changed:
        bool)
        ensures
            final(self).logs() == (if old(self).logs().dom().contains(peer@) {
                old(self).logs().insert(
                    peer@,
                    revised_log(old(self).logs()[peer@], sender@, time, how),
                )
            } else {
                old(self).logs()
            }),
            changed == has_pending(log_of(old(self).logs(), peer@), sender@, time),
    {
        proof {
            use_type_invariant(&*self);
        }
        let mut lists: Vec<Conversation> = Vec::new();
        std::mem::swap(&mut self.conversations, &mut lists);
        let ghost before = lists@;
        let changed = match locate(&lists, peer) {
            Some(at) => {
                let changed = revise(&mut lists, at, sender, time, how);
                proof {
                    lemma_log_at(before, peer@, at as int);
                    lemma_one_list_changed(before, lists@, at as int);
                }
                changed
            },
            None => {
                proof {
                    lemma_no_log(before, peer@);
                }
                false
            },
        };
        self.conversations = lists;
        changed
    }

    /// Marks as confirmed every message that `sender` sent to `peer` at
    /// `time` and that was not yet confirmed. Says whether there was one.
    /// Nothing else in the store changes.
    pub fn acknowledge(&mut self, peer: &DeviceId, sender: &DeviceId, time: u64) -> (changed: bool)
        ensures
            final(self).logs() == acknowledged(old(self).logs(), peer@, sender@, time),
            changed == has_pending(log_of(old(self).logs(), peer@), sender@, time),
    {
        let changed = self.revise_for(peer, sender, time, Revision::Acknowledge);
        proof {
            if old(self).logs().dom().contains(peer@) {
                assert(revised_log(old(self).logs()[peer@], sender@, time, Revision::Acknowledge)
                    =~= acknowledged_log(old(self).logs()[peer@], sender@, time));
            }
        }
        changed
    }

    /// Counts one more retry for every message that `sender` sent to `peer`
    /// at `time` and that is not yet confirmed. Says whether there was one.
    /// Nothing else in the store changes.
    pub fn count_retry(&mut self, peer: &DeviceId, sender: &DeviceId, time: u64) -> (changed: bool)
        ensures
            final(self).logs() == retried(old(self).logs(), peer@, sender@, time),
            changed == has_pending(log_of(old(self).logs(), peer@), sender@, time),
    {
        let changed = self.revise_for(peer, sender, time, Revision::Retry);
        proof {
            if old(self).logs().dom().contains(peer@) {
                assert(revised_log(old(self).logs()[peer@], sender@, time, Revision::Retry)
                    =~= retried_log(old(self).logs()[peer@], sender@, time));
            }
        }
        changed
    }

    /// A copy of the list of `peer`, oldest message first, if there is one.
    pub fn snapshot(&self, peer: &DeviceId) -> (list: Option<Vec<Message>>)
        ensures
            match list {
                Some(messages) => self.logs().dom().contains(peer@) && log_view(messages@)
                    == self.logs()[peer@],
                None => !self.logs().dom().contains(peer@),
            },
    {
        proof {
            use_type_invariant(self);
        }
        match locate(&self.conversations, peer) {
            Some(at) => {
                proof {
                    lemma_log_at(self.conversations@, peer@, at as int);
                }
                let kept = &self.conversations[at].messages;
                let mut copy: Vec<Message> = Vec::new();
                let mut j: usize = 0;
                while j < kept.len()
                    invariant
                        j <= kept@.len(),
                        copy@.len() == j,
                        forall|k: int| 0 <= k < j ==> (#[trigger] copy@[k])@ == kept@[k]@,
                    decreases kept@.len() - j,
                {
                    copy.push(kept[j].duplicate());
                    j += 1;
                }
                assert(log_view(copy@) =~= log_view(kept@));
                Some(copy)
            },
            None => {
                proof {
                    lemma_no_log(self.conversations@, peer@);
                }
                None
            },
        }
    }
}

} // verus!
