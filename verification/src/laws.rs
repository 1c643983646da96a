//! What holds of the wire format and of the relay, for every input.

use crate::bytes::{
    ends_with, lemma_find_first, lemma_occurs_byte, occurs_at, position, starts_with, trimmed,
    CRLF,
};
use crate::decimal::{decimal, is_digit, lemma_decimal_spells, lemma_ten_digits};
use crate::device_id::DeviceId;
use crate::engine::{kept_for, EngineView, OutcomeView};
use crate::frame::{
    command, decoded, frame_of, line_of, parse_body, seconds_of, third_field, unterminated,
    CodecError, Frame, FrameView, Role, Timestamp, COMMA, CONFIRMED, CONFIRM_WIDTH,
    DELIVER_HEADER, SEND_PREFIX, STAMP_WIDTH,
};
use crate::message::{Message, MessageView};
use crate::reader::{intake_of, pending_after, IntakeView};
use crate::store::{
    acknowledged_log, has_grown, has_pending, is_later, is_pending, log_of, Logs,
};
use vstd::prelude::*;

verus! {

/// Where `head` holds no byte `b` and `tail` begins with one, the first `b`
/// of `head + tail` stands right behind `head`.
proof fn lemma_position_behind(head: Seq<u8>, tail: Seq<u8>, b: u8)
    requires
        forall|i: int| 0 <= i < head.len() ==> head[i] != b,
        tail.len() > 0,
        tail[0] == b,
    ensures
        position(head + tail, b) == Some(head.len() as int),
{
    let whole = head + tail;
    assert forall|j: int| 0 <= j < head.len() implies !occurs_at(whole, seq![b], j) by {
        lemma_occurs_byte(whole, b, j);
    }
    lemma_occurs_byte(whole, b, head.len() as int);
    lemma_find_first(whole, seq![b], head.len() as int);
}

/// To read a command line is to read its body: the body is the third field
/// of the line, without the line end.
pub proof fn lemma_command_carries_body(body: Seq<u8>)
    ensures
        third_field(command(body)) == Some(body + CRLF@),
        unterminated(body + CRLF@) == body,
        decoded(command(body)) == parse_body(body),
{
    let line = command(body);
    let digits = decimal(body.len());
    lemma_decimal_spells(body.len());
    let word = SEND_PREFIX@.take(9);
    let after_word = seq![COMMA] + digits + seq![COMMA] + body + CRLF@;
    assert(line =~= word + after_word);
    lemma_position_behind(word, after_word, COMMA);
    let after_digits = seq![COMMA] + body + CRLF@;
    assert(line.skip(10) =~= digits + after_digits);
    assert forall|i: int| 0 <= i < digits.len() implies digits[i] != COMMA by {
        assert(is_digit(digits[i]));
    }
    lemma_position_behind(digits, after_digits, COMMA);
    assert(line.skip(9 + 1 + (digits.len() as int) + 1) =~= body + CRLF@);
    let field = body + CRLF@;
    assert(ends_with(field, CRLF@));
    assert(field.take(field.len() - 2) =~= body);
}

/// A delivery that is written and then read comes back as it was:
/// recipient, sender, timestamp and text. The one exception is a recipient
/// whose address begins with the bytes `CONFIRMED`: such a body reads as an
/// acknowledgment.
pub proof fn lemma_deliver_round_trip(
    recipient: DeviceId,
    sender: DeviceId,
    stamp: Timestamp,
    payload: Seq<u8>,
)
    requires
        !starts_with(recipient@, CONFIRMED@),
    ensures
        decoded(
            (FrameView::Deliver {
                recipient: recipient@,
                sender: sender@,
                stamp: stamp@,
                payload,
            }).line(),
        ) == Ok::<FrameView, CodecError>(
            FrameView::Deliver { recipient: recipient@, sender: sender@, stamp: stamp@, payload },
        ),
{
    let frame = FrameView::Deliver {
        recipient: recipient@,
        sender: sender@,
        stamp: stamp@,
        payload,
    };
    let body = frame.body();
    lemma_command_carries_body(body);
    assert(!starts_with(body, CONFIRMED@)) by {
        if starts_with(body, CONFIRMED@) {
            assert forall|k: int| 0 <= k < CONFIRMED@.len() implies recipient@[0 + k]
                == #[trigger] CONFIRMED@[k] by {
                assert(body[0 + k] == CONFIRMED@[k]);
            }
        }
    }
    assert(body.subrange(0, 24) =~= recipient@);
    assert(body.subrange(24, 48) =~= sender@);
    assert(body.subrange(48, 58) =~= stamp@);
    assert(body.skip(58) =~= payload);
}

/// An acknowledgment that is written and then read comes back as it was.
pub proof fn lemma_confirm_round_trip(stamp: Timestamp, recipient: DeviceId, sender: DeviceId)
    ensures
        decoded(
            (FrameView::Confirm { stamp: stamp@, recipient: recipient@, sender: sender@ }).line(),
        ) == Ok::<FrameView, CodecError>(
            FrameView::Confirm { stamp: stamp@, recipient: recipient@, sender: sender@ },
        ),
{
    let frame = FrameView::Confirm { stamp: stamp@, recipient: recipient@, sender: sender@ };
    let body = frame.body();
    lemma_command_carries_body(body);
    assert(starts_with(body, CONFIRMED@));
    assert(body.subrange(9, 19) =~= stamp@);
    assert(body.subrange(19, 43) =~= recipient@);
    assert(body.subrange(43, 67) =~= sender@);
}

/// The line written for a message as a delivery reads back as a delivery
/// with the sender, the recipient and the text of the message, unless the
/// address of the recipient begins with the bytes `CONFIRMED`.
pub proof fn lemma_message_round_trip(message: Message)
    requires
        frame_of(message@, Role::Deliver) is Ok,
        !starts_with(message.recipient@, CONFIRMED@),
    ensures
        decoded(frame_of(message@, Role::Deliver)->Ok_0.line()) matches Ok(
            FrameView::Deliver { recipient, sender, stamp, payload },
        ) && recipient == message.recipient@ && sender == message.sender@ && payload
            == message.data@,
{
    let frame = frame_of(message@, Role::Deliver)->Ok_0;
    let body = frame.body();
    let stamp = decimal(message.time as nat);
    lemma_command_carries_body(body);
    assert(!starts_with(body, CONFIRMED@)) by {
        if starts_with(body, CONFIRMED@) {
            assert forall|k: int| 0 <= k < CONFIRMED@.len() implies message.recipient@[0 + k]
                == #[trigger] CONFIRMED@[k] by {
                assert(body[0 + k] == CONFIRMED@[k]);
            }
        }
    }
    assert(body.subrange(0, 24) =~= message.recipient@);
    assert(body.subrange(24, 48) =~= message.sender@);
    assert(body.subrange(48, 58) =~= stamp);
    assert(body.skip(58) =~= message.data@);
}

/// A message can be written, in either role, exactly when its time lies
/// from 1 000 000 000 to 9 999 999 999 seconds: the times that are ten
/// digits wide. Nothing else about a message can keep it from being written.
pub proof fn lemma_writable_times(message: Message, role: Role)
    ensures
        line_of(message@, role) is Ok <==> 1_000_000_000 <= message.time <= 9_999_999_999,
        line_of(message@, role) is Err ==> line_of(message@, role) == Err::<Seq<u8>, CodecError>(
            CodecError::MalformedInput,
        ),
{
    lemma_ten_digits(message.time as nat);
}

/// A body shorter than the header of a delivery carries no frame: to read
/// it is to fail with `MalformedFrame`, whatever it holds. So does a line
/// whose third field is that short.
pub proof fn lemma_short_body_is_malformed(body: Seq<u8>, raw: Seq<u8>)
    ensures
        body.len() < DELIVER_HEADER ==> parse_body(body) == Err::<FrameView, CodecError>(
            CodecError::MalformedFrame,
        ),
        third_field(raw) matches Some(field) && unterminated(field).len() < DELIVER_HEADER
            ==> decoded(raw) == Err::<FrameView, CodecError>(CodecError::MalformedFrame),
        third_field(raw) is None ==> decoded(raw) == Err::<FrameView, CodecError>(
            CodecError::MalformedFrame,
        ),
{
}

/// A delivery addressed to this node adds exactly one message, at the end
/// of the list of its sender: the text as it came, confirmed from the
/// start. Every other list stays as it was. Exactly one line is to be
/// written: the acknowledgment, from this node to the sender, with the
/// timestamp of the delivery.
pub proof fn lemma_delivery_for_me(
    state: EngineView,
    recipient: DeviceId,
    sender: DeviceId,
    stamp: Timestamp,
    payload: Seq<u8>,
)
    requires
        state.local == Some(recipient@),
    ensures
        ({
            let frame = FrameView::Deliver {
                recipient: recipient@,
                sender: sender@,
                stamp: stamp@,
                payload,
            };
            let confirm = FrameView::Confirm {
                stamp: stamp@,
                recipient: sender@,
                sender: recipient@,
            };
            let kept = kept_for(recipient@, sender@, stamp@, payload);
            let after = state.dispatched(frame);
            &&& after.local == state.local
            &&& after.pending == state.pending
            &&& after.logs.dom() == state.logs.dom().insert(sender@)
            &&& after.logs[sender@] == log_of(state.logs, sender@).push(kept)
            &&& kept.confirmed && kept.sender == sender@ && kept.recipient == recipient@
                && kept.data == payload
            &&& forall|peer: Seq<u8>|
                peer != sender@ && state.logs.dom().contains(peer) ==> #[trigger] after.logs[peer]
                    == state.logs[peer]
            &&& state.outcome(frame) == (OutcomeView::Delivered { confirm: confirm.line() })
            &&& state.outcome(frame).transmission() == Some(confirm.line())
            &&& decoded(confirm.line()) == Ok::<FrameView, CodecError>(confirm)
        }),
{
    lemma_confirm_round_trip(stamp, sender, recipient);
}

/// An acknowledgment addressed to this node marks as confirmed, in the list
/// of the node it comes from, each message that this node sent at the time
/// it names and that was not yet confirmed. No other message changes, no
/// list grows or goes, and nothing is written to the link. One that names
/// no such message changes nothing at all. After it, nothing that it names
/// is left unconfirmed, so that a second copy of it changes nothing.
pub proof fn lemma_acknowledgment_for_me(
    state: EngineView,
    stamp: Timestamp,
    recipient: DeviceId,
    sender: DeviceId,
)
    requires
        state.local == Some(recipient@),
    ensures
        ({
            let frame = FrameView::Confirm {
                stamp: stamp@,
                recipient: recipient@,
                sender: sender@,
            };
            let time = seconds_of(stamp@);
            let after = state.dispatched(frame);
            &&& after.local == state.local
            &&& after.pending == state.pending
            &&& after.logs.dom() == state.logs.dom()
            &&& forall|peer: Seq<u8>| #[trigger]
                state.logs.dom().contains(peer) ==> after.logs[peer].len()
                    == state.logs[peer].len()
            &&& forall|peer: Seq<u8>, i: int|
                state.logs.dom().contains(peer) && 0 <= i < state.logs[peer].len()
                    ==> #[trigger] after.logs[peer][i] == (if peer == sender@ && is_pending(
                    state.logs[peer][i],
                    recipient@,
                    time,
                ) {
                    state.logs[peer][i].acknowledged()
                } else {
                    state.logs[peer][i]
                })
            &&& state.outcome(frame).transmission() is None
            &&& state.outcome(frame) == (if state.awaits(sender@, time) {
                OutcomeView::Acknowledged
            } else {
                OutcomeView::Unmatched
            })
            &&& !state.awaits(sender@, time) ==> after == state
            &&& !after.awaits(sender@, time)
            &&& after.dispatched(frame) == after
            &&& after.outcome(frame) == OutcomeView::Unmatched
        }),
{
    let frame = FrameView::Confirm { stamp: stamp@, recipient: recipient@, sender: sender@ };
    let time = seconds_of(stamp@);
    let after = state.dispatched(frame);
    assert(after.logs.dom() =~= state.logs.dom());
    if state.logs.dom().contains(sender@) {
        let before = state.logs[sender@];
        let marked = acknowledged_log(before, recipient@, time);
        assert(after.logs[sender@] == marked);
        assert(!has_pending(marked, recipient@, time));
        assert(acknowledged_log(marked, recipient@, time) =~= marked);
        assert(after.logs.insert(sender@, marked) =~= after.logs);
        if !has_pending(before, recipient@, time) {
            assert(marked =~= before) by {
                assert forall|i: int| 0 <= i < before.len() implies marked[i] == before[i] by {
                    assert(!is_pending(before[i], recipient@, time));
                }
            }
            assert(state.logs.insert(sender@, before) =~= state.logs);
        }
    }
}

/// A frame that is not addressed to this node changes nothing that the
/// node keeps. It is passed on as it is, in the line that carries it, and
/// that line reads back as the same frame; only a delivery without text is
/// dropped, and then nothing is written.
pub proof fn lemma_relay(state: EngineView, frame: Frame)
    requires
        !state.is_for_me(frame@),
    ensures
        state.dispatched(frame@) == state,
        state.outcome(frame@).transmission() == (if frame matches Frame::Deliver { payload, .. }
            && payload@.len() == 0 {
            None
        } else {
            Some(frame@.line())
        }),
        frame is Confirm || !starts_with(frame@.recipient(), CONFIRMED@) ==> decoded(
            frame@.line(),
        ) == Ok::<FrameView, CodecError>(frame@),
{
    match frame {
        Frame::Deliver { recipient, sender, stamp, payload } => {
            if !starts_with(recipient@, CONFIRMED@) {
                lemma_deliver_round_trip(recipient, sender, stamp, payload@);
            }
        },
        Frame::Confirm { stamp, recipient, sender } => {
            lemma_confirm_round_trip(stamp, recipient, sender);
        },
    }
}

/// The body of a delivery, and of an acknowledgment that is exactly as wide
/// as its fields, is the body of the frame read from it, byte for byte.
pub proof fn lemma_body_is_kept(body: Seq<u8>)
    requires
        parse_body(body) is Ok,
        starts_with(body, CONFIRMED@) ==> body.len() == CONFIRM_WIDTH,
    ensures
        parse_body(body)->Ok_0.body() == body,
{
    let frame = parse_body(body)->Ok_0;
    if starts_with(body, CONFIRMED@) {
        assert(body.subrange(0, 9) =~= CONFIRMED@) by {
            assert forall|k: int| 0 <= k < 9 implies body.subrange(0, 9)[k] == CONFIRMED@[k] by {
                assert(body[0 + k] == CONFIRMED@[k]);
            }
        }
        assert(frame.body() =~= body.subrange(0, 9) + body.subrange(9, 19) + body.subrange(19, 43)
            + body.subrange(43, 67));
        assert(frame.body() =~= body);
    } else {
        assert(frame.body() =~= body);
    }
}

/// A line that carries a frame for another node is answered with that
/// frame's body in a command line, byte for byte, and changes nothing that
/// the node keeps. The exceptions: a delivery that is all header, for which
/// nothing is written, and an acknowledgment with bytes behind its fields,
/// which is passed on without them.
pub proof fn lemma_forward_is_verbatim(state: EngineView, line: Seq<u8>)
    requires
        decoded(line) matches Ok(frame) && !state.is_for_me(frame),
    ensures
        state.received(line) == state,
        ({
            let body = unterminated(third_field(line)->Some_0);
            let written = state.line_outcome(line)->Ok_0.transmission();
            &&& state.line_outcome(line) is Ok
            &&& !starts_with(body, CONFIRMED@) && body.len() > DELIVER_HEADER ==> written == Some(
                command(body),
            )
            &&& !starts_with(body, CONFIRMED@) && body.len() == DELIVER_HEADER ==> written is None
            &&& starts_with(body, CONFIRMED@) ==> written == Some(
                command(body.take(CONFIRM_WIDTH as int)),
            )
        }),
{
    let body = unterminated(third_field(line)->Some_0);
    let frame = decoded(line)->Ok_0;
    if starts_with(body, CONFIRMED@) {
        let exact = body.take(CONFIRM_WIDTH as int);
        assert(starts_with(exact, CONFIRMED@)) by {
            assert forall|k: int| 0 <= k < CONFIRMED@.len() implies exact[0 + k]
                == #[trigger] CONFIRMED@[k] by {
                assert(body[0 + k] == CONFIRMED@[k]);
            }
        }
        assert(exact.subrange(9, 19) =~= body.subrange(9, 19));
        assert(exact.subrange(19, 43) =~= body.subrange(19, 43));
        assert(exact.subrange(43, 67) =~= body.subrange(43, 67));
        lemma_body_is_kept(exact);
    } else {
        lemma_body_is_kept(body);
    }
}

/// A line that carries no frame changes nothing and has nothing written.
pub proof fn lemma_malformed_is_dropped(state: EngineView, pending_line: Seq<u8>)
    requires
        decoded(pending_line) is Err,
    ensures
        state.received(pending_line) == state,
        state.line_outcome(pending_line) is Err,
{
}

/// A message that waits for its acknowledgment goes on waiting, whatever
/// is read, until an acknowledgment arrives that is addressed to this node,
/// comes from the peer in whose list the message stands, and names the
/// sender and the time of the message. Nothing else confirms it: the relay
/// sends nothing again by itself.
pub proof fn lemma_waits_until_acknowledged(
    state: EngineView,
    frame: FrameView,
    peer: Seq<u8>,
    i: int,
)
    requires
        state.logs.dom().contains(peer),
        0 <= i < state.logs[peer].len(),
        !state.logs[peer][i].confirmed,
        !(frame matches FrameView::Confirm { stamp, recipient, sender } && state.is_for_me(frame)
            && sender == peer && recipient == state.logs[peer][i].sender && seconds_of(stamp)
            == state.logs[peer][i].time),
    ensures
        state.dispatched(frame).logs.dom().contains(peer),
        state.dispatched(frame).logs[peer][i] == state.logs[peer][i],
{
}

/// To deal with a frame loses nothing of what is kept: no list and no
/// message goes, no message moves, and a message only changes by being
/// confirmed.
pub proof fn lemma_dispatch_loses_nothing(state: EngineView, frame: FrameView)
    ensures
        has_grown(state.logs, state.dispatched(frame).logs),
{
}

/// To take what a read brought loses nothing of what is kept, whether it
/// completes a line or not and whatever the line holds.
pub proof fn lemma_read_loses_nothing(state: EngineView, chunk: Seq<u8>)
    ensures
        has_grown(state.logs, state.after_read(chunk).logs),
{
    let collected = EngineView { pending: pending_after(state.pending, chunk), ..state };
    match intake_of(state.pending, chunk) {
        IntakeView::Line(line) => {
            if decoded(line) is Ok {
                lemma_dispatch_loses_nothing(collected, decoded(line)->Ok_0);
            }
        },
        _ => {},
    }
}

/// To keep a message as sent, and to count a retry, loses nothing of what
/// is kept.
pub proof fn lemma_send_loses_nothing(
    state: EngineView,
    message: MessageView,
    peer: Seq<u8>,
    time: u64,
)
    ensures
        has_grown(state.logs, state.sent(message).logs),
        has_grown(state.logs, state.resent(peer, time).logs),
{
}

/// Growth adds up: what has grown out of a store that has grown out of
/// another has grown out of that other. So nothing is lost in any run of
/// reads and sends, however long.
pub proof fn lemma_growth_adds_up(first: Logs, second: Logs, third: Logs)
    requires
        has_grown(first, second),
        has_grown(second, third),
    ensures
        has_grown(first, third),
        has_grown(first, first),
{
    assert forall|peer: Seq<u8>| #[trigger] first.dom().contains(peer) implies {
        &&& third.dom().contains(peer)
        &&& first[peer].len() <= third[peer].len()
        &&& forall|i: int|
            0 <= i < first[peer].len() ==> is_later(first[peer][i], #[trigger] third[peer][i])
    } by {
        assert(second.dom().contains(peer));
        assert forall|i: int| 0 <= i < first[peer].len() implies is_later(
            first[peer][i],
            #[trigger] third[peer][i],
        ) by {
            assert(is_later(first[peer][i], second[peer][i]));
            assert(is_later(second[peer][i], third[peer][i]));
        }
    }
}

/// A node that does not know its own address takes no frame for its own:
/// it keeps nothing and marks nothing, and only passes traffic on.
pub proof fn lemma_without_identity_only_relays(state: EngineView, frame: FrameView)
    requires
        state.local is None,
    ensures
        !state.is_for_me(frame),
        state.dispatched(frame) == state,
        state.outcome(frame) is Forwarded || state.outcome(frame) is Dropped,
{
}

/// What the reader keeps between two reads never ends with a line end: a
/// line that is complete is handed on, or discarded, at once.
pub proof fn lemma_reader_keeps_no_line(pending: Seq<u8>, chunk: Seq<u8>)
    ensures
        !ends_with(pending_after(pending, chunk), CRLF@),
{
}

/// A timestamp written for a time reads back as that time.
pub proof fn lemma_stamp_round_trip(secs: u64)
    ensures
        seconds_of(decimal(secs as nat)) == secs,
{
    lemma_decimal_spells(secs as nat);
    let digits = decimal(secs as nat);
    assert(is_digit(digits[0]));
}

/// One full exchange. The node `a` sends a text to the node `b` and keeps
/// it as sent; `b` reads the line, keeps the text under `a` and answers
/// with an acknowledgment; `a` reads that answer. Then what `b` keeps has
/// the text that `a` sent, and the message that `a` keeps is confirmed.
/// The address of `b` must not begin with the bytes `CONFIRMED`, or the
/// line would read as an acknowledgment.
pub proof fn lemma_exchange(
    a: EngineView,
    b: EngineView,
    id_a: DeviceId,
    id_b: DeviceId,
    text: Seq<u8>,
    now: u64,
)
    requires
        a.local == Some(id_a@),
        b.local == Some(id_b@),
        decimal(now as nat).len() == STAMP_WIDTH,
        !starts_with(id_b@, CONFIRMED@),
    ensures
        ({
            let message = a.composed(id_b@, text, now)->Ok_0;
            let line = line_of(message, Role::Deliver)->Ok_0;
            let a_sent = a.sent(message);
            let b_after = b.received(line);
            let answer = b.line_outcome(line)->Ok_0.transmission()->Some_0;
            let a_after = a_sent.received(answer);
            let at = log_of(a.logs, id_b@).len() as int;
            &&& a.composed(id_b@, text, now) is Ok
            &&& line_of(message, Role::Deliver) is Ok
            &&& a_sent.logs[id_b@][at] == message
            &&& !message.confirmed
            &&& b.line_outcome(line) matches Ok(OutcomeView::Delivered { .. })
            &&& b_after.logs[id_a@].last().data == trimmed(text)
            &&& b_after.logs[id_a@].last().sender == id_a@
            &&& a_sent.line_outcome(answer) == Ok::<OutcomeView, CodecError>(
                OutcomeView::Acknowledged,
            )
            &&& a_after.logs[id_b@][at] == message.acknowledged()
        }),
{
    let message = a.composed(id_b@, text, now)->Ok_0;
    let stamp = decimal(now as nat);
    let frame = FrameView::Deliver {
        recipient: id_b@,
        sender: id_a@,
        stamp,
        payload: trimmed(text),
    };
    assert(frame_of(message, Role::Deliver) == Ok::<FrameView, CodecError>(frame));
    let line = frame.line();
    let body = frame.body();
    lemma_command_carries_body(body);
    assert(!starts_with(body, CONFIRMED@)) by {
        if starts_with(body, CONFIRMED@) {
            assert forall|k: int| 0 <= k < CONFIRMED@.len() implies id_b@[0 + k]
                == #[trigger] CONFIRMED@[k] by {
                assert(body[0 + k] == CONFIRMED@[k]);
            }
        }
    }
    assert(body.subrange(0, 24) =~= id_b@);
    assert(body.subrange(24, 48) =~= id_a@);
    assert(body.subrange(48, 58) =~= stamp);
    assert(body.skip(58) =~= trimmed(text));
    assert(decoded(line) == Ok::<FrameView, CodecError>(frame));
    let confirm = FrameView::Confirm { stamp, recipient: id_a@, sender: id_b@ };
    let reply = confirm.body();
    lemma_command_carries_body(reply);
    assert(starts_with(reply, CONFIRMED@));
    assert(reply.subrange(9, 19) =~= stamp);
    assert(reply.subrange(19, 43) =~= id_a@);
    assert(reply.subrange(43, 67) =~= id_b@);
    assert(decoded(confirm.line()) == Ok::<FrameView, CodecError>(confirm));
    lemma_stamp_round_trip(now);
    let a_sent = a.sent(message);
    let at = log_of(a.logs, id_b@).len() as int;
    assert(a_sent.logs[id_b@][at] == message);
    assert(is_pending(a_sent.logs[id_b@][at], id_a@, now));
}

} // verus!
