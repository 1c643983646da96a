//! The relay: what a node does with what it reads, and how it sends.
//!
//! The engine holds the node's address, its conversations and the bytes of a
//! line not yet complete. It performs no input or output itself: it is told
//! what was read and answers with what is to be written.

use crate::bytes::{copy, trim, trimmed};
use crate::decimal::decimal;
use crate::device_id::{DeviceId, ID_WIDTH};
use crate::frame::{
    decode, decoded, encode_frame, line_of, seconds_of, CodecError, Frame, FrameView, Role,
    Timestamp, STAMP_WIDTH,
};
use crate::message::{Message, MessageView};
use crate::reader::{intake_of, pending_after, Intake, IntakeView, LinkReader};
use crate::store::{
    acknowledged, appended, has_pending, log_of, log_view, retried, ConversationStore, Logs,
};
use vstd::prelude::*;

verus! {

/// Why a text could not be sent.
#[derive(Clone, Copy, Debug, PartialEq, Eq)]
pub enum SendError {
    /// The node does not know its own address.
    IdentityUnresolved,
    /// The recipient's address or the time is not as wide as the wire format
    /// requires.
    MalformedInput,
}

/// A text ready to be sent: the message to keep and the line to write.
#[derive(Clone, Debug, PartialEq, Eq)]
pub struct Outgoing {
    pub message: Message,
    pub line: Vec<u8>,
}

/// What the relay did with a frame.
#[derive(Clone, Debug, PartialEq, Eq)]
pub enum Outcome {
    /// The frame carried a text for this node, which is now kept; `confirm`
    /// is the line to write in acknowledgment.
    Delivered { confirm: Vec<u8> },
    /// The frame acknowledged what this node sent; the messages it named are
    /// now marked as confirmed.
    Acknowledged,
    /// The frame was an acknowledgment for this node that named nothing
    /// still unconfirmed; it was dropped.
    Unmatched,
    /// The frame was for another node; `line` is to be written to pass it
    /// on.
    Forwarded { line: Vec<u8> },
    /// The frame was a delivery for another node without any text; it was
    /// dropped.
    Dropped,
}

/// What the relay did with a frame, as plain values.
pub enum OutcomeView {
    Delivered { confirm: Seq<u8> },
    Acknowledged,
    Unmatched,
    Forwarded { line: Seq<u8> },
    Dropped,
}

impl View for Outcome {
    type V = OutcomeView;

    open spec fn view(&self) -> OutcomeView {
        match *self {
            Outcome::Delivered { confirm } => OutcomeView::Delivered { confirm: confirm@ },
            Outcome::Acknowledged => OutcomeView::Acknowledged,
            Outcome::Unmatched => OutcomeView::Unmatched,
            Outcome::Forwarded { line } => OutcomeView::Forwarded { line: line@ },
            Outcome::Dropped => OutcomeView::Dropped,
        }
    }
}

impl OutcomeView {
    /// The line to write to the link, if there is one.
    pub open spec fn transmission(self) -> Option<Seq<u8>> {
        match self {
            OutcomeView::Delivered { confirm } => Some(confirm),
            OutcomeView::Forwarded { line } => Some(line),
            _ => None,
        }
    }
}

impl Outcome {
    /// The line to write to the link, if there is one.
    pub fn transmission(&self) -> (line: Option<&Vec<u8>>)
        ensures
            match line {
                Some(line) => self@.transmission() == Some(line@),
                None => self@.transmission() is None,
            },
    {
        match self {
            Outcome::Delivered { confirm } => Some(confirm),
            Outcome::Forwarded { line } => Some(line),
            _ => None,
        }
    }
}

/// What came of a read.
#[derive(Clone, Debug, PartialEq, Eq)]
pub enum Report {
    /// No line is complete yet.
    Waiting,
    /// A line end came without an announcement before it; what was
    /// collected is discarded.
    Noise,
    /// A line was announced but carried no frame; it is dropped.
    Malformed,
    /// A frame was read and the relay dealt with it.
    Handled(Outcome),
}

/// What came of a read, as plain values.
pub enum ReportView {
    Waiting,
    Noise,
    Malformed,
    Handled(OutcomeView),
}

impl View for Report {
    type V = ReportView;

    open spec fn view(&self) -> ReportView {
        match *self {
            Report::Waiting => ReportView::Waiting,
            Report::Noise => ReportView::Noise,
            Report::Malformed => ReportView::Malformed,
            Report::Handled(outcome) => ReportView::Handled(outcome@),
        }
    }
}

impl ReportView {
    /// The line to write to the link, if there is one.
    pub open spec fn transmission(self) -> Option<Seq<u8>> {
        match self {
            ReportView::Handled(outcome) => outcome.transmission(),
            _ => None,
        }
    }
}

impl Report {
    /// The line to write to the link, if there is one.
    pub fn transmission(&self) -> (line: Option<&Vec<u8>>)
        ensures
            match line {
                Some(line) => self@.transmission() == Some(line@),
                None => self@.transmission() is None,
            },
    {
        match self {
            Report::Handled(outcome) => outcome.transmission(),
            _ => None,
        }
    }
}

/// The message that a node keeps for a delivery it received: confirmed from
/// the start, never sent again.
pub open spec fn kept_for(
    recipient: Seq<u8>,
    sender: Seq<u8>,
    stamp: Seq<u8>,
    payload: Seq<u8>,
) -> MessageView {
    MessageView {
        sender,
        recipient,
        data: payload,
        time: seconds_of(stamp),
        confirmed: true,
        retry_count: 0,
    }
}

/// The state of a relay, as plain values.
pub struct EngineView {
    /// The node's own address, if it is known.
    pub local: Option<Seq<u8>>,
    /// The messages kept, by peer.
    pub logs: Logs,
    /// The bytes read that do not yet make a line.
    pub pending: Seq<u8>,
}

impl EngineView {
    /// Whether a frame is for this node. A node that does not know its
    /// address takes no frame for its own.
    pub open spec fn is_for_me(self, frame: FrameView) -> bool {
        self.local == Some(frame.recipient())
    }

    /// What the relay does with a frame.
    ///
    /// A delivery for this node is kept and acknowledged. An acknowledgment
    /// for this node marks what it names, or is dropped where it names
    /// nothing that is still unconfirmed. Anything else is traffic between
    /// other nodes and is passed on as it came, but for a delivery without
    /// text, which is dropped.
    pub open spec fn outcome(self, frame: FrameView) -> OutcomeView {
        match frame {
            FrameView::Deliver { recipient, sender, stamp, payload } => {
                if self.is_for_me(frame) {
                    OutcomeView::Delivered {
                        confirm: (FrameView::Confirm {
                            stamp,
                            recipient: sender,
                            sender: recipient,
                        }).line(),
                    }
                } else if payload.len() > 0 {
                    OutcomeView::Forwarded { line: frame.line() }
                } else {
                    OutcomeView::Dropped
                }
            },
            FrameView::Confirm { stamp, recipient, sender } => {
                if self.is_for_me(frame) {
                    if has_pending(log_of(self.logs, sender), recipient, seconds_of(stamp)) {
                        OutcomeView::Acknowledged
                    } else {
                        OutcomeView::Unmatched
                    }
                } else {
                    OutcomeView::Forwarded { line: frame.line() }
                }
            },
        }
    }

    /// The state after the relay has dealt with a frame. Only a frame for
    /// this node changes what is kept: a delivery adds one message to the
    /// list of its sender, an acknowledgment marks, in the list of its
    /// sender, what this node sent at the time it names.
    pub open spec fn dispatched(self, frame: FrameView) -> EngineView {
        match frame {
            FrameView::Deliver { recipient, sender, stamp, payload } => {
                if self.is_for_me(frame) {
                    EngineView {
                        logs: appended(
                            self.logs,
                            sender,
                            kept_for(recipient, sender, stamp, payload),
                        ),
                        ..self
                    }
                } else {
                    self
                }
            },
            FrameView::Confirm { stamp, recipient, sender } => {
                if self.is_for_me(frame) {
                    EngineView {
                        logs: acknowledged(self.logs, sender, recipient, seconds_of(stamp)),
                        ..self
                    }
                } else {
                    self
                }
            },
        }
    }

    /// What comes of a line: the outcome for the frame it carries, where it
    /// carries one.
    pub open spec fn line_outcome(self, line: Seq<u8>) -> Result<OutcomeView, CodecError> {
        match decoded(line) {
            Ok(frame) => Ok(self.outcome(frame)),
            Err(e) => Err(e),
        }
    }

    /// The state after a line. A line that carries no frame changes nothing.
    pub open spec fn received(self, line: Seq<u8>) -> EngineView {
        match decoded(line) {
            Ok(frame) => self.dispatched(frame),
            Err(_) => self,
        }
    }

    /// What comes of a read that brought `chunk`.
    pub open spec fn report(self, chunk: Seq<u8>) -> ReportView {
        match intake_of(self.pending, chunk) {
            IntakeView::Pending => ReportView::Waiting,
            IntakeView::Noise => ReportView::Noise,
            IntakeView::Line(line) => match self.line_outcome(line) {
                Ok(outcome) => ReportView::Handled(outcome),
                Err(_) => ReportView::Malformed,
            },
        }
    }

    /// The state after a read that brought `chunk`.
    pub open spec fn after_read(self, chunk: Seq<u8>) -> EngineView {
        let collected = EngineView { pending: pending_after(self.pending, chunk), ..self };
        match intake_of(self.pending, chunk) {
            IntakeView::Line(line) => collected.received(line),
            _ => collected,
        }
    }

    /// The message to keep for a text that this node sends to `recipient`
    /// at the time `now`: the text without the white space around it, not
    /// yet confirmed. There is none where the node does not know its own
    /// address, where `recipient` is not as wide as an address, or where
    /// `now` in decimal is not as wide as a timestamp.
    pub open spec fn composed(self, recipient: Seq<u8>, text: Seq<u8>, now: u64) -> Result<
        MessageView,
        SendError,
    > {
        match self.local {
            None => Err(SendError::IdentityUnresolved),
            Some(local) => {
                if recipient.len() != ID_WIDTH || decimal(now as nat).len() != STAMP_WIDTH {
                    Err(SendError::MalformedInput)
                } else {
                    Ok(
                        MessageView {
                            sender: local,
                            recipient,
                            data: trimmed(text),
                            time: now,
                            confirmed: false,
                            retry_count: 0,
                        },
                    )
                }
            },
        }
    }

    /// The state after `message` was written to the link: it is kept, at
    /// the end of the list of its recipient.
    pub open spec fn sent(self, message: MessageView) -> EngineView {
        EngineView { logs: appended(self.logs, message.recipient, message), ..self }
    }

    /// The state after this node has written again what it sent to `peer`
    /// at `time`: each such message that is not yet confirmed counts one
    /// more retry.
    pub open spec fn resent(self, peer: Seq<u8>, time: u64) -> EngineView {
        match self.local {
            Some(local) => EngineView { logs: retried(self.logs, peer, local, time), ..self },
            None => self,
        }
    }

    /// Whether this node has sent something to `peer` at `time` that is not
    /// yet confirmed.
    pub open spec fn awaits(self, peer: Seq<u8>, time: u64) -> bool {
        match self.local {
            Some(local) => has_pending(log_of(self.logs, peer), local, time),
            None => false,
        }
    }
}

/// The relay of one node.
pub struct Engine {
    local: Option<DeviceId>,
    store: ConversationStore,
    reader: LinkReader,
}

impl View for Engine {
    type V = EngineView;

    closed spec fn view(&self) -> EngineView {
        EngineView {
            local: match self.local {
                Some(id) => Some(id@),
                None => None,
            },
            logs: self.store.logs(),
            pending: self.reader@,
        }
    }
}

impl Engine {
    /// A relay for the node with the address `local`, with nothing kept and
    /// nothing read. Without an address the node only passes traffic on.
    pub fn new(local: Option<DeviceId>) -> (engine: Engine)
        ensures
            engine@.local == (match local {
                Some(id) => Some(id@),
                None => None,
            }),
            engine@.logs == Map::<Seq<u8>, Seq<MessageView>>::empty(),
            engine@.pending == Seq::<u8>::empty(),
    {
        Engine { local, store: ConversationStore::new(), reader: LinkReader::new() }
    }

    /// The node's own address, if it is known.
    pub fn local_id(&self) -> (id: Option<DeviceId>)
        ensures
            self@.local == (match id {
                Some(id) => Some(id@),
                None => None,
            }),
    {
        self.local
    }

    /// A copy of the messages exchanged with `peer`, oldest first, if there
    /// are any.
    pub fn snapshot(&self, peer: &DeviceId) -> (list: Option<Vec<Message>>)
        ensures
            match list {
                Some(messages) => self@.logs.dom().contains(peer@) && log_view(messages@)
                    == self@.logs[peer@],
                None => !self@.logs.dom().contains(peer@),
            },
    {
        self.store.snapshot(peer)
    }

    /// Deals with one frame read from the link.
    pub fn dispatch(&mut self, frame: &Frame) -> (outcome: Outcome)
        ensures
            outcome@ == old(self)@.outcome(frame@),
            final(self)@ == old(self)@.dispatched(frame@),
    {
        match frame {
            Frame::Deliver { recipient, sender, stamp, payload } => {
                if self.is_local(recipient) {
                    let confirm = encode_frame(
                        &Frame::Confirm { stamp: *stamp, recipient: *sender, sender: *recipient },
                    );
                    let message = Message {
                        sender: *sender,
                        recipient: *recipient,
                        data: copy(payload.as_slice()),
                        time: stamp.seconds(),
                        confirmed: true,
                        retry_count: 0,
                    };
                    self.store.append(sender, message);
                    Outcome::Delivered { confirm }
                } else if payload.len() > 0 {
                    Outcome::Forwarded { line: encode_frame(frame) }
                } else {
                    Outcome::Dropped
                }
            },
            Frame::Confirm { stamp, recipient, sender } => {
                if self.is_local(recipient) {
                    if self.store.acknowledge(sender, recipient, stamp.seconds()) {
                        Outcome::Acknowledged
                    } else {
                        Outcome::Unmatched
                    }
                } else {
                    Outcome::Forwarded { line: encode_frame(frame) }
                }
            },
        }
    }

    /// Whether `id` is the node's own address.
    fn is_local(&self, id: &DeviceId) -> (r: bool)
        ensures
            r == (self@.local == Some(id@)),
    {
        match &self.local {
            Some(local) => local.same(id),
            None => false,
        }
    }

    /// Deals with one line read from the link: reads the frame it carries
    /// and dispatches it. A line that carries no frame is rejected and
    /// changes nothing.
    pub fn receive(&mut self, line: &[u8]) -> (r: Result<Outcome, CodecError>)
        ensures
            match r {
                Ok(outcome) => old(self)@.line_outcome(line@) == Ok::<OutcomeView, CodecError>(
                    outcome@,
                ),
                Err(e) => old(self)@.line_outcome(line@) == Err::<OutcomeView, CodecError>(e),
            },
            final(self)@ == old(self)@.received(line@),
    {
        match decode(line) {
            Ok(frame) => Ok(self.dispatch(&frame)),
            Err(e) => Err(e),
        }
    }

    /// Takes what one read of the link brought, an empty `chunk` where it
    /// brought nothing, and deals with the line that it completes, if it
    /// completes one.
    pub fn on_read(&mut self, chunk: &[u8]) -> (report: Report)
        ensures
            report@ == old(self)@.report(chunk@),
            final(self)@ == old(self)@.after_read(chunk@),
    {
        match self.reader.accept(chunk) {
            Intake::Pending => Report::Waiting,
            Intake::Noise => Report::Noise,
            Intake::Line(line) => match self.receive(line.as_slice()) {
                Ok(outcome) => Report::Handled(outcome),
                Err(_) => Report::Malformed,
            },
        }
    }

    /// Takes note that a read of the link failed: what was collected of a
    /// line is discarded, everything else stays, and polling goes on.
    pub fn on_link_error(&mut self)
        ensures
            final(self)@ == (EngineView { pending: Seq::empty(), ..old(self)@ }),
    {
        self.reader.reset();
    }

    /// Prepares a text for `recipient`: the message to keep once the line is
    /// written, and the line. Nothing is kept yet.
    pub fn compose(&self, recipient: &[u8], text: &[u8], now: u64) -> (r: Result<
        Outgoing,
        SendError,
    >)
        ensures
            match r {
                Ok(out) => self@.composed(recipient@, text@, now) == Ok::<MessageView, SendError>(
                    out.message@,
                ) && line_of(out.message@, Role::Deliver) == Ok::<Seq<u8>, CodecError>(out.line@),
                Err(e) => self@.composed(recipient@, text@, now) == Err::<MessageView, SendError>(
                    e,
                ),
            },
    {
        let sender = match self.local {
            Some(id) => id,
            None => {
                return Err(SendError::IdentityUnresolved);
            },
        };
        let recipient = match DeviceId::from_bytes(recipient) {
            Some(id) => id,
            None => {
                return Err(SendError::MalformedInput);
            },
        };
        let stamp = match Timestamp::from_secs(now) {
            Some(stamp) => stamp,
            None => {
                return Err(SendError::MalformedInput);
            },
        };
        let message = Message {
            sender,
            recipient,
            data: copy(trim(text)),
            time: now,
            confirmed: false,
            retry_count: 0,
        };
        let line = encode_frame(
            &Frame::Deliver { recipient, sender, stamp, payload: copy(trim(text)) },
        );
        Ok(Outgoing { message, line })
    }

    /// Keeps `message` as sent: to be called once its line was written to
    /// the link.
    pub fn record_sent(&mut self, message: Message)
        ensures
            final(self)@ == old(self)@.sent(message@),
    {
        let peer = message.recipient;
        self.store.append(&peer, message);
    }

    /// Counts a retry for what this node sent to `peer` at `time` and is
    /// not yet confirmed: to be called once its line was written again.
    /// Says whether there was such a message.
    pub fn record_retry(&mut self, peer: &DeviceId, time: u64) -> (counted: bool)
        ensures
            final(self)@ == old(self)@.resent(peer@, time),
            counted == old(self)@.awaits(peer@, time),
    {
        match self.local {
            Some(local) => self.store.count_retry(peer, &local, time),
            None => false,
        }
    }
}

} // verus!
