//! The wire format: command lines out, received lines in.
//!
//! A line is ASCII, comma-separated and ends with carriage return and line
//! feed. Its third field, the body, is a run of fixed-width fields with no
//! separator between them, so it is cut at fixed offsets and never searched.

use crate::bytes::{
    append, copy_range, ends_with, find_byte, has_prefix, has_suffix, position, starts_with, CRLF,
};
use crate::decimal::{decimal, parse_u64, parsed, push_decimal};
use crate::device_id::DeviceId;
use crate::message::{Message, MessageView};
use vstd::prelude::*;
use vstd::slice::slice_subrange;

verus! {

/// The byte `,`, which separates the fields of a line.
pub const COMMA: u8 = 44;

/// Width of a timestamp on the wire, in bytes.
pub const STAMP_WIDTH: usize = 10;

/// The bytes `CONFIRMED`, with which the body of an acknowledgment begins.
pub const CONFIRMED: [u8; 9] = [67, 79, 78, 70, 73, 82, 77, 69, 68];

/// The bytes `AT+SEND=0,`, with which every command line begins.
pub const SEND_PREFIX: [u8; 10] = [65, 84, 43, 83, 69, 78, 68, 61, 48, 44];

/// Width of the fixed fields that precede the text in the body of a
/// delivery: recipient, sender, timestamp.
pub const DELIVER_HEADER: usize = 58;

/// Width of the body of an acknowledgment: the word `CONFIRMED`, timestamp,
/// recipient, sender.
pub const CONFIRM_WIDTH: usize = 67;

/// The ten bytes that stand for a time on the wire.
#[derive(Clone, Copy, Debug, PartialEq, Eq)]
pub struct Timestamp {
    pub digits: [u8; 10],
}

impl View for Timestamp {
    type V = Seq<u8>;

    open spec fn view(&self) -> Seq<u8> {
        self.digits@
    }
}

/// The seconds that the bytes of a timestamp stand for: the number they
/// spell, and zero where they spell none.
pub open spec fn seconds_of(stamp: Seq<u8>) -> u64 {
    match parsed(stamp) {
        Some(secs) => secs,
        None => 0,
    }
}

impl Timestamp {
    /// The timestamp for `secs` seconds since the Unix epoch, if `secs` in
    /// decimal is exactly `STAMP_WIDTH` digits wide.
    pub fn from_secs(secs: u64) -> (stamp: Option<Timestamp>)
        ensures
            stamp is Some <==> decimal(secs as nat).len() == STAMP_WIDTH,
            stamp matches Some(t) ==> t@ == decimal(secs as nat),
    {
        let mut text: Vec<u8> = Vec::new();
        push_decimal(&mut text, secs);
        assert(text@ =~= decimal(secs as nat));
        Timestamp::from_bytes(text.as_slice())
    }

    /// The timestamp held in `raw`, if `raw` is exactly `STAMP_WIDTH` bytes
    /// long.
    pub fn from_bytes(raw: &[u8]) -> (stamp: Option<Timestamp>)
        ensures
            stamp is Some <==> raw@.len() == STAMP_WIDTH,
            stamp matches Some(t) ==> t@ == raw@,
    {
        if raw.len() != STAMP_WIDTH {
            return None;
        }
        assert(raw@.subrange(0, 10) =~= raw@);
        Some(Timestamp::read(raw, 0))
    }

    /// The timestamp that stands in `raw` at index `at`.
    pub fn read(raw: &[u8], at: usize) -> (stamp: Timestamp)
        requires
            at + STAMP_WIDTH <= raw@.len(),
        ensures
            stamp@ == raw@.subrange(at as int, at + STAMP_WIDTH),
    {
        let mut digits = [0u8; 10];
        let mut i: usize = 0;
        while i < STAMP_WIDTH
            invariant
                i <= STAMP_WIDTH,
                at + STAMP_WIDTH <= raw.len(),
                forall|j: int| 0 <= j < i ==> digits@[j] == raw@[at + j],
            decreases STAMP_WIDTH - i,
        {
            digits[i] = raw[at + i];
            i += 1;
        }
        let stamp = Timestamp { digits };
        assert(stamp@ =~= raw@.subrange(at as int, at + STAMP_WIDTH));
        stamp
    }

    /// The seconds since the Unix epoch that the timestamp stands for, and
    /// zero where its bytes spell no number.
    pub fn seconds(&self) -> (secs: u64)
        ensures
            secs == seconds_of(self@),
    {
        match parse_u64(&self.digits) {
            Some(secs) => secs,
            None => 0,
        }
    }
}

/// A unit of the wire, decoded.
#[derive(Clone, Debug, PartialEq, Eq)]
pub enum Frame {
    /// Carries a text from `sender` to `recipient`.
    Deliver { recipient: DeviceId, sender: DeviceId, stamp: Timestamp, payload: Vec<u8> },
    /// Tells `recipient` that `sender` holds the text that `recipient` sent
    /// at the time `stamp`.
    Confirm { stamp: Timestamp, recipient: DeviceId, sender: DeviceId },
}

/// What a frame holds, as plain mathematical values.
pub enum FrameView {
    Deliver { recipient: Seq<u8>, sender: Seq<u8>, stamp: Seq<u8>, payload: Seq<u8> },
    Confirm { stamp: Seq<u8>, recipient: Seq<u8>, sender: Seq<u8> },
}

impl View for Frame {
    type V = FrameView;

    open spec fn view(&self) -> FrameView {
        match *self {
            Frame::Deliver { recipient, sender, stamp, payload } => FrameView::Deliver {
                recipient: recipient@,
                sender: sender@,
                stamp: stamp@,
                payload: payload@,
            },
            Frame::Confirm { stamp, recipient, sender } => FrameView::Confirm {
                stamp: stamp@,
                recipient: recipient@,
                sender: sender@,
            },
        }
    }
}

/// Why a line could not be written or read.
#[derive(Clone, Copy, Debug, PartialEq, Eq)]
pub enum CodecError {
    /// A field to be written is not as wide as the format requires.
    MalformedInput,
    /// A line read has fewer than three fields, or a body too short for its
    /// kind.
    MalformedFrame,
}

/// The kind of line to write for a message.
#[derive(Clone, Copy, Debug, PartialEq, Eq)]
pub enum Role {
    /// The message itself, on its way to its recipient.
    Deliver,
    /// The acknowledgment of the message, on its way back to its sender.
    Confirm,
}

impl FrameView {
    /// The node that the frame is for.
    pub open spec fn recipient(self) -> Seq<u8> {
        match self {
            FrameView::Deliver { recipient, .. } => recipient,
            FrameView::Confirm { recipient, .. } => recipient,
        }
    }

    /// The body that carries the frame.
    pub open spec fn body(self) -> Seq<u8> {
        match self {
            FrameView::Deliver { recipient, sender, stamp, payload } => recipient + sender + stamp
                + payload,
            FrameView::Confirm { stamp, recipient, sender } => CONFIRMED@ + stamp + recipient
                + sender,
        }
    }

    /// The command line that transmits the frame.
    pub open spec fn line(self) -> Seq<u8> {
        command(self.body())
    }
}

/// The command line that transmits `body`: the fixed prefix, the length of
/// the body in decimal, a comma, the body, and the line end.
pub open spec fn command(body: Seq<u8>) -> Seq<u8> {
    SEND_PREFIX@ + decimal(body.len()) + seq![COMMA] + body + CRLF@
}

/// The frame to write for a message in a given role. A timestamp that is not
/// exactly `STAMP_WIDTH` digits wide in decimal cannot be written. The
/// acknowledgment of a message goes from its recipient to its sender.
pub open spec fn frame_of(m: MessageView, role: Role) -> Result<FrameView, CodecError> {
    if decimal(m.time as nat).len() != STAMP_WIDTH {
        Err(CodecError::MalformedInput)
    } else {
        Ok(
            match role {
                Role::Deliver => FrameView::Deliver {
                    recipient: m.recipient,
                    sender: m.sender,
                    stamp: decimal(m.time as nat),
                    payload: m.data,
                },
                Role::Confirm => FrameView::Confirm {
                    stamp: decimal(m.time as nat),
                    recipient: m.sender,
                    sender: m.recipient,
                },
            },
        )
    }
}

/// The command line to write for a message in a given role.
pub open spec fn line_of(m: MessageView, role: Role) -> Result<Seq<u8>, CodecError> {
    match frame_of(m, role) {
        Ok(frame) => Ok(frame.line()),
        Err(e) => Err(e),
    }
}

/// The third field of a line: all that follows its second comma. A line
/// with fewer than two commas has none.
pub open spec fn third_field(raw: Seq<u8>) -> Option<Seq<u8>> {
    match position(raw, COMMA) {
        None => None,
        Some(first) => match position(raw.skip(first + 1), COMMA) {
            None => None,
            Some(second) => Some(raw.skip(first + 1 + second + 1)),
        },
    }
}

/// `s` without the line end, where it ends with one.
pub open spec fn unterminated(s: Seq<u8>) -> Seq<u8> {
    if ends_with(s, CRLF@) {
        s.take(s.len() - 2)
    } else {
        s
    }
}

/// The frame that a body carries. A body that begins with `CONFIRMED` is an
/// acknowledgment, any other a delivery; one shorter than its kind requires
/// is malformed.
pub open spec fn parse_body(body: Seq<u8>) -> Result<FrameView, CodecError> {
    if starts_with(body, CONFIRMED@) {
        if body.len() < CONFIRM_WIDTH {
            Err(CodecError::MalformedFrame)
        } else {
            Ok(
                FrameView::Confirm {
                    stamp: body.subrange(9, 19),
                    recipient: body.subrange(19, 43),
                    sender: body.subrange(43, 67),
                },
            )
        }
    } else {
        if body.len() < DELIVER_HEADER {
            Err(CodecError::MalformedFrame)
        } else {
            Ok(
                FrameView::Deliver {
                    recipient: body.subrange(0, 24),
                    sender: body.subrange(24, 48),
                    stamp: body.subrange(48, 58),
                    payload: body.skip(58),
                },
            )
        }
    }
}

/// The frame that a line carries.
pub open spec fn decoded(raw: Seq<u8>) -> Result<FrameView, CodecError> {
    match third_field(raw) {
        None => Err(CodecError::MalformedFrame),
        Some(field) => parse_body(unterminated(field)),
    }
}

/// Writes the command line that transmits `body`.
pub fn command_line(body: &[u8]) -> (line: Vec<u8>)
    ensures
        line@ == command(body@),
{
    let mut line: Vec<u8> = Vec::new();
    append(&mut line, &SEND_PREFIX);
    push_decimal(&mut line, body.len() as u64);
    line.push(COMMA);
    append(&mut line, body);
    append(&mut line, &CRLF);
    assert(line@ =~= command(body@));
    line
}

/// Writes the command line that transmits `frame`.
pub fn encode_frame(frame: &Frame) -> (line: Vec<u8>)
    ensures
        line@ == frame@.line(),
{
    let mut body: Vec<u8> = Vec::new();
    match frame {
        Frame::Deliver { recipient, sender, stamp, payload } => {
            append(&mut body, &recipient.bytes);
            append(&mut body, &sender.bytes);
            append(&mut body, &stamp.digits);
            append(&mut body, payload.as_slice());
        },
        Frame::Confirm { stamp, recipient, sender } => {
            append(&mut body, &CONFIRMED);
            append(&mut body, &stamp.digits);
            append(&mut body, &recipient.bytes);
            append(&mut body, &sender.bytes);
        },
    }
    assert(body@ =~= frame@.body());
    command_line(body.as_slice())
}

/// The frame to write for `message` in the role `role`.
pub fn frame_for(message: &Message, role: Role) -> (r: Result<Frame, CodecError>)
    ensures
        match r {
            Ok(frame) => frame_of(message@, role) == Ok::<FrameView, CodecError>(frame@),
            Err(e) => frame_of(message@, role) == Err::<FrameView, CodecError>(e),
        },
{
    let stamp = match Timestamp::from_secs(message.time) {
        Some(stamp) => stamp,
        None => {
            return Err(CodecError::MalformedInput);
        },
    };
    match role {
        Role::Deliver => Ok(
            Frame::Deliver {
                recipient: message.recipient,
                sender: message.sender,
                stamp,
                payload: crate::bytes::copy(message.data.as_slice()),
            },
        ),
        Role::Confirm => Ok(
            Frame::Confirm { stamp, recipient: message.sender, sender: message.recipient },
        ),
    }
}

/// Writes the command line for `message` in the role `role`. Fails with
/// `MalformedInput` exactly where the time of the message is not
/// `STAMP_WIDTH` digits wide; the addresses are of the right width by their
/// type.
pub fn encode(message: &Message, role: Role) -> (r: Result<Vec<u8>, CodecError>)
    ensures
        match r {
            Ok(line) => line_of(message@, role) == Ok::<Seq<u8>, CodecError>(line@),
            Err(e) => line_of(message@, role) == Err::<Seq<u8>, CodecError>(e),
        },
{
    match frame_for(message, role) {
        Ok(frame) => Ok(encode_frame(&frame)),
        Err(e) => Err(e),
    }
}

/// Reads the frame that a body carries.
pub fn decode_body(body: &[u8]) -> (r: Result<Frame, CodecError>)
    ensures
        match r {
            Ok(frame) => parse_body(body@) == Ok::<FrameView, CodecError>(frame@),
            Err(e) => parse_body(body@) == Err::<FrameView, CodecError>(e),
        },
{
    if has_prefix(body, &CONFIRMED) {
        if body.len() < CONFIRM_WIDTH {
            return Err(CodecError::MalformedFrame);
        }
        Ok(
            Frame::Confirm {
                stamp: Timestamp::read(body, 9),
                recipient: DeviceId::read(body, 19),
                sender: DeviceId::read(body, 43),
            },
        )
    } else {
        if body.len() < DELIVER_HEADER {
            return Err(CodecError::MalformedFrame);
        }
        Ok(
            Frame::Deliver {
                recipient: DeviceId::read(body, 0),
                sender: DeviceId::read(body, 24),
                stamp: Timestamp::read(body, 48),
                payload: copy_range(body, DELIVER_HEADER, body.len()),
            },
        )
    }
}

/// Reads the frame that a line carries. The line is split at its first two
/// commas; what follows the second, without the line end, is the body.
/// Fails with `MalformedFrame` where the line has fewer than three fields or
/// the body is shorter than its kind requires.
pub fn decode(raw: &[u8]) -> (r: Result<Frame, CodecError>)
    ensures
        match r {
            Ok(frame) => decoded(raw@) == Ok::<FrameView, CodecError>(frame@),
            Err(e) => decoded(raw@) == Err::<FrameView, CodecError>(e),
        },
{
    let end: usize = raw.len();
    assert(raw@.skip(0) =~= raw@);
    let first = match find_byte(raw, COMMA, 0) {
        Some(at) => at,
        None => {
            return Err(CodecError::MalformedFrame);
        },
    };
    let second = match find_byte(raw, COMMA, first + 1) {
        Some(at) => at,
        None => {
            return Err(CodecError::MalformedFrame);
        },
    };
    let field = slice_subrange(raw, second + 1, end);
    assert(field@ =~= raw@.skip(first + 1 + (second - (first + 1)) + 1));
    let body = if has_suffix(field, &CRLF) {
        slice_subrange(field, 0, field.len() - 2)
    } else {
        field
    };
    decode_body(body)
}

} // verus!
