//! Learning the node's own address from the radio module at start-up.
//!
//! The handshake performs no input or output itself: it says what to ask of
//! the link, and is told what came of it.

use crate::bytes::{copy, find, find_byte, find_marker, position, trim, trimmed};
use crate::device_id::{DeviceId, ID_WIDTH};
use vstd::prelude::*;
use vstd::slice::slice_subrange;

verus! {

/// The line `AT+UID?` with its line end, which asks the module for its
/// address.
pub const UID_QUERY: [u8; 9] = [65, 84, 43, 85, 73, 68, 63, 13, 10];

/// The bytes `+UID=`, after which the module states its address.
pub const UID_MARK: [u8; 5] = [43, 85, 73, 68, 61];

/// The byte `=`.
pub const EQUALS: u8 = 61;

/// Milliseconds to let the module settle after the link is opened, before
/// it is asked anything.
pub const BOOT_SETTLE_MS: u64 = 2000;

/// Milliseconds to leave the module for its answer, before the one read
/// that takes it.
pub const RESPONSE_DELAY_MS: u64 = 100;

/// Bytes that the one read of the answer takes at most.
pub const REPLY_CAPACITY: usize = 240;

/// The address that a reply states: what follows the first `+UID=`, without
/// the white space around it. A reply without that mark states none, nor
/// does one with a further `=` behind the mark, nor one whose value is not
/// exactly as wide as an address.
pub open spec fn identity_in(reply: Seq<u8>) -> Option<Seq<u8>> {
    match find(reply, UID_MARK@) {
        None => None,
        Some(at) => {
            let value = reply.skip(at + 5);
            if position(value, EQUALS) is Some || trimmed(value).len() != ID_WIDTH {
                None
            } else {
                Some(trimmed(value))
            }
        },
    }
}

/// The line that asks the module for its address.
pub fn identity_query() -> (line: Vec<u8>)
    ensures
        line@ == UID_QUERY@,
{
    copy(&UID_QUERY)
}

/// Reads the node's address from the module's reply to the query.
pub fn parse_identity(reply: &[u8]) -> (id: Option<DeviceId>)
    ensures
        match id {
            Some(id) => identity_in(reply@) == Some(id@),
            None => identity_in(reply@) is None,
        },
{
    let end: usize = reply.len();
    let at = match find_marker(reply, &UID_MARK) {
        Some(at) => at,
        None => {
            return None;
        },
    };
    proof {
        crate::bytes::lemma_find_is_first(reply@, UID_MARK@);
    }
    let value = slice_subrange(reply, at + 5, end);
    assert(value@ =~= reply@.skip(at + 5));
    assert(value@.skip(0) =~= value@);
    if find_byte(value, EQUALS, 0).is_some() {
        return None;
    }
    DeviceId::from_bytes(trim(value))
}

/// Where the start-up handshake stands. It asks the module for its address,
/// lets it settle, leaves it time to answer, and reads the answer once.
#[derive(Clone, Copy, Debug, PartialEq, Eq)]
pub enum Handshake {
    /// The query is to be written.
    Asking,
    /// The query is written; the module is left to settle.
    Settling,
    /// The module is left time for its answer.
    Awaiting,
    /// The answer is to be read.
    Reading,
    /// The module has stated the node's address.
    Resolved(DeviceId),
    /// The address could not be learned. The node goes on without one.
    Unresolved,
}

/// Where the handshake stands, as plain values.
pub enum HandshakeView {
    Asking,
    Settling,
    Awaiting,
    Reading,
    Resolved(Seq<u8>),
    Unresolved,
}

impl View for Handshake {
    type V = HandshakeView;

    open spec fn view(&self) -> HandshakeView {
        match *self {
            Handshake::Asking => HandshakeView::Asking,
            Handshake::Settling => HandshakeView::Settling,
            Handshake::Awaiting => HandshakeView::Awaiting,
            Handshake::Reading => HandshakeView::Reading,
            Handshake::Resolved(id) => HandshakeView::Resolved(id@),
            Handshake::Unresolved => HandshakeView::Unresolved,
        }
    }
}

/// What the handshake asks of the link next.
#[derive(Clone, Debug, PartialEq, Eq)]
pub enum Request {
    /// Write this line.
    Write(Vec<u8>),
    /// Pause for this many milliseconds.
    Wait(u64),
    /// Read once, this many bytes at most.
    Read(usize),
    /// Nothing more: the handshake is over.
    Nothing,
}

/// What the handshake asks of the link next, as plain values.
pub enum RequestView {
    Write(Seq<u8>),
    Wait(u64),
    Read(usize),
    Nothing,
}

impl View for Request {
    type V = RequestView;

    open spec fn view(&self) -> RequestView {
        match *self {
            Request::Write(line) => RequestView::Write(line@),
            Request::Wait(ms) => RequestView::Wait(ms),
            Request::Read(capacity) => RequestView::Read(capacity),
            Request::Nothing => RequestView::Nothing,
        }
    }
}

/// What the link did with a request.
#[derive(Clone, Debug, PartialEq, Eq)]
pub enum Answer {
    /// The line was written, or the pause is over.
    Done,
    /// The link failed, or there is no link.
    Failed,
    /// The read brought these bytes.
    Bytes(Vec<u8>),
}

/// What the link did with a request, as plain values.
pub enum AnswerView {
    Done,
    Failed,
    Bytes(Seq<u8>),
}

impl View for Answer {
    type V = AnswerView;

    open spec fn view(&self) -> AnswerView {
        match *self {
            Answer::Done => AnswerView::Done,
            Answer::Failed => AnswerView::Failed,
            Answer::Bytes(reply) => AnswerView::Bytes(reply@),
        }
    }
}

impl HandshakeView {
    /// What is asked of the link at this stage.
    pub open spec fn request(self) -> RequestView {
        match self {
            HandshakeView::Asking => RequestView::Write(UID_QUERY@),
            HandshakeView::Settling => RequestView::Wait(BOOT_SETTLE_MS),
            HandshakeView::Awaiting => RequestView::Wait(RESPONSE_DELAY_MS),
            HandshakeView::Reading => RequestView::Read(REPLY_CAPACITY),
            HandshakeView::Resolved(_) => RequestView::Nothing,
            HandshakeView::Unresolved => RequestView::Nothing,
        }
    }

    /// The stage that follows once the link has answered. A failure at any
    /// stage ends the handshake without an address; so does a read that
    /// brings no bytes or bytes that state no address. A handshake that is
    /// over stays as it is.
    pub open spec fn after(self, answer: AnswerView) -> HandshakeView {
        match self {
            HandshakeView::Asking => if answer is Failed {
                HandshakeView::Unresolved
            } else {
                HandshakeView::Settling
            },
            HandshakeView::Settling => if answer is Failed {
                HandshakeView::Unresolved
            } else {
                HandshakeView::Awaiting
            },
            HandshakeView::Awaiting => if answer is Failed {
                HandshakeView::Unresolved
            } else {
                HandshakeView::Reading
            },
            HandshakeView::Reading => match answer {
                AnswerView::Bytes(reply) => match identity_in(reply) {
                    Some(id) => HandshakeView::Resolved(id),
                    None => HandshakeView::Unresolved,
                },
                _ => HandshakeView::Unresolved,
            },
            HandshakeView::Resolved(_) => self,
            HandshakeView::Unresolved => self,
        }
    }

    /// The address learned, once the handshake has learned one.
    pub open spec fn identity(self) -> Option<Seq<u8>> {
        match self {
            HandshakeView::Resolved(id) => Some(id),
            _ => None,
        }
    }
}

impl Handshake {
    /// A handshake at its beginning.
    pub fn begin() -> (start: Handshake)
        ensures
            start@ == HandshakeView::Asking,
    {
        Handshake::Asking
    }

    /// What is asked of the link at this stage.
    pub fn request(&self) -> (request: Request)
        ensures
            request@ == self@.request(),
    {
        match self {
            Handshake::Asking => Request::Write(identity_query()),
            Handshake::Settling => Request::Wait(BOOT_SETTLE_MS),
            Handshake::Awaiting => Request::Wait(RESPONSE_DELAY_MS),
            Handshake::Reading => Request::Read(REPLY_CAPACITY),
            Handshake::Resolved(_) => Request::Nothing,
            Handshake::Unresolved => Request::Nothing,
        }
    }

    /// The stage that follows once the link has answered.
    pub fn after(self, answer: &Answer) -> (next: Handshake)
        ensures
            next@ == self@.after(answer@),
    {
        match self {
            Handshake::Asking => match answer {
                Answer::Failed => Handshake::Unresolved,
                _ => Handshake::Settling,
            },
            Handshake::Settling => match answer {
                Answer::Failed => Handshake::Unresolved,
                _ => Handshake::Awaiting,
            },
            Handshake::Awaiting => match answer {
                Answer::Failed => Handshake::Unresolved,
                _ => Handshake::Reading,
            },
            Handshake::Reading => match answer {
                Answer::Bytes(reply) => match parse_identity(reply.as_slice()) {
                    Some(id) => Handshake::Resolved(id),
                    None => Handshake::Unresolved,
                },
                _ => Handshake::Unresolved,
            },
            Handshake::Resolved(id) => Handshake::Resolved(id),
            Handshake::Unresolved => Handshake::Unresolved,
        }
    }

    /// The address learned, once the handshake has learned one.
    pub fn identity(&self) -> (id: Option<DeviceId>)
        ensures
            match id {
                Some(id) => self@.identity() == Some(id@),
                None => self@.identity() is None,
            },
    {
        match self {
            Handshake::Resolved(id) => Some(*id),
            _ => None,
        }
    }
}

/// The handshake is over after four answers, whatever they are. It has
/// learned an address exactly when nothing failed and the bytes read state
/// one, and then it has learned that address.
pub proof fn lemma_handshake_ends(
    first: AnswerView,
    second: AnswerView,
    third: AnswerView,
    fourth: AnswerView,
)
    ensures
        ({
            let end = HandshakeView::Asking.after(first).after(second).after(third).after(fourth);
            &&& end.request() == RequestView::Nothing
            &&& end.identity() == (if first !is Failed && second !is Failed && third !is Failed {
                match fourth {
                    AnswerView::Bytes(reply) => identity_in(reply),
                    _ => None,
                }
            } else {
                None
            })
        }),
{
}

} // verus!
