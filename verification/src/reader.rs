//! Assembling received lines from what the link hands over piece by piece.

use crate::bytes::{append, copy_range, ends_with, find, find_marker, has_suffix, CRLF};
use vstd::prelude::*;

verus! {

/// The bytes `+RCV=`, with which the module announces what it received.
pub const RCV_MARK: [u8; 5] = [43, 82, 67, 86, 61];

/// Collects the bytes read from the link until they end with a line end.
pub struct LinkReader {
    buffer: Vec<u8>,
}

/// What came of handing a piece to the reader.
#[derive(Clone, Debug, PartialEq, Eq)]
pub enum Intake {
    /// No line is complete yet: read again after a pause.
    Pending,
    /// What was collected ended with a line end but held no announcement:
    /// noise or an echo, now discarded.
    Noise,
    /// A line, from its announcement to its line end.
    Line(Vec<u8>),
}

/// What came of handing a piece to the reader, as plain values.
pub enum IntakeView {
    Pending,
    Noise,
    Line(Seq<u8>),
}

impl View for Intake {
    type V = IntakeView;

    open spec fn view(&self) -> IntakeView {
        match *self {
            Intake::Pending => IntakeView::Pending,
            Intake::Noise => IntakeView::Noise,
            Intake::Line(line) => IntakeView::Line(line@),
        }
    }
}

/// What the reader makes of the piece `chunk` when `pending` is what it has
/// collected before: nothing until the whole ends with a line end, then the
/// part of the whole from the first announcement on, if there is one.
pub open spec fn intake_of(pending: Seq<u8>, chunk: Seq<u8>) -> IntakeView {
    let whole = pending + chunk;
    if !ends_with(whole, CRLF@) {
        IntakeView::Pending
    } else {
        match find(whole, RCV_MARK@) {
            Some(at) => IntakeView::Line(whole.skip(at)),
            None => IntakeView::Noise,
        }
    }
}

/// What the reader keeps after the piece `chunk`: all of it until the whole
/// ends with a line end, nothing after that.
pub open spec fn pending_after(pending: Seq<u8>, chunk: Seq<u8>) -> Seq<u8> {
    let whole = pending + chunk;
    if ends_with(whole, CRLF@) {
        Seq::empty()
    } else {
        whole
    }
}

impl View for LinkReader {
    type V = Seq<u8>;

    /// The bytes collected and not yet handed on.
    closed spec fn view(&self) -> Seq<u8> {
        self.buffer@
    }
}

impl LinkReader {
    /// A reader that has collected nothing.
    pub fn new() -> (reader: LinkReader)
        ensures
            reader@ == Seq::<u8>::empty(),
    {
        LinkReader { buffer: Vec::new() }
    }

    /// Takes the piece `chunk`, as read from the link; an empty piece
    /// stands for a read that brought nothing.
    pub fn accept(&mut self, chunk: &[u8]) -> (intake: Intake)
        ensures
            intake@ == intake_of(old(self)@, chunk@),
            final(self)@ == pending_after(old(self)@, chunk@),
    {
        append(&mut self.buffer, chunk);
        if !has_suffix(self.buffer.as_slice(), &CRLF) {
            return Intake::Pending;
        }
        let intake = match find_marker(self.buffer.as_slice(), &RCV_MARK) {
            Some(at) => Intake::Line(copy_range(self.buffer.as_slice(), at, self.buffer.len())),
            None => Intake::Noise,
        };
        self.buffer.clear();
        intake
    }

    /// Forgets what was collected: after a failure of the link the bytes
    /// before it and the bytes after it are not one line.
    pub fn reset(&mut self)
        ensures
            final(self)@ == Seq::<u8>::empty(),
    {
        self.buffer.clear();
    }
}

} // verus!
