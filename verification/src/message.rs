//! The messages that a node keeps.

use crate::bytes::copy;
use crate::device_id::DeviceId;
use vstd::prelude::*;

verus! {

/// One text message, as sent from this node or as received for it.
#[derive(Clone, Debug, PartialEq, Eq)]
pub struct Message {
    /// The node that wrote the message.
    pub sender: DeviceId,
    /// The node that the message is for.
    pub recipient: DeviceId,
    /// The text, as the bytes carried on the wire.
    pub data: Vec<u8>,
    /// When the message was sent, in seconds since the Unix epoch.
    pub time: u64,
    /// Whether the recipient is known to hold the message.
    pub confirmed: bool,
    /// How often the message was sent again after the first time.
    pub retry_count: u64,
}

/// What a message holds, as plain mathematical values.
pub struct MessageView {
    pub sender: Seq<u8>,
    pub recipient: Seq<u8>,
    pub data: Seq<u8>,
    pub time: u64,
    pub confirmed: bool,
    pub retry_count: u64,
}

impl View for Message {
    type V = MessageView;

    open spec fn view(&self) -> MessageView {
        MessageView {
            sender: self.sender@,
            recipient: self.recipient@,
            data: self.data@,
            time: self.time,
            confirmed: self.confirmed,
            retry_count: self.retry_count,
        }
    }
}

impl MessageView {
    /// The peer under which a node with address `local` keeps this message:
    /// the other end of the exchange.
    pub open spec fn peer(self, local: Seq<u8>) -> Seq<u8> {
        if self.sender == local {
            self.recipient
        } else {
            self.sender
        }
    }

    /// The same message, marked as held by its recipient.
    pub open spec fn acknowledged(self) -> MessageView {
        MessageView { confirmed: true, ..self }
    }

    /// The same message, sent once more. The count stops at its largest value.
    pub open spec fn retried(self) -> MessageView {
        MessageView {
            retry_count: if self.retry_count < u64::MAX {
                (self.retry_count + 1) as u64
            } else {
                self.retry_count
            },
            ..self
        }
    }
}

impl Message {
    /// Whether the node with address `local` wrote this message.
    pub fn is_outgoing(&self, local: &DeviceId) -> (r: bool)
        ensures
            r == (self@.sender == local@),
    {
        self.sender.same(local)
    }

    /// The peer under which the node with address `local` keeps this message.
    pub fn peer(&self, local: &DeviceId) -> (key: DeviceId)
        ensures
            key@ == self@.peer(local@),
    {
        if self.sender.same(local) {
            self.recipient
        } else {
            self.sender
        }
    }

    /// A copy of the message.
    pub fn duplicate(&self) -> (copy: Message)
        ensures
            copy@ == self@,
    {
        Message {
            sender: self.sender,
            recipient: self.recipient,
            data: copy(self.data.as_slice()),
            time: self.time,
            confirmed: self.confirmed,
            retry_count: self.retry_count,
        }
    }
}

} // verus!
