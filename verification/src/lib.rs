//! A relay node for text messages carried over a serial link to a radio
//! transceiver module: addressed delivery, acknowledgment and one-hop flood
//! forwarding on top of a line-oriented, half-duplex transport.

pub mod bytes;
pub mod decimal;
pub mod device_id;
pub mod engine;
pub mod frame;
pub mod identity;
pub mod laws;
pub mod link;
pub mod message;
pub mod reader;
pub mod store;

pub use device_id::DeviceId;
pub use engine::{Engine, Outcome, Outgoing, Report, SendError};
pub use frame::{CodecError, Frame, Role, Timestamp};
pub use message::Message;
pub use reader::{Intake, LinkReader};
pub use store::ConversationStore;
