//! Core of a real-time messaging client: the wire codec that maps typed
//! messages to and from text frames, and a model of the transport relay
//! that forwards traffic between one duplex connection and a pair of
//! bounded queues.

pub mod codec;
pub mod messages;
pub mod relay;
pub mod roundtrip;
pub mod state;

pub use messages::{DecodeError, RecvMessage, SendMessage};
