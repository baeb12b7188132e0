//! The typed application messages carried over the duplex connection, the
//! mathematical view of each, and the ways a received frame can be rejected.

use vstd::prelude::*;

verus! {

/// Mathematical value of an inbound message: the variant tag and its fields,
/// with text as a sequence of characters.
#[verifier::ext_equal]
pub enum RecvMessageView {
    Message { sender: u64, message: Seq<char> },
    ImageMessage { sender: u64, url: Seq<char> },
}

/// A message received from the remote party.
#[derive(Debug, PartialEq)]
pub enum RecvMessage {
    Message { sender: u64, message: String },
    ImageMessage { sender: u64, url: String },
}

impl View for RecvMessage {
    type V = RecvMessageView;

    open spec fn view(&self) -> RecvMessageView {
        match self {
            RecvMessage::Message { sender, message } => RecvMessageView::Message {
                sender: *sender,
                message: message@,
            },
            RecvMessage::ImageMessage { sender, url } => RecvMessageView::ImageMessage {
                sender: *sender,
                url: url@,
            },
        }
    }
}

/// Mathematical value of an outbound message.
#[verifier::ext_equal]
pub enum SendMessageView {
    Message { message: Seq<char>, reciever: u64 },
}

/// A message the local user wants to send. The field spelling `reciever` is
/// part of the fixed wire contract with the remote service and is kept as is.
#[derive(Debug, PartialEq)]
pub enum SendMessage {
    Message { message: String, reciever: u64 },
}

impl View for SendMessage {
    type V = SendMessageView;

    open spec fn view(&self) -> SendMessageView {
        match self {
            SendMessage::Message { message, reciever } => SendMessageView::Message {
                message: message@,
                reciever: *reciever,
            },
        }
    }
}

/// Why a received frame was rejected. Rejection is a local, recoverable
/// event: the relay reports it, drops the frame, and keeps running.
#[derive(Clone, Copy, Debug, PartialEq, Eq, Structural)]
pub enum DecodeError {
    /// The frame was not a text frame.
    NotText,
    /// The payload is not one well-formed object of the wire grammar.
    Malformed,
    /// The payload has no `type` field.
    MissingDiscriminator,
    /// The `type` field holds a tag this client does not know.
    UnknownDiscriminator,
    /// A field the variant requires is absent.
    MissingField,
    /// A field is present but holds the wrong kind of value.
    WrongFieldType,
}

} // verus!
