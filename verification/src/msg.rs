//! The message model: the two closed sets of protocol messages and the
//! errors a decoder can report.
use vstd::prelude::*;

verus! {

/// A message sent from a client to the server.
#[derive(Clone, Debug, PartialEq)]
pub enum Client {
    /// Subscribe the sending connection to the room `chat_name`.
    Join { chat_name: String },
    /// Broadcast `message` to every subscriber of room `chat_name`.
    Post { chat_name: String, message: String },
}

/// A message sent from the server to a client.
#[derive(Clone, Debug, PartialEq)]
pub enum Server {
    /// A delivered chat message, tagged with its room of origin.
    Message { chat_name: String, message: String },
    /// A delivery or protocol failure, human-readable.
    Error(String),
}

/// The mathematical value of a [`Client`] message: its fields as
/// character sequences.
pub enum ClientView {
    Join { chat_name: Seq<char> },
    Post { chat_name: Seq<char>, message: Seq<char> },
}

/// The mathematical value of a [`Server`] message.
pub enum ServerView {
    Message { chat_name: Seq<char>, message: Seq<char> },
    Error { detail: Seq<char> },
}

impl View for Client {
    type V = ClientView;

    open spec fn view(&self) -> ClientView {
        match self {
            Client::Join { chat_name } => ClientView::Join { chat_name: chat_name@ },
            Client::Post { chat_name, message } => ClientView::Post {
                chat_name: chat_name@,
                message: message@,
            },
        }
    }
}

impl View for Server {
    type V = ServerView;

    open spec fn view(&self) -> ServerView {
        match self {
            Server::Message { chat_name, message } => ServerView::Message {
                chat_name: chat_name@,
                message: message@,
            },
            Server::Error(detail) => ServerView::Error { detail: detail@ },
        }
    }
}

/// Why a wire record failed to decode.
#[derive(Clone, Copy, Debug, PartialEq, Eq, Structural)]
pub enum ProtocolError {
    /// The record's tag names no known message variant.
    UnknownVariant,
    /// The record is not a well-formed message: broken framing, a missing
    /// required field, or a duplicated field.
    MalformedPayload,
}

} // verus!
