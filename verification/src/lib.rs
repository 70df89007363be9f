//! A line-delimited JSON chat protocol: the message model, a framed
//! codec proved to round-trip, the client's input grammar and session
//! steps, and the server-side room broadcast registry.
pub mod broadcast;
pub mod codec;
pub mod codec_exec;
pub mod codec_proofs;
mod ext;
pub mod frame;
pub mod input;
pub mod msg;
pub mod session;

pub use msg::Client;
pub use msg::ProtocolError;
pub use msg::Server;
