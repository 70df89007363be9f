//! The client session's decision steps.  The session itself runs two
//! concurrent I/O loops — reading local input and reading the server's
//! stream — and those loops live with the I/O; every decision they take
//! is a function here, from plain values to plain values.
use crate::codec::client_line;
use crate::codec_exec::encode_client;
use crate::input::parse_input;
use crate::input::parse_input_spec;
use crate::msg::Server;
use crate::msg::ServerView;
use vstd::prelude::*;
use vstd::string::StrSliceExecFns;
use vstd::string::StringExecFns;

verus! {

/// What a client shows its user for one received server message: a
/// delivered message with its room of origin, or an error's detail.
pub open spec fn render_spec(m: ServerView) -> Seq<char> {
    match m {
        ServerView::Message { chat_name, message } => "Chat Name: "@ + chat_name + "\nMessage: "@
            + message,
        ServerView::Error { detail } => "Error received: "@ + detail,
    }
}

/// Renders one received server message for the user.
pub fn render_server_message(m: &Server) -> (r: String)
    ensures
        r@ == render_spec(m@),
{
    match m {
        Server::Message { chat_name, message } => {
            let mut out = String::from_str("Chat Name: ");
            out.append(chat_name.as_str());
            out.append("\nMessage: ");
            out.append(message.as_str());
            proof {
                assert(out@ =~= render_spec(m@));
            }
            out
        },
        Server::Error(detail) => {
            let mut out = String::from_str("Error received: ");
            out.append(detail.as_str());
            proof {
                assert(out@ =~= render_spec(m@));
            }
            out
        },
    }
}

/// One step of the outbound loop: the framed record one line of local
/// input puts on the wire, or nothing for a rejected line.
pub fn outbound_request(line: &str) -> (r: Option<String>)
    ensures
        match parse_input_spec(line@) {
            Some(mv) => r matches Some(w) && w@ == client_line(mv),
            None => r is None,
        },
{
    match parse_input(line) {
        Some(m) => Some(encode_client(&m)),
        None => None,
    }
}

} // verus!
