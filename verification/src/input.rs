//! The client's local input grammar, line-oriented and
//! whitespace-delimited: `join <chat_name>` with nothing but whitespace
//! after the name, and `post <chat_name> <message...>` where the message
//! is the rest of the line with its leading whitespace removed.  Any
//! other line is rejected; a rejected line is discarded by the caller and
//! never reaches the wire.
use crate::codec_exec::chars_eq_str;
use crate::codec_exec::chars_to_string;
use crate::codec_exec::to_chars;
use crate::msg::Client;
use crate::msg::ClientView;
use vstd::prelude::*;
use vstd::slice::slice_index_get;
use vstd::slice::slice_subrange;

verus! {

/// The grammar's whitespace: Unicode's White_Space characters.
pub open spec fn is_space(c: char) -> bool {
    let n = c as u32;
    n == 0x20 || (0x9 <= n <= 0xD) || n == 0x85 || n == 0xA0 || n == 0x1680 || (0x2000 <= n
        <= 0x200A) || n == 0x2028 || n == 0x2029 || n == 0x202F || n == 0x205F || n == 0x3000
}

/// The input without its leading whitespace.
pub open spec fn trim_start(s: Seq<char>) -> Seq<char>
    decreases s.len(),
{
    if s.len() > 0 && is_space(s[0]) {
        trim_start(s.skip(1))
    } else {
        s
    }
}

/// The longest whitespace-free prefix, and everything from the first
/// whitespace on.
pub open spec fn split_token(s: Seq<char>) -> (Seq<char>, Seq<char>)
    decreases s.len(),
{
    if s.len() == 0 || is_space(s[0]) {
        (Seq::empty(), s)
    } else {
        let (t, r) = split_token(s.skip(1));
        (seq![s[0]] + t, r)
    }
}

/// The next whitespace-delimited token and the rest of the line, if the
/// line holds anything but whitespace.
pub open spec fn get_value_spec(s: Seq<char>) -> Option<(Seq<char>, Seq<char>)> {
    let t = trim_start(s);
    if t.len() == 0 {
        None
    } else {
        Some(split_token(t))
    }
}

/// What one line of local input means, if anything.
pub open spec fn parse_input_spec(line: Seq<char>) -> Option<ClientView> {
    match get_value_spec(line) {
        None => None,
        Some((cmd, rest)) => if cmd == "join"@ {
            match get_value_spec(rest) {
                None => None,
                Some((chat, rem)) => if trim_start(rem).len() == 0 {
                    Some(ClientView::Join { chat_name: chat })
                } else {
                    None
                },
            }
        } else if cmd == "post"@ {
            match get_value_spec(rest) {
                None => None,
                Some((chat, rem)) => Some(
                    ClientView::Post { chat_name: chat, message: trim_start(rem) },
                ),
            }
        } else {
            None
        },
    }
}

/// Trimming leaves either nothing or a non-space first character.
proof fn lemma_trim_start_head(s: Seq<char>)
    ensures
        trim_start(s).len() > 0 ==> !is_space(trim_start(s)[0]),
    decreases s.len(),
{
    if s.len() > 0 && is_space(s[0]) {
        lemma_trim_start_head(s.skip(1));
    }
}

/// A parsed request never names an empty room: the grammar's tokens are
/// non-empty.
pub proof fn lemma_parsed_chat_name_nonempty(line: Seq<char>)
    ensures
        match parse_input_spec(line) {
            Some(ClientView::Join { chat_name }) => chat_name.len() > 0,
            Some(ClientView::Post { chat_name, message: _ }) => chat_name.len() > 0,
            None => true,
        },
{
    match get_value_spec(line) {
        None => {},
        Some((cmd, rest)) => {
            let t = trim_start(rest);
            lemma_trim_start_head(rest);
            if t.len() > 0 {
                assert(split_token(t).0 == seq![t[0]] + split_token(t.skip(1)).0);
            }
        },
    }
}

fn is_space_x(c: char) -> (r: bool)
    ensures
        r == is_space(c),
{
    let n = c as u32;
    n == 0x20 || (0x9 <= n && n <= 0xD) || n == 0x85 || n == 0xA0 || n == 0x1680 || (0x2000 <= n
        && n <= 0x200A) || n == 0x2028 || n == 0x2029 || n == 0x202F || n == 0x205F || n == 0x3000
}

fn trim_start_x<'a>(s: &'a [char]) -> (r: &'a [char])
    ensures
        r@ == trim_start(s@),
    decreases s@.len(),
{
    if s.len() > 0 {
        let c = *slice_index_get(s, 0);
        if is_space_x(c) {
            return trim_start_x(slice_subrange(s, 1, s.len()));
        }
    }
    s
}

fn split_token_x<'a>(s: &'a [char]) -> (r: (Vec<char>, &'a [char]))
    ensures
        r.0@ == split_token(s@).0,
        r.1@ == split_token(s@).1,
    decreases s@.len(),
{
    if s.len() == 0 {
        let t: Vec<char> = Vec::new();
        proof {
            assert(t@ =~= split_token(s@).0);
        }
        return (t, s);
    }
    let c = *slice_index_get(s, 0);
    if is_space_x(c) {
        let t: Vec<char> = Vec::new();
        proof {
            assert(t@ =~= split_token(s@).0);
        }
        (t, s)
    } else {
        let (mut t, r) = split_token_x(slice_subrange(s, 1, s.len()));
        let ghost tp = t@;
        t.insert(0, c);
        proof {
            assert(t@ =~= seq![c] + tp);
        }
        (t, r)
    }
}

/// The next whitespace-delimited token of the line and everything after
/// it; nothing when the line is only whitespace.
pub fn get_value(input: &str) -> (r: Option<(String, String)>)
    ensures
        match get_value_spec(input@) {
            Some((tok, rest)) => r matches Some(p) && p.0@ == tok && p.1@ == rest,
            None => r is None,
        },
{
    let cs = to_chars(input);
    let t = trim_start_x(cs.as_slice());
    if t.len() == 0 {
        return None;
    }
    let (tok, rest) = split_token_x(t);
    Some((chars_to_string(tok.as_slice()), chars_to_string(rest)))
}

/// Turns one line of local input into the client message it requests, or
/// nothing for a line the grammar rejects.
pub fn parse_input(line: &str) -> (r: Option<Client>)
    ensures
        match parse_input_spec(line@) {
            Some(mv) => r matches Some(m) && m@ == mv,
            None => r is None,
        },
{
    let cs = to_chars(line);
    let t1 = trim_start_x(cs.as_slice());
    if t1.len() == 0 {
        return None;
    }
    let (cmd, rest1) = split_token_x(t1);
    if chars_eq_str(cmd.as_slice(), "join") {
        let t2 = trim_start_x(rest1);
        if t2.len() == 0 {
            return None;
        }
        let (chat, rest2) = split_token_x(t2);
        let t3 = trim_start_x(rest2);
        if t3.len() > 0 {
            return None;
        }
        Some(Client::Join { chat_name: chars_to_string(chat.as_slice()) })
    } else if chars_eq_str(cmd.as_slice(), "post") {
        let t2 = trim_start_x(rest1);
        if t2.len() == 0 {
            return None;
        }
        let (chat, rest2) = split_token_x(t2);
        let msg = trim_start_x(rest2);
        Some(
            Client::Post {
                chat_name: chars_to_string(chat.as_slice()),
                message: chars_to_string(msg),
            },
        )
    } else {
        None
    }
}

} // verus!
