//! The framed codec: each message is one line of compact JSON, terminated
//! by exactly one newline.  The encoder escapes every character that JSON
//! cannot hold raw inside a string, so any message value round-trips; the
//! decoder accepts the escaped forms (including `\uXXXX` units below the
//! surrogate range), tolerates unknown string-valued fields in a record's
//! payload in any field order, and rejects a duplicated or missing field.
use crate::msg::ClientView;
use crate::msg::ProtocolError;
use crate::msg::ServerView;
use vstd::prelude::*;

verus! {

// ---------------------------------------------------------------------------
// Escaping
// ---------------------------------------------------------------------------
/// The hexadecimal digit for `n` (lower case), for `0 <= n < 16`.
pub open spec fn hex_digit(n: u32) -> char {
    if n == 0 {
        '0'
    } else if n == 1 {
        '1'
    } else if n == 2 {
        '2'
    } else if n == 3 {
        '3'
    } else if n == 4 {
        '4'
    } else if n == 5 {
        '5'
    } else if n == 6 {
        '6'
    } else if n == 7 {
        '7'
    } else if n == 8 {
        '8'
    } else if n == 9 {
        '9'
    } else if n == 10 {
        'a'
    } else if n == 11 {
        'b'
    } else if n == 12 {
        'c'
    } else if n == 13 {
        'd'
    } else if n == 14 {
        'e'
    } else {
        'f'
    }
}

/// The value of a hexadecimal digit (either case); meaningful when
/// `is_hex(c)`.
pub open spec fn hex_val(c: char) -> u32 {
    let n = c as u32;
    if 0x30 <= n <= 0x39 {
        (n - 0x30) as u32
    } else if 0x61 <= n <= 0x66 {
        (n - 0x61 + 10) as u32
    } else if 0x41 <= n <= 0x46 {
        (n - 0x41 + 10) as u32
    } else {
        0
    }
}

pub open spec fn is_hex(c: char) -> bool {
    let n = c as u32;
    (0x30 <= n <= 0x39) || (0x61 <= n <= 0x66) || (0x41 <= n <= 0x46)
}

/// How one character appears inside an encoded JSON string: itself, a
/// two-character short escape, or a `\u00XX` unit for the remaining
/// control characters.
pub open spec fn escape_char(c: char) -> Seq<char> {
    if c == '"' {
        seq!['\\', '"']
    } else if c == '\\' {
        seq!['\\', '\\']
    } else if c == '\n' {
        seq!['\\', 'n']
    } else if c == '\r' {
        seq!['\\', 'r']
    } else if c == '\t' {
        seq!['\\', 't']
    } else if (c as u32) < 0x20 {
        seq!['\\', 'u', '0', '0', hex_digit((c as u32) / 16), hex_digit((c as u32) % 16)]
    } else {
        seq![c]
    }
}

/// The body of an encoded JSON string.
pub open spec fn escape(s: Seq<char>) -> Seq<char>
    decreases s.len(),
{
    if s.len() == 0 {
        Seq::empty()
    } else {
        escape_char(s[0]) + escape(s.skip(1))
    }
}

/// A whole encoded JSON string, quotes included.
pub open spec fn jstring_of(s: Seq<char>) -> Seq<char> {
    seq!['"'] + escape(s) + seq!['"']
}

/// One `"name":"value"` field of a record's payload.
pub open spec fn field_of(name: Seq<char>, value: Seq<char>) -> Seq<char> {
    jstring_of(name) + seq![':'] + jstring_of(value)
}

/// A whole record: one tag naming the variant, one payload.
pub open spec fn record_of(tag: Seq<char>, payload: Seq<char>) -> Seq<char> {
    seq!['{'] + jstring_of(tag) + seq![':'] + payload + seq!['}']
}

/// The canonical encoding of a client message, without the line terminator.
pub open spec fn client_json(m: ClientView) -> Seq<char> {
    match m {
        ClientView::Join { chat_name } => record_of(
            "Join"@,
            seq!['{'] + field_of("chat_name"@, chat_name) + seq!['}'],
        ),
        ClientView::Post { chat_name, message } => record_of(
            "Post"@,
            seq!['{'] + field_of("chat_name"@, chat_name) + seq![','] + field_of(
                "message"@,
                message,
            ) + seq!['}'],
        ),
    }
}

/// The canonical encoding of a server message, without the line terminator.
pub open spec fn server_json(m: ServerView) -> Seq<char> {
    match m {
        ServerView::Message { chat_name, message } => record_of(
            "Message"@,
            seq!['{'] + field_of("chat_name"@, chat_name) + seq![','] + field_of(
                "message"@,
                message,
            ) + seq!['}'],
        ),
        ServerView::Error { detail } => record_of("Error"@, jstring_of(detail)),
    }
}

/// One framed client message: the record plus exactly one newline.
pub open spec fn client_line(m: ClientView) -> Seq<char> {
    client_json(m) + seq!['\n']
}

/// One framed server message.
pub open spec fn server_line(m: ServerView) -> Seq<char> {
    server_json(m) + seq!['\n']
}

// ---------------------------------------------------------------------------
// Parsing
// ---------------------------------------------------------------------------
/// The character a two-character escape stands for, if `c` can follow a
/// backslash that way.
pub open spec fn simple_unescape(c: char) -> Option<char> {
    if c == '"' {
        Some('"')
    } else if c == '\\' {
        Some('\\')
    } else if c == '/' {
        Some('/')
    } else if c == 'b' {
        Some('\u{8}')
    } else if c == 'f' {
        Some('\u{c}')
    } else if c == 'n' {
        Some('\n')
    } else if c == 'r' {
        Some('\r')
    } else if c == 't' {
        Some('\t')
    } else {
        None
    }
}

/// A `\uXXXX` unit decodes on its own only below the surrogate range.
pub open spec fn valid_unit(n: u32) -> bool {
    n < 0xD800 || (0xDFFF < n && n <= 0x10FFFF)
}

pub open spec fn hex4(a: char, b: char, c: char, d: char) -> u32 {
    (hex_val(a) * 0x1000 + hex_val(b) * 0x100 + hex_val(c) * 0x10 + hex_val(d)) as u32
}

/// Parses the characters of a JSON string after its opening quote, up to
/// and over the closing quote; returns the decoded value and the rest of
/// the input.
pub open spec fn parse_jstring_body(s: Seq<char>) -> Option<(Seq<char>, Seq<char>)>
    decreases s.len(),
{
    if s.len() == 0 {
        None
    } else if s[0] == '"' {
        Some((Seq::empty(), s.skip(1)))
    } else if s[0] == '\\' {
        if s.len() >= 2 && simple_unescape(s[1]) is Some {
            match parse_jstring_body(s.skip(2)) {
                Some((v, rest)) => Some((seq![simple_unescape(s[1])->Some_0] + v, rest)),
                None => None,
            }
        } else if s.len() >= 6 && s[1] == 'u' && is_hex(s[2]) && is_hex(s[3]) && is_hex(s[4])
            && is_hex(s[5]) && valid_unit(hex4(s[2], s[3], s[4], s[5])) {
            match parse_jstring_body(s.skip(6)) {
                Some((v, rest)) => Some((seq![hex4(s[2], s[3], s[4], s[5]) as char] + v, rest)),
                None => None,
            }
        } else {
            None
        }
    } else if (s[0] as u32) < 0x20 {
        None
    } else {
        match parse_jstring_body(s.skip(1)) {
            Some((v, rest)) => Some((seq![s[0]] + v, rest)),
            None => None,
        }
    }
}

/// Parses a whole JSON string, opening quote included.
pub open spec fn parse_jstring(s: Seq<char>) -> Option<(Seq<char>, Seq<char>)> {
    if s.len() > 0 && s[0] == '"' {
        parse_jstring_body(s.skip(1))
    } else {
        None
    }
}

/// Parses a non-empty `"name":"value"` field list up to and over the
/// closing brace.  The bound checks on the rests only make the recursion
/// visibly decreasing; [`lemma_parse_jstring_shrinks`] shows they always
/// hold of a parsed rest.
pub open spec fn parse_fields(s: Seq<char>) -> Option<(Seq<(Seq<char>, Seq<char>)>, Seq<char>)>
    decreases s.len(),
{
    match parse_jstring(s) {
        Some((name, r1)) => if r1.len() < s.len() && r1.len() > 0 && r1[0] == ':' {
            match parse_jstring(r1.skip(1)) {
                Some((value, r2)) => if r2.len() < r1.len() {
                    if r2.len() > 0 && r2[0] == ',' {
                        match parse_fields(r2.skip(1)) {
                            Some((fs, r3)) => Some((seq![(name, value)] + fs, r3)),
                            None => None,
                        }
                    } else if r2.len() > 0 && r2[0] == '}' {
                        Some((seq![(name, value)], r2.skip(1)))
                    } else {
                        None
                    }
                } else {
                    None
                },
                None => None,
            }
        } else {
            None
        },
        None => None,
    }
}

/// Parses a payload object: `{}` or `{` followed by a field list.
pub open spec fn parse_object(s: Seq<char>) -> Option<(Seq<(Seq<char>, Seq<char>)>, Seq<char>)> {
    if s.len() >= 2 && s[0] == '{' && s[1] == '}' {
        Some((Seq::empty(), s.skip(2)))
    } else if s.len() >= 1 && s[0] == '{' {
        parse_fields(s.skip(1))
    } else {
        None
    }
}

/// Parses a record's opening brace, tag and the colon after it; the rest
/// starts at the payload.
pub open spec fn parse_tag(s: Seq<char>) -> Option<(Seq<char>, Seq<char>)> {
    if s.len() > 0 && s[0] == '{' {
        match parse_jstring(s.skip(1)) {
            Some((tag, r)) => if r.len() > 0 && r[0] == ':' {
                Some((tag, r.skip(1)))
            } else {
                None
            },
            None => None,
        }
    } else {
        None
    }
}

/// The value of a list of parsed fields held in executable form.
pub open spec fn fields_view(v: Seq<(Vec<char>, Vec<char>)>) -> Seq<(Seq<char>, Seq<char>)> {
    Seq::new(v.len(), |i: int| (v[i].0@, v[i].1@))
}

/// No two fields share a name.
pub open spec fn fields_unique(fs: Seq<(Seq<char>, Seq<char>)>) -> bool {
    forall|i: int, j: int| 0 <= i < j < fs.len() ==> fs[i].0 != fs[j].0
}

/// The value of the first field named `name`, if any.
pub open spec fn field_lookup(fs: Seq<(Seq<char>, Seq<char>)>, name: Seq<char>) -> Option<
    Seq<char>,
>
    decreases fs.len(),
{
    if fs.len() == 0 {
        None
    } else if fs[0].0 == name {
        Some(fs[0].1)
    } else {
        field_lookup(fs.skip(1), name)
    }
}

/// A parsed payload is good when it ends the record, repeats no field,
/// and any remaining input is exactly the record's closing brace.
pub open spec fn payload_closes(fs: Seq<(Seq<char>, Seq<char>)>, r: Seq<char>) -> bool {
    r.len() == 1 && r[0] == '}' && fields_unique(fs)
}

/// What one line of the wire means as a client message.  A recognizable
/// record with an unknown tag is `UnknownVariant`; every other failure is
/// `MalformedPayload`.
pub open spec fn decode_client(s: Seq<char>) -> Result<ClientView, ProtocolError> {
    match parse_tag(s) {
        None => Err(ProtocolError::MalformedPayload),
        Some((tag, rest)) => if tag == "Join"@ {
            match parse_object(rest) {
                Some((fs, r)) => if payload_closes(fs, r) {
                    match field_lookup(fs, "chat_name"@) {
                        Some(chat_name) => Ok(ClientView::Join { chat_name }),
                        None => Err(ProtocolError::MalformedPayload),
                    }
                } else {
                    Err(ProtocolError::MalformedPayload)
                },
                None => Err(ProtocolError::MalformedPayload),
            }
        } else if tag == "Post"@ {
            match parse_object(rest) {
                Some((fs, r)) => if payload_closes(fs, r) {
                    match (field_lookup(fs, "chat_name"@), field_lookup(fs, "message"@)) {
                        (Some(chat_name), Some(message)) => Ok(
                            ClientView::Post { chat_name, message },
                        ),
                        _ => Err(ProtocolError::MalformedPayload),
                    }
                } else {
                    Err(ProtocolError::MalformedPayload)
                },
                None => Err(ProtocolError::MalformedPayload),
            }
        } else {
            Err(ProtocolError::UnknownVariant)
        },
    }
}

/// What one line of the wire means as a server message.
pub open spec fn decode_server(s: Seq<char>) -> Result<ServerView, ProtocolError> {
    match parse_tag(s) {
        None => Err(ProtocolError::MalformedPayload),
        Some((tag, rest)) => if tag == "Message"@ {
            match parse_object(rest) {
                Some((fs, r)) => if payload_closes(fs, r) {
                    match (field_lookup(fs, "chat_name"@), field_lookup(fs, "message"@)) {
                        (Some(chat_name), Some(message)) => Ok(
                            ServerView::Message { chat_name, message },
                        ),
                        _ => Err(ProtocolError::MalformedPayload),
                    }
                } else {
                    Err(ProtocolError::MalformedPayload)
                },
                None => Err(ProtocolError::MalformedPayload),
            }
        } else if tag == "Error"@ {
            match parse_jstring(rest) {
                Some((detail, r)) => if r.len() == 1 && r[0] == '}' {
                    Ok(ServerView::Error { detail })
                } else {
                    Err(ProtocolError::MalformedPayload)
                },
                None => Err(ProtocolError::MalformedPayload),
            }
        } else {
            Err(ProtocolError::UnknownVariant)
        },
    }
}

} // verus!
