//! The executable half of the framed codec.  Each function's contract
//! ties it exactly to the specification-level encoding and parsing
//! functions of [`crate::codec`].
use crate::codec::client_line;
use crate::codec::decode_client;
use crate::codec::decode_server;
use crate::codec::escape;
use crate::codec::escape_char;
use crate::codec::field_lookup;
use crate::codec::fields_unique;
use crate::codec::fields_view;
use crate::codec::hex_digit;
use crate::codec::hex_val;
use crate::codec::is_hex;
use crate::codec::jstring_of;
use crate::codec::parse_fields;
use crate::codec::parse_jstring;
use crate::codec::parse_jstring_body;
use crate::codec::parse_object;
use crate::codec::parse_tag;
use crate::codec::server_line;
use crate::codec::simple_unescape;
use crate::codec_proofs::lemma_char_code_identity;
use crate::codec_proofs::lemma_escape_snoc;
use crate::codec_proofs::lemma_field_lookup_absent;
use crate::codec_proofs::lemma_field_lookup_first;
use crate::codec_proofs::lemma_parse_jstring_shrinks;
use crate::msg::Client;
use crate::msg::ProtocolError;
use crate::msg::Server;
use vstd::prelude::*;
use vstd::slice::slice_index_get;
use vstd::slice::slice_subrange;
use vstd::string::StrSliceExecFns;
use vstd::string::StringExecFns;

verus! {

/// The characters of `s`, in order.
pub fn to_chars(s: &str) -> (r: Vec<char>)
    ensures
        r@ == s@,
{
    let n = s.unicode_len();
    let mut r: Vec<char> = Vec::new();
    let mut i: usize = 0;
    while i < n
        invariant
            i <= n,
            n == s@.len(),
            r@ == s@.take(i as int),
        decreases n - i,
    {
        let c = s.get_char(i);
        r.push(c);
        proof {
            assert(s@.take(i + 1 as int) =~= s@.take(i as int).push(s@[i as int]));
        }
        i = i + 1;
    }
    proof {
        assert(s@.take(n as int) =~= s@);
    }
    r
}

/// A `String` holding exactly the given characters.
pub fn chars_to_string(v: &[char]) -> (r: String)
    ensures
        r@ == v@,
{
    let mut r = String::new();
    let mut i: usize = 0;
    while i < v.len()
        invariant
            i <= v@.len(),
            r@ == v@.take(i as int),
        decreases v@.len() - i,
    {
        r.push(*slice_index_get(v, i));
        proof {
            assert(v@.take(i + 1 as int) =~= v@.take(i as int).push(v@[i as int]));
        }
        i = i + 1;
    }
    proof {
        assert(v@.take(v@.len() as int) =~= v@);
    }
    r
}

/// The lower-case hexadecimal digit for `n`.
fn hex_char(n: u32) -> (r: char)
    requires
        n < 16,
    ensures
        r == hex_digit(n),
{
    if n == 0 {
        '0'
    } else if n == 1 {
        '1'
    } else if n == 2 {
        '2'
    } else if n == 3 {
        '3'
    } else if n == 4 {
        '4'
    } else if n == 5 {
        '5'
    } else if n == 6 {
        '6'
    } else if n == 7 {
        '7'
    } else if n == 8 {
        '8'
    } else if n == 9 {
        '9'
    } else if n == 10 {
        'a'
    } else if n == 11 {
        'b'
    } else if n == 12 {
        'c'
    } else if n == 13 {
        'd'
    } else if n == 14 {
        'e'
    } else {
        'f'
    }
}

/// Appends the escaped form of one character.
fn push_escaped(out: &mut String, c: char)
    ensures
        final(out)@ == old(out)@ + escape_char(c),
{
    if c == '"' {
        out.push('\\');
        out.push('"');
        proof {
            assert(final(out)@ =~= old(out)@ + escape_char(c));
        }
    } else if c == '\\' {
        out.push('\\');
        out.push('\\');
        proof {
            assert(final(out)@ =~= old(out)@ + escape_char(c));
        }
    } else if c == '\n' {
        out.push('\\');
        out.push('n');
        proof {
            assert(final(out)@ =~= old(out)@ + escape_char(c));
        }
    } else if c == '\r' {
        out.push('\\');
        out.push('r');
        proof {
            assert(final(out)@ =~= old(out)@ + escape_char(c));
        }
    } else if c == '\t' {
        out.push('\\');
        out.push('t');
        proof {
            assert(final(out)@ =~= old(out)@ + escape_char(c));
        }
    } else if (c as u32) < 0x20 {
        let n = c as u32;
        out.push('\\');
        out.push('u');
        out.push('0');
        out.push('0');
        out.push(hex_char(n / 16));
        out.push(hex_char(n % 16));
        proof {
            assert(final(out)@ =~= old(out)@ + escape_char(c));
        }
    } else {
        out.push(c);
        proof {
            assert(final(out)@ =~= old(out)@ + escape_char(c));
        }
    }
}

/// Appends the escaped body of `s`.
fn append_escaped(out: &mut String, s: &str)
    ensures
        final(out)@ == old(out)@ + escape(s@),
{
    let cs = to_chars(s);
    let n = cs.len();
    let mut i: usize = 0;
    while i < n
        invariant
            i <= n,
            n == cs@.len(),
            cs@ == s@,
            out@ == old(out)@ + escape(s@.take(i as int)),
        decreases n - i,
    {
        push_escaped(out, cs[i]);
        proof {
            lemma_escape_snoc(s@, i as int);
            assert(old(out)@ + escape(s@.take(i as int)) + escape_char(s@[i as int]) =~= old(out)@
                + escape(s@.take(i + 1 as int)));
        }
        i = i + 1;
    }
    proof {
        assert(s@.take(n as int) =~= s@);
        assert(escape(s@.take(0 as int)) =~= Seq::<char>::empty());
    }
}

/// Appends a whole encoded JSON string.
fn append_jstring(out: &mut String, s: &str)
    ensures
        final(out)@ == old(out)@ + jstring_of(s@),
{
    out.push('"');
    append_escaped(out, s);
    out.push('"');
    proof {
        assert(final(out)@ =~= old(out)@ + jstring_of(s@));
    }
}

/// Encodes a client message as one framed line: its record and exactly
/// one newline.
pub fn encode_client(m: &Client) -> (r: String)
    ensures
        r@ == client_line(m@),
{
    let mut out = String::new();
    out.push('{');
    match m {
        Client::Join { chat_name } => {
            append_jstring(&mut out, "Join");
            out.push(':');
            out.push('{');
            append_jstring(&mut out, "chat_name");
            out.push(':');
            append_jstring(&mut out, chat_name.as_str());
            out.push('}');
        },
        Client::Post { chat_name, message } => {
            append_jstring(&mut out, "Post");
            out.push(':');
            out.push('{');
            append_jstring(&mut out, "chat_name");
            out.push(':');
            append_jstring(&mut out, chat_name.as_str());
            out.push(',');
            append_jstring(&mut out, "message");
            out.push(':');
            append_jstring(&mut out, message.as_str());
            out.push('}');
        },
    }
    out.push('}');
    out.push('\n');
    proof {
        assert(out@ =~= client_line(m@));
    }
    out
}

/// Encodes a server message as one framed line.
pub fn encode_server(m: &Server) -> (r: String)
    ensures
        r@ == server_line(m@),
{
    let mut out = String::new();
    out.push('{');
    match m {
        Server::Message { chat_name, message } => {
            append_jstring(&mut out, "Message");
            out.push(':');
            out.push('{');
            append_jstring(&mut out, "chat_name");
            out.push(':');
            append_jstring(&mut out, chat_name.as_str());
            out.push(',');
            append_jstring(&mut out, "message");
            out.push(':');
            append_jstring(&mut out, message.as_str());
            out.push('}');
        },
        Server::Error(detail) => {
            append_jstring(&mut out, "Error");
            out.push(':');
            append_jstring(&mut out, detail.as_str());
        },
    }
    out.push('}');
    out.push('\n');
    proof {
        assert(out@ =~= server_line(m@));
    }
    out
}

} // verus!

verus! {

/// The value of a hexadecimal digit character, if it is one.
fn hex_val_x(c: char) -> (r: Option<u32>)
    ensures
        r is Some <==> is_hex(c),
        r matches Some(n) ==> n == hex_val(c) && n < 16,
{
    let n = c as u32;
    if 0x30 <= n && n <= 0x39 {
        Some(n - 0x30)
    } else if 0x61 <= n && n <= 0x66 {
        Some(n - 0x61 + 10)
    } else if 0x41 <= n && n <= 0x46 {
        Some(n - 0x41 + 10)
    } else {
        None
    }
}

/// The character a two-character escape stands for, if any.
fn simple_unescape_x(c: char) -> (r: Option<char>)
    ensures
        r == simple_unescape(c),
{
    if c == '"' {
        Some('"')
    } else if c == '\\' {
        Some('\\')
    } else if c == '/' {
        Some('/')
    } else if c == 'b' {
        Some('\u{8}')
    } else if c == 'f' {
        Some('\u{c}')
    } else if c == 'n' {
        Some('\n')
    } else if c == 'r' {
        Some('\r')
    } else if c == 't' {
        Some('\t')
    } else {
        None
    }
}

/// Parses a JSON string body after its opening quote; exactly
/// [`parse_jstring_body`].
fn parse_jstring_body_x<'a>(s: &'a [char]) -> (r: Option<(Vec<char>, &'a [char])>)
    ensures
        r is Some <==> parse_jstring_body(s@) is Some,
        r matches Some((v, rest)) ==> parse_jstring_body(s@) == Some((v@, rest@)),
    decreases s@.len(),
{
    let n = s.len();
    if n == 0 {
        return None;
    }
    let c0 = *slice_index_get(s, 0);
    if c0 == '"' {
        let out: Vec<char> = Vec::new();
        proof {
            assert(out@ =~= Seq::<char>::empty());
        }
        return Some((out, slice_subrange(s, 1, n)));
    }
    if c0 == '\\' {
        if n < 2 {
            return None;
        }
        let e = *slice_index_get(s, 1);
        match simple_unescape_x(e) {
            Some(u) => {
                match parse_jstring_body_x(slice_subrange(s, 2, n)) {
                    Some((mut v, rest)) => {
                        let ghost vp = v@;
                        v.insert(0, u);
                        proof {
                            assert(v@ =~= seq![u] + vp);
                        }
                        Some((v, rest))
                    },
                    None => None,
                }
            },
            None => {
                if n < 6 || e != 'u' {
                    return None;
                }
                let h1 = hex_val_x(*slice_index_get(s, 2));
                let h2 = hex_val_x(*slice_index_get(s, 3));
                let h3 = hex_val_x(*slice_index_get(s, 4));
                let h4 = hex_val_x(*slice_index_get(s, 5));
                match (h1, h2, h3, h4) {
                    (Some(a), Some(b), Some(c), Some(d)) => {
                        let code: u32 = a * 0x1000 + b * 0x100 + c * 0x10 + d;
                        if code < 0xD800 || 0xDFFF < code {
                            let u = char::from_u32(code).unwrap();
                            proof {
                                lemma_char_code_identity(u);
                            }
                            match parse_jstring_body_x(slice_subrange(s, 6, n)) {
                                Some((mut v, rest)) => {
                                    let ghost vp = v@;
                                    v.insert(0, u);
                                    proof {
                                        assert(v@ =~= seq![u] + vp);
                                    }
                                    Some((v, rest))
                                },
                                None => None,
                            }
                        } else {
                            None
                        }
                    },
                    _ => None,
                }
            },
        }
    } else if (c0 as u32) < 0x20 {
        None
    } else {
        match parse_jstring_body_x(slice_subrange(s, 1, n)) {
            Some((mut v, rest)) => {
                let ghost vp = v@;
                v.insert(0, c0);
                proof {
                    assert(v@ =~= seq![c0] + vp);
                }
                Some((v, rest))
            },
            None => None,
        }
    }
}

/// Parses a whole JSON string; exactly [`parse_jstring`].
fn parse_jstring_x<'a>(s: &'a [char]) -> (r: Option<(Vec<char>, &'a [char])>)
    ensures
        r is Some <==> parse_jstring(s@) is Some,
        r matches Some((v, rest)) ==> parse_jstring(s@) == Some((v@, rest@)),
{
    let n = s.len();
    if n > 0 && *slice_index_get(s, 0) == '"' {
        parse_jstring_body_x(slice_subrange(s, 1, n))
    } else {
        None
    }
}

/// Parses a non-empty field list; exactly [`parse_fields`].
fn parse_fields_x<'a>(s: &'a [char]) -> (r: Option<(Vec<(Vec<char>, Vec<char>)>, &'a [char])>)
    ensures
        r is Some <==> parse_fields(s@) is Some,
        r matches Some((fs, rest)) ==> parse_fields(s@) == Some((fields_view(fs@), rest@)),
    decreases s@.len(),
{
    match parse_jstring_x(s) {
        Some((name, r1)) => {
            proof {
                lemma_parse_jstring_shrinks(s@);
            }
            if r1.len() > 0 && *slice_index_get(r1, 0) == ':' {
                match parse_jstring_x(slice_subrange(r1, 1, r1.len())) {
                    Some((value, r2)) => {
                        proof {
                            lemma_parse_jstring_shrinks(r1@.skip(1));
                        }
                        if r2.len() > 0 {
                            let d = *slice_index_get(r2, 0);
                            if d == ',' {
                                match parse_fields_x(slice_subrange(r2, 1, r2.len())) {
                                    Some((mut fs, r3)) => {
                                        let ghost fp = fs@;
                                        fs.insert(0, (name, value));
                                        proof {
                                            assert(fields_view(fs@) =~= seq![(name@, value@)]
                                                + fields_view(fp));
                                        }
                                        Some((fs, r3))
                                    },
                                    None => None,
                                }
                            } else if d == '}' {
                                let mut fs: Vec<(Vec<char>, Vec<char>)> = Vec::new();
                                fs.push((name, value));
                                proof {
                                    assert(fields_view(fs@) =~= seq![(name@, value@)]);
                                }
                                Some((fs, slice_subrange(r2, 1, r2.len())))
                            } else {
                                None
                            }
                        } else {
                            None
                        }
                    },
                    None => None,
                }
            } else {
                None
            }
        },
        None => None,
    }
}

/// Parses a payload object; exactly [`parse_object`].
fn parse_object_x<'a>(s: &'a [char]) -> (r: Option<(Vec<(Vec<char>, Vec<char>)>, &'a [char])>)
    ensures
        r is Some <==> parse_object(s@) is Some,
        r matches Some((fs, rest)) ==> parse_object(s@) == Some((fields_view(fs@), rest@)),
{
    let n = s.len();
    if n >= 2 && *slice_index_get(s, 0) == '{' && *slice_index_get(s, 1) == '}' {
        let fs: Vec<(Vec<char>, Vec<char>)> = Vec::new();
        proof {
            assert(fields_view(fs@) =~= Seq::<(Seq<char>, Seq<char>)>::empty());
        }
        Some((fs, slice_subrange(s, 2, n)))
    } else if n >= 1 && *slice_index_get(s, 0) == '{' {
        parse_fields_x(slice_subrange(s, 1, n))
    } else {
        None
    }
}

/// Parses a record's tag; exactly [`parse_tag`].
fn parse_tag_x<'a>(s: &'a [char]) -> (r: Option<(Vec<char>, &'a [char])>)
    ensures
        r is Some <==> parse_tag(s@) is Some,
        r matches Some((tag, rest)) ==> parse_tag(s@) == Some((tag@, rest@)),
{
    let n = s.len();
    if n > 0 && *slice_index_get(s, 0) == '{' {
        match parse_jstring_x(slice_subrange(s, 1, n)) {
            Some((tag, r1)) => {
                if r1.len() > 0 && *slice_index_get(r1, 0) == ':' {
                    Some((tag, slice_subrange(r1, 1, r1.len())))
                } else {
                    None
                }
            },
            None => None,
        }
    } else {
        None
    }
}

/// Whether the characters spell exactly the given text.
pub(crate) fn chars_eq_str(v: &[char], s: &str) -> (r: bool)
    ensures
        r == (v@ == s@),
{
    let n = s.unicode_len();
    if v.len() != n {
        return false;
    }
    let mut i: usize = 0;
    while i < n
        invariant
            i <= n,
            n == s@.len(),
            v@.len() == n,
            forall|j: int| 0 <= j < i ==> v@[j] == s@[j],
        decreases n - i,
    {
        if *slice_index_get(v, i) != s.get_char(i) {
            return false;
        }
        i = i + 1;
    }
    proof {
        assert(v@ =~= s@);
    }
    true
}

/// Whether two character sequences are equal.
fn chars_eq(a: &[char], b: &[char]) -> (r: bool)
    ensures
        r == (a@ == b@),
{
    let n = a.len();
    if b.len() != n {
        return false;
    }
    let mut i: usize = 0;
    while i < n
        invariant
            i <= n,
            n == a@.len(),
            b@.len() == n,
            forall|j: int| 0 <= j < i ==> a@[j] == b@[j],
        decreases n - i,
    {
        if *slice_index_get(a, i) != *slice_index_get(b, i) {
            return false;
        }
        i = i + 1;
    }
    proof {
        assert(a@ =~= b@);
    }
    true
}

/// The value of the first field with the given name, if any.
fn find_field(fs: &Vec<(Vec<char>, Vec<char>)>, name: &str) -> (r: Option<String>)
    ensures
        match field_lookup(fields_view(fs@), name@) {
            Some(v) => r matches Some(x) && x@ == v,
            None => r is None,
        },
{
    let n = fs.len();
    let mut i: usize = 0;
    while i < n
        invariant
            i <= n,
            n == fs@.len(),
            forall|j: int| 0 <= j < i ==> fields_view(fs@)[j].0 != name@,
        decreases n - i,
    {
        let p = &fs[i];
        if chars_eq_str(p.0.as_slice(), name) {
            proof {
                lemma_field_lookup_first(fields_view(fs@), name@, i as int);
            }
            return Some(chars_to_string(p.1.as_slice()));
        }
        i = i + 1;
    }
    proof {
        lemma_field_lookup_absent(fields_view(fs@), name@);
    }
    None
}

/// Whether no two fields share a name.
fn fields_unique_x(fs: &Vec<(Vec<char>, Vec<char>)>) -> (r: bool)
    ensures
        r == fields_unique(fields_view(fs@)),
{
    let n = fs.len();
    let mut i: usize = 0;
    while i < n
        invariant
            i <= n,
            n == fs@.len(),
            forall|a: int, b: int|
                0 <= a < b < n && a < i ==> fields_view(fs@)[a].0 != fields_view(fs@)[b].0,
        decreases n - i,
    {
        let mut j: usize = i + 1;
        while j < n
            invariant
                i < n,
                i < j <= n,
                n == fs@.len(),
                forall|b: int| i < b < j ==> fields_view(fs@)[i as int].0 != fields_view(fs@)[b].0,
            decreases n - j,
        {
            let pa = &fs[i];
            let pb = &fs[j];
            if chars_eq(pa.0.as_slice(), pb.0.as_slice()) {
                proof {
                    let fv = fields_view(fs@);
                    assert(fv[i as int].0 == fv[j as int].0);
                    assert(!fields_unique(fv)) by {
                        assert(0 <= i < j < fv.len() && fv[i as int].0 == fv[j as int].0);
                    }
                }
                return false;
            }
            j = j + 1;
        }
        i = i + 1;
    }
    true
}

/// Decodes one unframed line of the wire as a client message; exactly
/// [`decode_client`].
pub fn decode_client_chars(cs: &[char]) -> (r: Result<Client, ProtocolError>)
    ensures
        match decode_client(cs@) {
            Ok(mv) => r matches Ok(m) && m@ == mv,
            Err(e) => r matches Err(e2) && e2 == e,
        },
{
    match parse_tag_x(cs) {
        None => Err(ProtocolError::MalformedPayload),
        Some((tag, rest)) => {
            if chars_eq_str(tag.as_slice(), "Join") {
                match parse_object_x(rest) {
                    None => Err(ProtocolError::MalformedPayload),
                    Some((fs, r2)) => {
                        if r2.len() == 1 && *slice_index_get(r2, 0) == '}' && fields_unique_x(
                            &fs,
                        ) {
                            match find_field(&fs, "chat_name") {
                                Some(chat_name) => Ok(Client::Join { chat_name }),
                                None => Err(ProtocolError::MalformedPayload),
                            }
                        } else {
                            Err(ProtocolError::MalformedPayload)
                        }
                    },
                }
            } else if chars_eq_str(tag.as_slice(), "Post") {
                match parse_object_x(rest) {
                    None => Err(ProtocolError::MalformedPayload),
                    Some((fs, r2)) => {
                        if r2.len() == 1 && *slice_index_get(r2, 0) == '}' && fields_unique_x(
                            &fs,
                        ) {
                            match (find_field(&fs, "chat_name"), find_field(&fs, "message")) {
                                (Some(chat_name), Some(message)) => Ok(
                                    Client::Post { chat_name, message },
                                ),
                                _ => Err(ProtocolError::MalformedPayload),
                            }
                        } else {
                            Err(ProtocolError::MalformedPayload)
                        }
                    },
                }
            } else {
                Err(ProtocolError::UnknownVariant)
            }
        },
    }
}

/// Decodes one unframed line of the wire as a server message; exactly
/// [`decode_server`].
pub fn decode_server_chars(cs: &[char]) -> (r: Result<Server, ProtocolError>)
    ensures
        match decode_server(cs@) {
            Ok(mv) => r matches Ok(m) && m@ == mv,
            Err(e) => r matches Err(e2) && e2 == e,
        },
{
    match parse_tag_x(cs) {
        None => Err(ProtocolError::MalformedPayload),
        Some((tag, rest)) => {
            if chars_eq_str(tag.as_slice(), "Message") {
                match parse_object_x(rest) {
                    None => Err(ProtocolError::MalformedPayload),
                    Some((fs, r2)) => {
                        if r2.len() == 1 && *slice_index_get(r2, 0) == '}' && fields_unique_x(
                            &fs,
                        ) {
                            match (find_field(&fs, "chat_name"), find_field(&fs, "message")) {
                                (Some(chat_name), Some(message)) => Ok(
                                    Server::Message { chat_name, message },
                                ),
                                _ => Err(ProtocolError::MalformedPayload),
                            }
                        } else {
                            Err(ProtocolError::MalformedPayload)
                        }
                    },
                }
            } else if chars_eq_str(tag.as_slice(), "Error") {
                match parse_jstring_x(rest) {
                    None => Err(ProtocolError::MalformedPayload),
                    Some((detail, r2)) => {
                        if r2.len() == 1 && *slice_index_get(r2, 0) == '}' {
                            Ok(Server::Error(chars_to_string(detail.as_slice())))
                        } else {
                            Err(ProtocolError::MalformedPayload)
                        }
                    },
                }
            } else {
                Err(ProtocolError::UnknownVariant)
            }
        },
    }
}


/// Decodes one line of the wire as a client message.
pub fn decode_client_line(line: &str) -> (r: Result<Client, ProtocolError>)
    ensures
        match decode_client(line@) {
            Ok(mv) => r matches Ok(m) && m@ == mv,
            Err(e) => r matches Err(e2) && e2 == e,
        },
{
    let cs = to_chars(line);
    decode_client_chars(cs.as_slice())
}

/// Decodes one line of the wire as a server message.
pub fn decode_server_line(line: &str) -> (r: Result<Server, ProtocolError>)
    ensures
        match decode_server(line@) {
            Ok(mv) => r matches Ok(m) && m@ == mv,
            Err(e) => r matches Err(e2) && e2 == e,
        },
{
    let cs = to_chars(line);
    decode_server_chars(cs.as_slice())
}


/// Whether two pieces of text are equal.
pub(crate) fn str_eq(a: &str, b: &str) -> (r: bool)
    ensures
        r == (a@ == b@),
{
    let ca = to_chars(a);
    chars_eq_str(ca.as_slice(), b)
}

} // verus!
