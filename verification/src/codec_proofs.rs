//! Round-trip laws of the codec: a parsed rest is strictly shorter than
//! its input, and decoding a canonical record gives back the message it
//! encodes.
use crate::codec::client_json;
use crate::codec::decode_client;
use crate::codec::decode_server;
use crate::codec::escape;
use crate::codec::escape_char;
use crate::codec::field_lookup;
use crate::codec::field_of;
use crate::codec::fields_unique;
use crate::codec::hex4;
use crate::codec::hex_digit;
use crate::codec::hex_val;
use crate::codec::is_hex;
use crate::codec::jstring_of;
use crate::codec::parse_fields;
use crate::codec::parse_jstring;
use crate::codec::parse_jstring_body;
use crate::codec::parse_tag;
use crate::codec::payload_closes;
use crate::codec::record_of;
use crate::codec::server_json;
use crate::codec::simple_unescape;
use crate::codec::valid_unit;
use crate::msg::ClientView;
use crate::msg::ProtocolError;
use crate::msg::ServerView;
use vstd::prelude::*;

verus! {

/// A JSON string parse always consumes at least the quotes.
pub proof fn lemma_parse_jstring_shrinks(s: Seq<char>)
    ensures
        parse_jstring_body(s) matches Some((v, rest)) ==> rest.len() < s.len(),
        parse_jstring(s) matches Some((v, rest)) ==> rest.len() < s.len(),
{
    lemma_parse_jstring_body_shrinks(s);
    if s.len() > 0 && s[0] == '"' {
        lemma_parse_jstring_body_shrinks(s.skip(1));
    }
}

proof fn lemma_parse_jstring_body_shrinks(s: Seq<char>)
    ensures
        parse_jstring_body(s) matches Some((v, rest)) ==> rest.len() < s.len(),
    decreases s.len(),
{
    if s.len() == 0 {
    } else if s[0] == '"' {
    } else if s[0] == '\\' {
        if s.len() >= 2 {
            lemma_parse_jstring_body_shrinks(s.skip(2));
        }
        if s.len() >= 6 {
            lemma_parse_jstring_body_shrinks(s.skip(6));
        }
    } else {
        lemma_parse_jstring_body_shrinks(s.skip(1));
    }
}

/// Parsing the escaped body of `v` followed by a closing quote gives back
/// exactly `v` and the input after the quote.
pub proof fn lemma_escape_round_trip(v: Seq<char>, rest: Seq<char>)
    ensures
        parse_jstring_body(escape(v) + seq!['"'] + rest) == Some((v, rest)),
    decreases v.len(),
{
    let s = escape(v) + seq!['"'] + rest;
    if v.len() == 0 {
        assert(s =~= seq!['"'] + rest);
        assert(s.skip(1) =~= rest);
        assert(v =~= Seq::<char>::empty());
    } else {
        let c = v[0];
        let tail = v.skip(1);
        lemma_escape_round_trip(tail, rest);
        let cont = escape(tail) + seq!['"'] + rest;
        assert(escape(v) == escape_char(c) + escape(tail));
        if c == '"' || c == '\\' || c == '\n' || c == '\r' || c == '\t' {
            assert(s =~= escape_char(c) + cont);
            assert(s[0] == '\\');
            assert(simple_unescape(s[1]) == Some(c));
            assert(s.skip(2) =~= cont);
            assert(seq![c] + tail =~= v);
        } else if (c as u32) < 0x20 {
            let n = c as u32;
            assert(s =~= seq!['\\', 'u', '0', '0', hex_digit(n / 16), hex_digit(n % 16)] + cont);
            assert(s[0] == '\\' && s[1] == 'u');
            assert(simple_unescape('u') is None);
            assert(is_hex('0') && hex_val('0') == 0);
            lemma_hex_digit_val(n / 16);
            lemma_hex_digit_val(n % 16);
            assert(n / 16 * 16 + n % 16 == n);
            assert(hex4(s[2], s[3], s[4], s[5]) == n);
            assert(valid_unit(n));
            assert(s.skip(6) =~= cont);
            lemma_char_code_identity(c);
            assert(seq![c] + tail =~= v);
        } else {
            assert(s =~= seq![c] + cont);
            assert(s[0] == c);
            assert(s[0] != '"' && s[0] != '\\' && (s[0] as u32) >= 0x20);
            assert(s.skip(1) =~= cont);
            assert(seq![c] + tail =~= v);
        }
    }
}

/// Every `char` is its own code point read back as a character.
pub proof fn lemma_char_code_identity(c: char)
    ensures
        ((c as u32) as char) == c,
{
}

proof fn lemma_hex_digit_val(n: u32)
    requires
        n < 16,
    ensures
        is_hex(hex_digit(n)),
        hex_val(hex_digit(n)) == n,
{
}

/// Escaping distributes over concatenation.
pub proof fn lemma_escape_append(a: Seq<char>, b: Seq<char>)
    ensures
        escape(a + b) == escape(a) + escape(b),
    decreases a.len(),
{
    if a.len() == 0 {
        assert(a + b =~= b);
        assert(escape(a) + escape(b) =~= escape(b));
    } else {
        assert((a + b)[0] == a[0]);
        assert((a + b).skip(1) =~= a.skip(1) + b);
        lemma_escape_append(a.skip(1), b);
        assert(escape_char(a[0]) + (escape(a.skip(1)) + escape(b)) =~= (escape_char(a[0]) + escape(
            a.skip(1),
        )) + escape(b));
    }
}

/// Extending the input by one character extends its escaped body by that
/// character's escape.
pub proof fn lemma_escape_snoc(s: Seq<char>, i: int)
    requires
        0 <= i < s.len(),
    ensures
        escape(s.take(i + 1)) == escape(s.take(i)) + escape_char(s[i]),
{
    assert(s.take(i + 1) =~= s.take(i) + seq![s[i]]);
    lemma_escape_append(s.take(i), seq![s[i]]);
    let one = seq![s[i]];
    assert(one.len() == 1 && one[0] == s[i]);
    assert(one.skip(1) =~= Seq::<char>::empty());
    assert(escape(one) == escape_char(s[i]) + escape(one.skip(1)));
    assert(escape(Seq::<char>::empty()) =~= Seq::<char>::empty());
    assert(escape(one) =~= escape_char(s[i]));
}

/// Parsing a whole encoded JSON string gives back its value.
pub proof fn lemma_parse_jstring_of(v: Seq<char>, rest: Seq<char>)
    ensures
        parse_jstring(jstring_of(v) + rest) == Some((v, rest)),
{
    let s = jstring_of(v) + rest;
    assert(s =~= seq!['"'] + (escape(v) + seq!['"'] + rest));
    assert(s[0] == '"');
    assert(s.skip(1) =~= escape(v) + seq!['"'] + rest);
    lemma_escape_round_trip(v, rest);
}

/// A one-field payload body parses to exactly that field.
pub proof fn lemma_parse_one_field(n: Seq<char>, v: Seq<char>, rest: Seq<char>)
    ensures
        parse_fields(field_of(n, v) + seq!['}'] + rest) == Some((seq![(n, v)], rest)),
{
    let s = field_of(n, v) + seq!['}'] + rest;
    let r1 = seq![':'] + jstring_of(v) + seq!['}'] + rest;
    assert(s =~= jstring_of(n) + r1);
    lemma_parse_jstring_of(n, r1);
    assert(jstring_of(n).len() >= 2);
    assert(r1.len() < s.len());
    assert(r1[0] == ':');
    let r2 = seq!['}'] + rest;
    assert(r1.skip(1) =~= jstring_of(v) + r2);
    lemma_parse_jstring_of(v, r2);
    assert(jstring_of(v).len() >= 2);
    assert(r2.len() < r1.len());
    assert(r2[0] == '}');
    assert(r2.skip(1) =~= rest);
}

/// A two-field payload body parses to exactly those two fields in order.
pub proof fn lemma_parse_two_fields(
    n1: Seq<char>,
    v1: Seq<char>,
    n2: Seq<char>,
    v2: Seq<char>,
    rest: Seq<char>,
)
    ensures
        parse_fields(field_of(n1, v1) + seq![','] + field_of(n2, v2) + seq!['}'] + rest) == Some(
            (seq![(n1, v1), (n2, v2)], rest),
        ),
{
    let s = field_of(n1, v1) + seq![','] + field_of(n2, v2) + seq!['}'] + rest;
    let r1 = seq![':'] + jstring_of(v1) + seq![','] + field_of(n2, v2) + seq!['}'] + rest;
    assert(s =~= jstring_of(n1) + r1);
    lemma_parse_jstring_of(n1, r1);
    assert(jstring_of(n1).len() >= 2);
    assert(r1.len() < s.len());
    assert(r1[0] == ':');
    let r2 = seq![','] + field_of(n2, v2) + seq!['}'] + rest;
    assert(r1.skip(1) =~= jstring_of(v1) + r2);
    lemma_parse_jstring_of(v1, r2);
    assert(jstring_of(v1).len() >= 2);
    assert(r2.len() < r1.len());
    assert(r2[0] == ',');
    assert(r2.skip(1) =~= field_of(n2, v2) + seq!['}'] + rest);
    lemma_parse_one_field(n2, v2, rest);
    assert(seq![(n1, v1)] + seq![(n2, v2)] =~= seq![(n1, v1), (n2, v2)]);
}

/// The first field bearing a name decides that name's lookup.
pub proof fn lemma_field_lookup_first(fs: Seq<(Seq<char>, Seq<char>)>, name: Seq<char>, i: int)
    requires
        0 <= i < fs.len(),
        fs[i].0 == name,
        forall|j: int| 0 <= j < i ==> fs[j].0 != name,
    ensures
        field_lookup(fs, name) == Some(fs[i].1),
    decreases i,
{
    if i > 0 {
        assert(fs[0].0 != name);
        assert(forall|j: int| 0 <= j < i - 1 ==> fs.skip(1)[j] == fs[j + 1]);
        lemma_field_lookup_first(fs.skip(1), name, i - 1);
        assert(fs.skip(1)[i - 1] == fs[i]);
    }
}

/// A name that no field bears looks up to nothing.
pub proof fn lemma_field_lookup_absent(fs: Seq<(Seq<char>, Seq<char>)>, name: Seq<char>)
    requires
        forall|j: int| 0 <= j < fs.len() ==> fs[j].0 != name,
    ensures
        field_lookup(fs, name) is None,
    decreases fs.len(),
{
    if fs.len() > 0 {
        assert(forall|j: int| 0 <= j < fs.len() - 1 ==> fs.skip(1)[j] == fs[j + 1]);
        lemma_field_lookup_absent(fs.skip(1), name);
    }
}

/// Decoding the canonical encoding of any client message gives it back.
pub proof fn lemma_client_round_trip(m: ClientView)
    ensures
        decode_client(client_json(m)) == Ok::<ClientView, ProtocolError>(m),
{
    reveal_strlit("Join");
    reveal_strlit("Post");
    reveal_strlit("chat_name");
    reveal_strlit("message");
    match m {
        ClientView::Join { chat_name } => {
            let payload = seq!['{'] + field_of("chat_name"@, chat_name) + seq!['}'];
            lemma_parse_record(
                "Join"@,
                payload,
                client_json(m),
            );
            let po = payload + seq!['}'];
            assert(po[0] == '{');
            assert(po[1] == '"');
            assert(po.skip(1) =~= field_of("chat_name"@, chat_name) + seq!['}'] + seq!['}']);
            lemma_parse_one_field("chat_name"@, chat_name, seq!['}']);
            let fs = seq![("chat_name"@, chat_name)];
            assert(payload_closes(fs, seq!['}']));
            assert(field_lookup(fs, "chat_name"@) == Some(chat_name));
        },
        ClientView::Post { chat_name, message } => {
            let payload = seq!['{'] + field_of("chat_name"@, chat_name) + seq![','] + field_of(
                "message"@,
                message,
            ) + seq!['}'];
            lemma_parse_record("Post"@, payload, client_json(m));
            assert("Post"@[0] != "Join"@[0]);
            assert("Post"@ != "Join"@);
            let po = payload + seq!['}'];
            assert(po[0] == '{');
            assert(po[1] == '"');
            assert(po.skip(1) =~= field_of("chat_name"@, chat_name) + seq![','] + field_of(
                "message"@,
                message,
            ) + seq!['}'] + seq!['}']);
            lemma_parse_two_fields("chat_name"@, chat_name, "message"@, message, seq!['}']);
            let fs = seq![("chat_name"@, chat_name), ("message"@, message)];
            assert("chat_name"@.len() != "message"@.len());
            assert(fields_unique(fs));
            assert(payload_closes(fs, seq!['}']));
            assert("chat_name"@[0] != "message"@[0]);
            assert("chat_name"@ != "message"@);
            assert(field_lookup(fs, "chat_name"@) == Some(chat_name));
            let fs1 = seq![("message"@, message)];
            assert(fs.skip(1) =~= fs1);
            assert(field_lookup(fs1, "message"@) == Some(message));
            assert(field_lookup(fs, "message"@) == Some(message));
        },
    }
}

/// Decoding the canonical encoding of any server message gives it back.
pub proof fn lemma_server_round_trip(m: ServerView)
    ensures
        decode_server(server_json(m)) == Ok::<ServerView, ProtocolError>(m),
{
    reveal_strlit("Message");
    reveal_strlit("Error");
    reveal_strlit("chat_name");
    reveal_strlit("message");
    match m {
        ServerView::Message { chat_name, message } => {
            let payload = seq!['{'] + field_of("chat_name"@, chat_name) + seq![','] + field_of(
                "message"@,
                message,
            ) + seq!['}'];
            lemma_parse_record("Message"@, payload, server_json(m));
            let po = payload + seq!['}'];
            assert(po[0] == '{');
            assert(po[1] == '"');
            assert(po.skip(1) =~= field_of("chat_name"@, chat_name) + seq![','] + field_of(
                "message"@,
                message,
            ) + seq!['}'] + seq!['}']);
            lemma_parse_two_fields("chat_name"@, chat_name, "message"@, message, seq!['}']);
            let fs = seq![("chat_name"@, chat_name), ("message"@, message)];
            assert("chat_name"@.len() != "message"@.len());
            assert(fields_unique(fs));
            assert(payload_closes(fs, seq!['}']));
            assert("chat_name"@[0] != "message"@[0]);
            assert("chat_name"@ != "message"@);
            assert(field_lookup(fs, "chat_name"@) == Some(chat_name));
            let fs1 = seq![("message"@, message)];
            assert(fs.skip(1) =~= fs1);
            assert(field_lookup(fs1, "message"@) == Some(message));
            assert(field_lookup(fs, "message"@) == Some(message));
        },
        ServerView::Error { detail } => {
            let payload = jstring_of(detail);
            lemma_parse_record("Error"@, payload, server_json(m));
            assert("Error"@[0] != "Message"@[0]);
            assert("Error"@ != "Message"@);
            assert(payload + seq!['}'] =~= jstring_of(detail) + seq!['}']);
            lemma_parse_jstring_of(detail, seq!['}']);
        },
    }
}

/// A canonical record parses to its tag, with the payload and the closing
/// brace left over.
proof fn lemma_parse_record(tag: Seq<char>, payload: Seq<char>, s: Seq<char>)
    requires
        s == record_of(tag, payload),
    ensures
        parse_tag(s) == Some((tag, payload + seq!['}'])),
{
    let r = seq![':'] + payload + seq!['}'];
    assert(s =~= seq!['{'] + (jstring_of(tag) + r));
    assert(s[0] == '{');
    assert(s.skip(1) =~= jstring_of(tag) + r);
    lemma_parse_jstring_of(tag, r);
    assert(r[0] == ':');
    assert(r.skip(1) =~= payload + seq!['}']);
}

} // verus!
