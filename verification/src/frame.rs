//! Framing: a byte-for-byte faithful model of reading messages off a
//! stream.  The stream is split on newlines; each line decodes
//! independently, so one malformed line gives one error item without
//! ending the stream.  An encoded record never holds a raw newline, which
//! is what makes the framing sound.
use crate::codec::client_json;
use crate::codec::client_line;
use crate::codec::decode_client;
use crate::codec::decode_server;
use crate::codec::escape;
use crate::codec::escape_char;
use crate::codec::hex_digit;
use crate::codec::jstring_of;
use crate::codec::server_json;
use crate::codec::server_line;
use crate::codec_exec::decode_client_chars;
use crate::codec_exec::decode_server_chars;
use crate::codec_exec::to_chars;
use crate::codec_proofs::lemma_client_round_trip;
use crate::codec_proofs::lemma_server_round_trip;
use crate::msg::Client;
use crate::msg::ClientView;
use crate::msg::ProtocolError;
use crate::msg::Server;
use crate::msg::ServerView;
use vstd::prelude::*;
use vstd::slice::slice_index_get;
use vstd::slice::slice_subrange;

verus! {

/// The position of the first newline, or the length when there is none.
pub open spec fn first_newline(s: Seq<char>) -> int
    decreases s.len(),
{
    if s.len() == 0 {
        0
    } else if s[0] == '\n' {
        0
    } else {
        1 + first_newline(s.skip(1))
    }
}

/// The lines of a stream: each newline ends one line, and a non-empty
/// tail without a terminator is a final line of its own, so a cleanly
/// terminated stream yields no trailing empty line.
pub open spec fn split_lines(s: Seq<char>) -> Seq<Seq<char>>
    decreases s.len(),
{
    if s.len() == 0 {
        Seq::empty()
    } else {
        let i = first_newline(s);
        if 0 <= i < s.len() {
            seq![s.take(i)] + split_lines(s.skip(i + 1))
        } else {
            seq![s]
        }
    }
}

/// What a whole stream means read as client messages, one result per line.
pub open spec fn client_stream(s: Seq<char>) -> Seq<Result<ClientView, ProtocolError>> {
    let ls = split_lines(s);
    Seq::new(ls.len(), |i: int| decode_client(ls[i]))
}

/// What a whole stream means read as server messages.
pub open spec fn server_stream(s: Seq<char>) -> Seq<Result<ServerView, ProtocolError>> {
    let ls = split_lines(s);
    Seq::new(ls.len(), |i: int| decode_server(ls[i]))
}

/// No character of `s` is a newline.
pub open spec fn no_newline(s: Seq<char>) -> bool {
    forall|k: int| 0 <= k < s.len() ==> s[k] != '\n'
}

pub proof fn lemma_first_newline_bounds(s: Seq<char>)
    ensures
        0 <= first_newline(s) <= s.len(),
        first_newline(s) < s.len() ==> s[first_newline(s)] == '\n',
        forall|j: int| 0 <= j < first_newline(s) ==> s[j] != '\n',
    decreases s.len(),
{
    if s.len() > 0 && s[0] != '\n' {
        lemma_first_newline_bounds(s.skip(1));
        assert(forall|j: int| 1 <= j < first_newline(s) ==> s[j] == s.skip(1)[j - 1]);
    }
}

pub proof fn lemma_first_newline_at(s: Seq<char>, i: int)
    requires
        0 <= i <= s.len(),
        forall|j: int| 0 <= j < i ==> s[j] != '\n',
        i < s.len() ==> s[i] == '\n',
    ensures
        first_newline(s) == i,
    decreases s.len(),
{
    if s.len() > 0 && s[0] != '\n' {
        assert(i >= 1);
        assert(forall|j: int| 0 <= j < i - 1 ==> s.skip(1)[j] == s[j + 1]);
        assert(i - 1 < s.skip(1).len() ==> s.skip(1)[i - 1] == s[i]);
        lemma_first_newline_at(s.skip(1), i - 1);
    }
}

proof fn lemma_no_newline_concat(a: Seq<char>, b: Seq<char>)
    requires
        no_newline(a),
        no_newline(b),
    ensures
        no_newline(a + b),
{
    assert forall|k: int| 0 <= k < (a + b).len() implies (a + b)[k] != '\n' by {
        if k < a.len() {
            assert((a + b)[k] == a[k]);
        } else {
            assert((a + b)[k] == b[k - a.len()]);
        }
    }
}

/// An escaped string body never holds a raw newline.
pub proof fn lemma_escape_no_newline(v: Seq<char>)
    ensures
        no_newline(escape(v)),
    decreases v.len(),
{
    if v.len() > 0 {
        lemma_escape_no_newline(v.skip(1));
        let c = v[0];
        assert(no_newline(escape_char(c))) by {
            if !(c == '"' || c == '\\' || c == '\n' || c == '\r' || c == '\t') && (c as u32)
                < 0x20 {
                assert(hex_digit((c as u32) / 16) != '\n');
                assert(hex_digit((c as u32) % 16) != '\n');
            }
        }
        lemma_no_newline_concat(escape_char(c), escape(v.skip(1)));
    }
}

proof fn lemma_jstring_no_newline(v: Seq<char>)
    ensures
        no_newline(jstring_of(v)),
{
    lemma_escape_no_newline(v);
    lemma_no_newline_concat(seq!['"'], escape(v));
    lemma_no_newline_concat(seq!['"'] + escape(v), seq!['"']);
}

/// An encoded client record holds no newline: the frame boundary cannot
/// appear inside a frame.
pub proof fn lemma_client_json_no_newline(m: ClientView)
    ensures
        no_newline(client_json(m)),
{
    match m {
        ClientView::Join { chat_name } => {
            lemma_jstring_no_newline("Join"@);
            lemma_jstring_no_newline("chat_name"@);
            lemma_jstring_no_newline(chat_name);
            lemma_no_newline_concat(jstring_of("chat_name"@), seq![':']);
            lemma_no_newline_concat(jstring_of("chat_name"@) + seq![':'], jstring_of(chat_name));
            let f = jstring_of("chat_name"@) + seq![':'] + jstring_of(chat_name);
            lemma_no_newline_concat(seq!['{'], f);
            lemma_no_newline_concat(seq!['{'] + f, seq!['}']);
            let payload = seq!['{'] + f + seq!['}'];
            lemma_no_newline_concat(seq!['{'], jstring_of("Join"@));
            lemma_no_newline_concat(seq!['{'] + jstring_of("Join"@), seq![':']);
            lemma_no_newline_concat(seq!['{'] + jstring_of("Join"@) + seq![':'], payload);
            lemma_no_newline_concat(seq!['{'] + jstring_of("Join"@) + seq![':'] + payload,
                seq!['}']);
            assert(client_json(m) =~= seq!['{'] + jstring_of("Join"@) + seq![':'] + payload
                + seq!['}']);
        },
        ClientView::Post { chat_name, message } => {
            lemma_jstring_no_newline("Post"@);
            lemma_jstring_no_newline("chat_name"@);
            lemma_jstring_no_newline("message"@);
            lemma_jstring_no_newline(chat_name);
            lemma_jstring_no_newline(message);
            lemma_no_newline_concat(jstring_of("chat_name"@), seq![':']);
            lemma_no_newline_concat(jstring_of("chat_name"@) + seq![':'], jstring_of(chat_name));
            let f1 = jstring_of("chat_name"@) + seq![':'] + jstring_of(chat_name);
            lemma_no_newline_concat(jstring_of("message"@), seq![':']);
            lemma_no_newline_concat(jstring_of("message"@) + seq![':'], jstring_of(message));
            let f2 = jstring_of("message"@) + seq![':'] + jstring_of(message);
            lemma_no_newline_concat(seq!['{'], f1);
            lemma_no_newline_concat(seq!['{'] + f1, seq![',']);
            lemma_no_newline_concat(seq!['{'] + f1 + seq![','], f2);
            lemma_no_newline_concat(seq!['{'] + f1 + seq![','] + f2, seq!['}']);
            let payload = seq!['{'] + f1 + seq![','] + f2 + seq!['}'];
            lemma_no_newline_concat(seq!['{'], jstring_of("Post"@));
            lemma_no_newline_concat(seq!['{'] + jstring_of("Post"@), seq![':']);
            lemma_no_newline_concat(seq!['{'] + jstring_of("Post"@) + seq![':'], payload);
            lemma_no_newline_concat(seq!['{'] + jstring_of("Post"@) + seq![':'] + payload,
                seq!['}']);
            assert(client_json(m) =~= seq!['{'] + jstring_of("Post"@) + seq![':'] + payload
                + seq!['}']);
        },
    }
}

/// An encoded server record holds no newline.
pub proof fn lemma_server_json_no_newline(m: ServerView)
    ensures
        no_newline(server_json(m)),
{
    match m {
        ServerView::Message { chat_name, message } => {
            lemma_jstring_no_newline("Message"@);
            lemma_jstring_no_newline("chat_name"@);
            lemma_jstring_no_newline("message"@);
            lemma_jstring_no_newline(chat_name);
            lemma_jstring_no_newline(message);
            lemma_no_newline_concat(jstring_of("chat_name"@), seq![':']);
            lemma_no_newline_concat(jstring_of("chat_name"@) + seq![':'], jstring_of(chat_name));
            let f1 = jstring_of("chat_name"@) + seq![':'] + jstring_of(chat_name);
            lemma_no_newline_concat(jstring_of("message"@), seq![':']);
            lemma_no_newline_concat(jstring_of("message"@) + seq![':'], jstring_of(message));
            let f2 = jstring_of("message"@) + seq![':'] + jstring_of(message);
            lemma_no_newline_concat(seq!['{'], f1);
            lemma_no_newline_concat(seq!['{'] + f1, seq![',']);
            lemma_no_newline_concat(seq!['{'] + f1 + seq![','], f2);
            lemma_no_newline_concat(seq!['{'] + f1 + seq![','] + f2, seq!['}']);
            let payload = seq!['{'] + f1 + seq![','] + f2 + seq!['}'];
            lemma_no_newline_concat(seq!['{'], jstring_of("Message"@));
            lemma_no_newline_concat(seq!['{'] + jstring_of("Message"@), seq![':']);
            lemma_no_newline_concat(seq!['{'] + jstring_of("Message"@) + seq![':'], payload);
            lemma_no_newline_concat(seq!['{'] + jstring_of("Message"@) + seq![':'] + payload,
                seq!['}']);
            assert(server_json(m) =~= seq!['{'] + jstring_of("Message"@) + seq![':'] + payload
                + seq!['}']);
        },
        ServerView::Error { detail } => {
            lemma_jstring_no_newline("Error"@);
            lemma_jstring_no_newline(detail);
            let payload = jstring_of(detail);
            lemma_no_newline_concat(seq!['{'], jstring_of("Error"@));
            lemma_no_newline_concat(seq!['{'] + jstring_of("Error"@), seq![':']);
            lemma_no_newline_concat(seq!['{'] + jstring_of("Error"@) + seq![':'], payload);
            lemma_no_newline_concat(seq!['{'] + jstring_of("Error"@) + seq![':'] + payload,
                seq!['}']);
            assert(server_json(m) =~= seq!['{'] + jstring_of("Error"@) + seq![':'] + payload
                + seq!['}']);
        },
    }
}

/// A newline-free line followed by its terminator splits off as one line.
pub proof fn lemma_split_one(a: Seq<char>, t: Seq<char>)
    requires
        no_newline(a),
    ensures
        split_lines(a + seq!['\n'] + t) == seq![a] + split_lines(t),
{
    let s = a + seq!['\n'] + t;
    assert(forall|j: int| 0 <= j < a.len() ==> s[j] == a[j]);
    assert(s[a.len() as int] == '\n');
    lemma_first_newline_at(s, a.len() as int);
    assert(s.take(a.len() as int) =~= a);
    assert(s.skip(a.len() as int + 1) =~= t);
}

/// Two framed client messages decode back to exactly the two messages,
/// in order.
pub proof fn lemma_client_stream_two(m1: ClientView, m2: ClientView)
    ensures
        client_stream(client_line(m1) + client_line(m2)) == seq![
            Ok::<ClientView, ProtocolError>(m1),
            Ok::<ClientView, ProtocolError>(m2),
        ],
{
    let a = client_json(m1);
    let b = client_json(m2);
    lemma_client_json_no_newline(m1);
    lemma_client_json_no_newline(m2);
    assert(client_line(m1) + client_line(m2) =~= a + seq!['\n'] + (b + seq!['\n']));
    lemma_split_one(a, b + seq!['\n']);
    assert(b + seq!['\n'] =~= b + seq!['\n'] + Seq::<char>::empty());
    lemma_split_one(b, Seq::<char>::empty());
    assert(split_lines(Seq::<char>::empty()) =~= Seq::<Seq<char>>::empty());
    assert(split_lines(client_line(m1) + client_line(m2)) =~= seq![a, b]);
    lemma_client_round_trip(m1);
    lemma_client_round_trip(m2);
    assert(client_stream(client_line(m1) + client_line(m2)) =~= seq![
        Ok::<ClientView, ProtocolError>(m1),
        Ok::<ClientView, ProtocolError>(m2),
    ]);
}

/// One framed client message decodes back to exactly that message.
pub proof fn lemma_client_stream_one(m: ClientView)
    ensures
        client_stream(client_line(m)) == seq![Ok::<ClientView, ProtocolError>(m)],
{
    let a = client_json(m);
    lemma_client_json_no_newline(m);
    assert(client_line(m) =~= a + seq!['\n'] + Seq::<char>::empty());
    lemma_split_one(a, Seq::<char>::empty());
    assert(split_lines(Seq::<char>::empty()) =~= Seq::<Seq<char>>::empty());
    assert(split_lines(client_line(m)) =~= seq![a]);
    lemma_client_round_trip(m);
    assert(client_stream(client_line(m)) =~= seq![Ok::<ClientView, ProtocolError>(m)]);
}

/// Two framed server messages decode back to exactly the two messages,
/// in order.
pub proof fn lemma_server_stream_two(m1: ServerView, m2: ServerView)
    ensures
        server_stream(server_line(m1) + server_line(m2)) == seq![
            Ok::<ServerView, ProtocolError>(m1),
            Ok::<ServerView, ProtocolError>(m2),
        ],
{
    let a = server_json(m1);
    let b = server_json(m2);
    lemma_server_json_no_newline(m1);
    lemma_server_json_no_newline(m2);
    assert(server_line(m1) + server_line(m2) =~= a + seq!['\n'] + (b + seq!['\n']));
    lemma_split_one(a, b + seq!['\n']);
    assert(b + seq!['\n'] =~= b + seq!['\n'] + Seq::<char>::empty());
    lemma_split_one(b, Seq::<char>::empty());
    assert(split_lines(Seq::<char>::empty()) =~= Seq::<Seq<char>>::empty());
    assert(split_lines(server_line(m1) + server_line(m2)) =~= seq![a, b]);
    lemma_server_round_trip(m1);
    lemma_server_round_trip(m2);
    assert(server_stream(server_line(m1) + server_line(m2)) =~= seq![
        Ok::<ServerView, ProtocolError>(m1),
        Ok::<ServerView, ProtocolError>(m2),
    ]);
}

/// One framed server message decodes back to exactly that message.
pub proof fn lemma_server_stream_one(m: ServerView)
    ensures
        server_stream(server_line(m)) == seq![Ok::<ServerView, ProtocolError>(m)],
{
    let a = server_json(m);
    lemma_server_json_no_newline(m);
    assert(server_line(m) =~= a + seq!['\n'] + Seq::<char>::empty());
    lemma_split_one(a, Seq::<char>::empty());
    assert(split_lines(Seq::<char>::empty()) =~= Seq::<Seq<char>>::empty());
    assert(split_lines(server_line(m)) =~= seq![a]);
    lemma_server_round_trip(m);
    assert(server_stream(server_line(m)) =~= seq![Ok::<ServerView, ProtocolError>(m)]);
}

/// The value of decoded client results held in executable form.
pub open spec fn client_results_view(rs: Seq<Result<Client, ProtocolError>>) -> Seq<
    Result<ClientView, ProtocolError>,
> {
    Seq::new(
        rs.len(),
        |i: int|
            match rs[i] {
                Ok(m) => Ok(m@),
                Err(e) => Err(e),
            },
    )
}

/// The value of decoded server results held in executable form.
pub open spec fn server_results_view(rs: Seq<Result<Server, ProtocolError>>) -> Seq<
    Result<ServerView, ProtocolError>,
> {
    Seq::new(
        rs.len(),
        |i: int|
            match rs[i] {
                Ok(m) => Ok(m@),
                Err(e) => Err(e),
            },
    )
}

/// The position of the first newline of `s`, or its length.
fn find_newline(s: &[char]) -> (i: usize)
    ensures
        i == first_newline(s@),
{
    let n = s.len();
    let mut j: usize = 0;
    while j < n
        invariant
            j <= n,
            n == s@.len(),
            forall|k: int| 0 <= k < j ==> s@[k] != '\n',
        decreases n - j,
    {
        if *slice_index_get(s, j) == '\n' {
            proof {
                lemma_first_newline_at(s@, j as int);
            }
            return j;
        }
        j = j + 1;
    }
    proof {
        lemma_first_newline_at(s@, n as int);
    }
    n
}

#[verifier::rlimit(30)]
fn client_chunk(s: &[char]) -> (r: Vec<Result<Client, ProtocolError>>)
    ensures
        client_results_view(r@) == client_stream(s@),
    decreases s@.len(),
{
    if s.len() == 0 {
        let r: Vec<Result<Client, ProtocolError>> = Vec::new();
        proof {
            assert(client_results_view(r@) =~= client_stream(s@));
        }
        return r;
    }
    let i = find_newline(s);
    proof {
        lemma_first_newline_bounds(s@);
    }
    if i < s.len() {
        let line = slice_subrange(s, 0, i);
        let rest = slice_subrange(s, i + 1, s.len());
        let d = decode_client_chars(line);
        let mut out = client_chunk(rest);
        let ghost op = out@;
        out.insert(0, d);
        proof {
            assert(line@ =~= s@.take(i as int));
            assert(rest@ =~= s@.skip(i as int + 1));
            let hd = seq![s@.take(i as int)];
            let lr = split_lines(rest@);
            assert(split_lines(s@) == hd + lr);
            assert(out@.len() == op.len() + 1);
            assert(client_results_view(op).len() == op.len());
            assert(client_stream(rest@).len() == lr.len());
            assert(op.len() == lr.len());
            assert(out@[0] == d);
            assert(forall|k: int| 1 <= k < out@.len() ==> out@[k] == op[k - 1]);
            assert forall|k: int| 0 <= k < out@.len() implies client_results_view(out@)[k]
                == client_stream(s@)[k] by {
                if k > 0 {
                    assert(client_results_view(op)[k - 1] == client_stream(rest@)[k - 1]);
                    assert((hd + lr)[k] == lr[k - 1]);
                }
            }
            assert(client_results_view(out@) =~= client_stream(s@));
        }
        out
    } else {
        let d = decode_client_chars(s);
        let mut out: Vec<Result<Client, ProtocolError>> = Vec::new();
        out.push(d);
        proof {
            assert(split_lines(s@) == seq![s@]);
            assert(client_results_view(out@) =~= client_stream(s@));
        }
        out
    }
}

#[verifier::rlimit(30)]
fn server_chunk(s: &[char]) -> (r: Vec<Result<Server, ProtocolError>>)
    ensures
        server_results_view(r@) == server_stream(s@),
    decreases s@.len(),
{
    if s.len() == 0 {
        let r: Vec<Result<Server, ProtocolError>> = Vec::new();
        proof {
            assert(server_results_view(r@) =~= server_stream(s@));
        }
        return r;
    }
    let i = find_newline(s);
    proof {
        lemma_first_newline_bounds(s@);
    }
    if i < s.len() {
        let line = slice_subrange(s, 0, i);
        let rest = slice_subrange(s, i + 1, s.len());
        let d = decode_server_chars(line);
        let mut out = server_chunk(rest);
        let ghost op = out@;
        out.insert(0, d);
        proof {
            assert(line@ =~= s@.take(i as int));
            assert(rest@ =~= s@.skip(i as int + 1));
            let hd = seq![s@.take(i as int)];
            let lr = split_lines(rest@);
            assert(split_lines(s@) == hd + lr);
            assert(out@.len() == op.len() + 1);
            assert(server_results_view(op).len() == op.len());
            assert(server_stream(rest@).len() == lr.len());
            assert(op.len() == lr.len());
            assert(out@[0] == d);
            assert(forall|k: int| 1 <= k < out@.len() ==> out@[k] == op[k - 1]);
            assert forall|k: int| 0 <= k < out@.len() implies server_results_view(out@)[k]
                == server_stream(s@)[k] by {
                if k > 0 {
                    assert(server_results_view(op)[k - 1] == server_stream(rest@)[k - 1]);
                    assert((hd + lr)[k] == lr[k - 1]);
                }
            }
            assert(server_results_view(out@) =~= server_stream(s@));
        }
        out
    } else {
        let d = decode_server_chars(s);
        let mut out: Vec<Result<Server, ProtocolError>> = Vec::new();
        out.push(d);
        proof {
            assert(split_lines(s@) == seq![s@]);
            assert(server_results_view(out@) =~= server_stream(s@));
        }
        out
    }
}

/// Splits a received chunk on newlines and decodes each line as a client
/// message: one result per line, a malformed line ending nothing early.
pub fn decode_client_stream(input: &str) -> (r: Vec<Result<Client, ProtocolError>>)
    ensures
        client_results_view(r@) == client_stream(input@),
{
    let cs = to_chars(input);
    client_chunk(cs.as_slice())
}

/// Splits a received chunk on newlines and decodes each line as a server
/// message.
pub fn decode_server_stream(input: &str) -> (r: Vec<Result<Server, ProtocolError>>)
    ensures
        server_results_view(r@) == server_stream(input@),
{
    let cs = to_chars(input);
    server_chunk(cs.as_slice())
}

} // verus!
