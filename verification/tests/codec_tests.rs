use chat::codec_exec::decode_client_line;
use chat::codec_exec::decode_server_line;
use chat::codec_exec::encode_client;
use chat::codec_exec::encode_server;
use chat::frame::decode_client_stream;
use chat::frame::decode_server_stream;
use chat::Client;
use chat::ProtocolError;
use chat::Server;

fn join(chat_name: &str) -> Client {
    Client::Join { chat_name: chat_name.to_string() }
}

fn post(chat_name: &str, message: &str) -> Client {
    Client::Post { chat_name: chat_name.to_string(), message: message.to_string() }
}

#[test]
fn encode_join_is_canonical() {
    assert_eq!(encode_client(&join("room1")), "{\"Join\":{\"chat_name\":\"room1\"}}\n");
}

#[test]
fn encode_post_is_canonical() {
    assert_eq!(
        encode_client(&post("room1", "hello world")),
        "{\"Post\":{\"chat_name\":\"room1\",\"message\":\"hello world\"}}\n"
    );
}

#[test]
fn encode_server_message_is_canonical() {
    let m = Server::Message { chat_name: "x".to_string(), message: "hi".to_string() };
    assert_eq!(encode_server(&m), "{\"Message\":{\"chat_name\":\"x\",\"message\":\"hi\"}}\n");
}

#[test]
fn encode_server_error_is_canonical() {
    let m = Server::Error("boom".to_string());
    assert_eq!(encode_server(&m), "{\"Error\":\"boom\"}\n");
}

#[test]
fn round_trip_client_join() {
    let m = join("room1");
    let out = decode_client_stream(&encode_client(&m));
    assert_eq!(out, vec![Ok(m)]);
}

#[test]
fn round_trip_client_post_empty_message() {
    let m = post("room1", "");
    let out = decode_client_stream(&encode_client(&m));
    assert_eq!(out, vec![Ok(m)]);
}

#[test]
fn round_trip_escapes() {
    let m = post("r", "line1\nline2\t\"quoted\" back\\slash \u{1}ctl");
    let out = decode_client_stream(&encode_client(&m));
    assert_eq!(out, vec![Ok(m)]);
}

#[test]
fn round_trip_server_both_variants() {
    let m1 = Server::Message { chat_name: "x".to_string(), message: "a\nb".to_string() };
    let m2 = Server::Error("bad \"frame\"".to_string());
    let mut bytes = encode_server(&m1);
    bytes.push_str(&encode_server(&m2));
    let out = decode_server_stream(&bytes);
    assert_eq!(out, vec![Ok(m1), Ok(m2)]);
}

#[test]
fn two_lines_decode_in_order() {
    let m1 = join("a");
    let m2 = post("a", "hi");
    let mut bytes = encode_client(&m1);
    bytes.push_str(&encode_client(&m2));
    let out = decode_client_stream(&bytes);
    assert_eq!(out, vec![Ok(m1), Ok(m2)]);
}

#[test]
fn malformed_middle_line_does_not_end_stream() {
    let m1 = join("a");
    let m3 = post("a", "hi");
    let mut bytes = encode_client(&m1);
    bytes.push_str("this is not json\n");
    bytes.push_str(&encode_client(&m3));
    let out = decode_client_stream(&bytes);
    assert_eq!(out, vec![Ok(m1), Err(ProtocolError::MalformedPayload), Ok(m3)]);
}

#[test]
fn clean_eof_yields_no_trailing_item() {
    let out = decode_client_stream(&encode_client(&join("a")));
    assert_eq!(out.len(), 1);
    let out2 = decode_client_stream("");
    assert_eq!(out2.len(), 0);
}

#[test]
fn unknown_tag_is_unknown_variant() {
    assert_eq!(
        decode_client_line("{\"Leave\":{\"chat_name\":\"r\"}}"),
        Err(ProtocolError::UnknownVariant)
    );
    assert_eq!(decode_server_line("{\"Bye\":\"x\"}"), Err(ProtocolError::UnknownVariant));
}

#[test]
fn missing_field_is_malformed() {
    assert_eq!(
        decode_client_line("{\"Post\":{\"chat_name\":\"r\"}}"),
        Err(ProtocolError::MalformedPayload)
    );
}

#[test]
fn duplicate_field_is_malformed() {
    assert_eq!(
        decode_client_line("{\"Join\":{\"chat_name\":\"a\",\"chat_name\":\"b\"}}"),
        Err(ProtocolError::MalformedPayload)
    );
}

#[test]
fn garbage_is_malformed() {
    assert_eq!(decode_client_line(""), Err(ProtocolError::MalformedPayload));
    assert_eq!(decode_client_line("hello"), Err(ProtocolError::MalformedPayload));
    assert_eq!(decode_client_line("{\"Join\":{\"chat_name\":\"r\"}}x"),
        Err(ProtocolError::MalformedPayload));
}

#[test]
fn decoder_accepts_reordered_and_unknown_fields() {
    let got = decode_client_line(
        "{\"Post\":{\"message\":\"hi\",\"extra\":\"ignored\",\"chat_name\":\"r\"}}",
    );
    assert_eq!(got, Ok(post("r", "hi")));
}

#[test]
fn decoder_accepts_escape_units() {
    let got = decode_client_line("{\"Join\":{\"chat_name\":\"\\u0041\\/\\u00e9\"}}");
    assert_eq!(got, Ok(join("A/\u{e9}")));
}

#[test]
fn lone_surrogate_unit_is_malformed() {
    assert_eq!(
        decode_client_line("{\"Join\":{\"chat_name\":\"\\uD800\"}}"),
        Err(ProtocolError::MalformedPayload)
    );
}
