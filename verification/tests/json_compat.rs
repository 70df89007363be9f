//! The wire format stays plain JSON: what the codec emits parses with a
//! stock JSON parser into the expected shape, and what that parser emits
//! for the same shape decodes back.
use chat::codec_exec::decode_client_line;
use chat::codec_exec::encode_client;
use chat::codec_exec::encode_server;
use chat::Client;
use chat::Server;

#[test]
fn encoded_client_record_is_valid_json() {
    let m = Client::Post {
        chat_name: "room \"1\"".to_string(),
        message: "a\nb\t\u{3}".to_string(),
    };
    let line = encode_client(&m);
    assert!(line.ends_with('\n'));
    let v: serde_json::Value = serde_json::from_str(line.trim_end()).unwrap();
    assert_eq!(v["Post"]["chat_name"], serde_json::Value::String("room \"1\"".to_string()));
    assert_eq!(v["Post"]["message"], serde_json::Value::String("a\nb\t\u{3}".to_string()));
}

#[test]
fn encoded_server_record_is_valid_json() {
    let m = Server::Error("so \\ it / goes".to_string());
    let line = encode_server(&m);
    let v: serde_json::Value = serde_json::from_str(line.trim_end()).unwrap();
    assert_eq!(v["Error"], serde_json::Value::String("so \\ it / goes".to_string()));
}

#[test]
fn stock_json_writer_output_decodes() {
    let mut payload = serde_json::Map::new();
    payload.insert(
        "chat_name".to_string(),
        serde_json::Value::String("r\u{e9}sume\n".to_string()),
    );
    let mut record = serde_json::Map::new();
    record.insert("Join".to_string(), serde_json::Value::Object(payload));
    let line = serde_json::to_string(&serde_json::Value::Object(record)).unwrap();
    let got = decode_client_line(&line);
    assert_eq!(got, Ok(Client::Join { chat_name: "r\u{e9}sume\n".to_string() }));
}
