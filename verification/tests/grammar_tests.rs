use chat::input::get_value;
use chat::input::parse_input;
use chat::session::outbound_request;
use chat::session::render_server_message;
use chat::Client;
use chat::Server;

#[test]
fn join_single_token() {
    assert_eq!(parse_input("join room1"), Some(Client::Join { chat_name: "room1".to_string() }));
}

#[test]
fn join_with_trailing_garbage_is_rejected() {
    assert_eq!(parse_input("join room1 extra"), None);
}

#[test]
fn join_with_trailing_whitespace_is_accepted() {
    assert_eq!(parse_input("join room1   "), Some(Client::Join { chat_name: "room1".to_string() }));
}

#[test]
fn post_takes_rest_of_line() {
    assert_eq!(
        parse_input("post room1 hello world"),
        Some(Client::Post { chat_name: "room1".to_string(), message: "hello world".to_string() })
    );
}

#[test]
fn post_with_empty_message() {
    assert_eq!(
        parse_input("post room1 "),
        Some(Client::Post { chat_name: "room1".to_string(), message: "".to_string() })
    );
}

#[test]
fn bogus_input_is_rejected() {
    assert_eq!(parse_input("bogus"), None);
    assert_eq!(parse_input(""), None);
    assert_eq!(parse_input("   "), None);
    assert_eq!(parse_input("join"), None);
    assert_eq!(parse_input("post"), None);
}

#[test]
fn post_without_message_text_is_an_empty_message() {
    assert_eq!(
        parse_input("post room1"),
        Some(Client::Post { chat_name: "room1".to_string(), message: "".to_string() })
    );
}

#[test]
fn leading_whitespace_is_skipped() {
    assert_eq!(parse_input("  join  room1"), Some(Client::Join { chat_name: "room1".to_string() }));
}

#[test]
fn post_message_keeps_trailing_whitespace() {
    assert_eq!(
        parse_input("post r  hi "),
        Some(Client::Post { chat_name: "r".to_string(), message: "hi ".to_string() })
    );
}

#[test]
fn get_value_splits_at_first_whitespace() {
    assert_eq!(get_value("  one two three"), Some(("one".to_string(), " two three".to_string())));
    assert_eq!(get_value("one"), Some(("one".to_string(), "".to_string())));
    assert_eq!(get_value("   "), None);
}

#[test]
fn outbound_request_frames_a_join() {
    assert_eq!(
        outbound_request("join room1"),
        Some("{\"Join\":{\"chat_name\":\"room1\"}}\n".to_string())
    );
    assert_eq!(outbound_request("join room1 extra"), None);
}

#[test]
fn render_message_and_error() {
    let m = Server::Message { chat_name: "x".to_string(), message: "hi".to_string() };
    assert_eq!(render_server_message(&m), "Chat Name: x\nMessage: hi");
    let e = Server::Error("oops".to_string());
    assert_eq!(render_server_message(&e), "Error received: oops");
}
