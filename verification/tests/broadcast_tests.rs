use chat::broadcast::Broadcaster;
use chat::codec_exec::encode_server;
use chat::Server;

const A: u64 = 1;
const B: u64 = 2;
const C: u64 = 3;
const D: u64 = 4;

fn room_x_abc() -> Broadcaster {
    let mut reg = Broadcaster::new();
    reg.handle_join(A, "x");
    reg.handle_join(B, "x");
    reg.handle_join(C, "x");
    reg.handle_join(D, "y");
    reg
}

fn sorted(mut v: Vec<u64>) -> Vec<u64> {
    v.sort();
    v
}

#[test]
fn fan_out_reaches_every_subscriber_once() {
    let reg = room_x_abc();
    let (record, recipients) = reg.handle_post("x", "m");
    let expected = Server::Message { chat_name: "x".to_string(), message: "m".to_string() };
    assert_eq!(record, encode_server(&expected));
    assert_eq!(sorted(recipients), vec![A, B, C]);
}

#[test]
fn fan_out_skips_other_rooms() {
    let reg = room_x_abc();
    let (_, recipients) = reg.handle_post("y", "m");
    assert_eq!(recipients, vec![D]);
}

#[test]
fn empty_room_post_succeeds_with_zero_deliveries() {
    let reg = Broadcaster::new();
    let (record, recipients) = reg.handle_post("nowhere", "m");
    assert!(recipients.is_empty());
    assert!(record.ends_with('\n'));
}

#[test]
fn idempotent_join_gives_no_duplicate_delivery() {
    let mut reg = room_x_abc();
    reg.handle_join(A, "x");
    reg.handle_join(A, "x");
    let (_, recipients) = reg.handle_post("x", "m");
    assert_eq!(sorted(recipients), vec![A, B, C]);
}

#[test]
fn dead_subscriber_is_isolated() {
    let mut reg = room_x_abc();
    // B's write path failed during a fan-out: the server drops B and
    // delivers to the rest.
    reg.remove_session(B);
    let (_, recipients) = reg.handle_post("x", "m");
    assert_eq!(sorted(recipients), vec![A, C]);
    let (_, others) = reg.handle_post("y", "m");
    assert_eq!(others, vec![D]);
}

#[test]
fn removing_every_subscriber_empties_the_room() {
    let mut reg = room_x_abc();
    reg.remove_session(A);
    reg.remove_session(B);
    reg.remove_session(C);
    let (_, recipients) = reg.handle_post("x", "m");
    assert!(recipients.is_empty());
}

#[test]
fn a_session_leaves_every_room_it_joined() {
    let mut reg = Broadcaster::new();
    reg.handle_join(A, "x");
    reg.handle_join(A, "y");
    reg.handle_join(B, "y");
    reg.remove_session(A);
    let (_, in_x) = reg.handle_post("x", "m");
    assert!(in_x.is_empty());
    let (_, in_y) = reg.handle_post("y", "m");
    assert_eq!(in_y, vec![B]);
}
