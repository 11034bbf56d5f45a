use rusty_chat::client::{
    format_new_messages, log_in_fields_valid, make_json, reply_action, window_title, Message,
    MessageData, ReplyAction, Response,
};

fn msg(username: &str, body: &str) -> Message {
    Message { username: username.to_string(), body: body.to_string() }
}

#[test]
fn json_test() {
    let data = MessageData::new(123234541, "Chris".to_string(), "Lobby".to_string());
    let json = make_json("This is a test.", &data);
    assert_eq!(
        json,
        "{\"body\":\"This is a test.\",\"last_received\":123234541,\"room\":\"Lobby\",\"username\":\"Chris\"}"
    );
}

#[test]
fn json_escapes_text() {
    let data = MessageData::new(-1, "a\"b".to_string(), "".to_string());
    assert_eq!(
        make_json("line\nbreak", &data),
        "{\"body\":\"line\\nbreak\",\"last_received\":-1,\"room\":\"\",\"username\":\"a\\\"b\"}"
    );
}

#[test]
fn new_messages_text() {
    let messages = vec![msg("Chris", "hi"), msg("Lee", ""), msg("Ann", "yo")];
    assert_eq!(format_new_messages(&messages), "Chris: hi\nAnn: yo\n");
    assert_eq!(format_new_messages(&vec![]), "");
}

#[test]
fn deliver_updates_time() {
    let mut data = MessageData::new(3, "Chris".to_string(), "Lobby".to_string());
    let response = Response { messages: vec![msg("Lee", "hello")], last_received: 42 };
    assert_eq!(data.deliver(&response), "Lee: hello\n");
    assert_eq!(data.last_received(), 42);
    assert_eq!(data.username(), "Chris");
    assert_eq!(data.room(), "Lobby");
}

#[test]
fn reply_actions() {
    assert_eq!(reply_action(true, "a", "a", "{}"), ReplyAction::Stop);
    assert_eq!(reply_action(false, "a", "b", "{}"), ReplyAction::Stop);
    assert_eq!(reply_action(false, "a", "a", ""), ReplyAction::Continue);
    assert_eq!(reply_action(false, "a", "a", "{}"), ReplyAction::Deliver);
}

#[test]
fn log_in_and_out_preparation() {
    let mut data = MessageData::new(77, "Chris".to_string(), "Lobby".to_string());
    data.prepare_log_in();
    assert_eq!(data.last_received(), 0);
    assert_eq!(data.room(), "Lobby");
    data.set_last_received(5);
    data.prepare_log_out();
    assert_eq!(data.last_received(), 0);
    assert_eq!(data.room(), "");
    assert_eq!(data.username(), "Chris");
    data.set_room("Den".to_string());
    data.set_username("Lee".to_string());
    assert_eq!(data.room(), "Den");
    assert_eq!(data.username(), "Lee");
}

#[test]
fn log_in_form() {
    assert!(log_in_fields_valid("Chris", "Lobby"));
    assert!(!log_in_fields_valid("", "Lobby"));
    assert!(!log_in_fields_valid("Chris", ""));
    assert_eq!(window_title("Chris", "Lobby"), "Rusty Chat : Chris@Lobby");
}
