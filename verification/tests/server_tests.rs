use rusty_chat::server::handlers::{
    login, login_at, reply_for, write_log, write_log_at, LongPoll, PollStep, Reply, Status,
};
use rusty_chat::server::message::{Message, RequestKind};
use rusty_chat::server::response::{ChatEntry, Response};
use rusty_chat::server::room_log::{log_entry_text, MalformedLine};
use rusty_chat::server::users::{logout, user_entry, user_is_logged_in};

fn message(username: &str, body: &str, last_received: i64, room: &str) -> Message {
    Message {
        username: username.to_string(),
        body: body.to_string(),
        last_received,
        room: room.to_string(),
    }
}

fn entry(username: &str, body: &str) -> ChatEntry {
    ChatEntry { username: username.to_string(), body: body.to_string() }
}

fn run_poll(request: &Message, room_log: &str) -> Response {
    let mut poll = LongPoll::start(request);
    loop {
        match poll.next() {
            PollStep::Reply(r) => return r,
            PollStep::ReadRoomLog(p) => poll = p.absorb(room_log).unwrap(),
        }
    }
}

#[test]
fn login_test() {
    let my_message = message("Klay", "", 0, "login_test");
    let room_log = "5\tAnotherUser\tHowdy";
    let mut expected_response = Response::new();
    expected_response.messages.push(entry("AnotherUser", "Howdy"));
    let result = login(&my_message, "", room_log);
    assert_eq!(result.users_entry, Some("Klay\n".to_string()));
    let actual_response = result.response.unwrap();
    expected_response.last_received = actual_response.last_received;
    assert_eq!(actual_response, expected_response);
}

#[test]
fn long_poll_test() {
    let my_message = message("Klay", "", 4, "long_poll_test");
    let room_log = "2\tAnotherUser\tHowdy\n10\tAnotherUser\tyo";
    let mut expected_response = Response::new();
    expected_response.messages.push(entry("AnotherUser", "yo"));
    let actual_response = run_poll(&my_message, room_log);
    expected_response.last_received = actual_response.last_received;
    assert_eq!(actual_response, expected_response);
}

#[test]
fn write_log_test() {
    let my_message = message("Klay", "hi its klay", 4, "write_log_test");
    let room_log = "2\tAnotherUser\tHowdy\n10\tAnotherUser\tyo\n";
    let mut expected_response = Response::new();
    expected_response.messages.push(entry("AnotherUser", "yo"));
    expected_response.messages.push(entry("Klay", "hi its klay"));
    let actual_response = write_log(&my_message, room_log).response.unwrap();
    expected_response.last_received = actual_response.last_received;
    assert_eq!(actual_response, expected_response);
}

#[test]
fn request_kinds() {
    let logout_request = message("Klay", "", 0, "");
    let login_request = message("Klay", "", 0, "lobby");
    let poll_request = message("Klay", "", 7, "lobby");
    let post = message("Klay", "hi", 0, "lobby");
    assert!(logout_request.is_logout() && !logout_request.is_login() && !logout_request.is_poll());
    assert!(login_request.is_login() && !login_request.is_logout() && !login_request.is_poll());
    assert!(poll_request.is_poll() && !poll_request.is_login() && !poll_request.is_logout());
    assert!(!post.is_poll() && !post.is_login() && !post.is_logout());
    assert_eq!(logout_request.classify(), RequestKind::Logout);
    assert_eq!(login_request.classify(), RequestKind::Login);
    assert_eq!(poll_request.classify(), RequestKind::Poll);
    assert_eq!(post.classify(), RequestKind::Post);
    assert_eq!(message("Klay", "", 7, "").classify(), RequestKind::Post);
}

#[test]
fn response_new_is_empty() {
    let r = Response::new();
    assert!(r.messages.is_empty());
    assert_eq!(r.last_received, 0);
}

#[test]
fn users_log_lines() {
    let users = "Klay\nSteph\r\nDray\n";
    assert!(user_is_logged_in(users, "Klay"));
    assert!(user_is_logged_in(users, "Steph"));
    assert!(user_is_logged_in(users, "Dray"));
    assert!(!user_is_logged_in(users, "Kevin"));
    assert!(!user_is_logged_in(users, "Kla"));
    assert!(!user_is_logged_in("", "Klay"));
    assert!(user_is_logged_in("Klay", "Klay"));
    assert_eq!(user_entry("Klay"), "Klay\n");
}

#[test]
fn logout_removes_only_that_user() {
    let request = message("Klay", "", 0, "");
    assert_eq!(logout(&request, "Steph\nKlay\nDray\nKlay\n"), "Steph\nDray\n");
    assert_eq!(logout(&request, "Steph\r\nDray"), "Steph\nDray\n");
    assert_eq!(logout(&request, "Klay\n"), "");
    assert_eq!(logout(&request, ""), "");
}

#[test]
fn login_then_logout_restores_users_log() {
    let users = "Steph\n";
    let request = message("Klay", "", 0, "lobby");
    let after_login = format!("{}{}", users, user_entry("Klay"));
    assert!(user_is_logged_in(&after_login, "Klay"));
    assert_eq!(logout(&request, &after_login), logout(&request, users));
    assert!(!user_is_logged_in(&logout(&request, &after_login), "Klay"));
}

#[test]
fn login_refused_when_name_taken() {
    let request = message("Klay", "", 0, "lobby");
    let result = login_at(&request, 1000, "Steph\nKlay\n", "5\tSteph\thi\n");
    assert_eq!(result.users_entry, None);
    let response = result.response.unwrap();
    assert_eq!(response, Response::new());
    assert_eq!(
        reply_for(RequestKind::Login, &response),
        Reply { status: Status::Unauthorized, with_body: false }
    );
}

#[test]
fn login_answers_room_history() {
    let request = message("Klay", "", 0, "lobby");
    let room = "5\tSteph\thi\n9\tDray\tyo\n";
    let result = login_at(&request, 1000, "Steph\n", room);
    assert_eq!(result.users_entry, Some("Klay\n".to_string()));
    let response = result.response.unwrap();
    assert_eq!(response.messages, vec![entry("Steph", "hi"), entry("Dray", "yo")]);
    assert_eq!(response.last_received, 9);
    assert_eq!(
        reply_for(RequestKind::Login, &response),
        Reply { status: Status::Success, with_body: true }
    );
}

#[test]
fn login_to_empty_room_takes_clock_time() {
    let request = message("Klay", "", 0, "lobby");
    let result = login_at(&request, 1234, "", "");
    let response = result.response.unwrap();
    assert!(response.messages.is_empty());
    assert_eq!(response.last_received, 1234);
    assert_eq!(
        reply_for(RequestKind::Login, &response),
        Reply { status: Status::Success, with_body: true }
    );
}

#[test]
fn login_uses_the_clock() {
    let request = message("Klay", "", 0, "lobby");
    let response = login(&request, "", "").response.unwrap();
    assert!(response.last_received > 1_500_000_000);
}

#[test]
fn malformed_room_log_lines() {
    let request = message("Klay", "", 0, "lobby");
    let bad_stamp = login_at(&request, 1, "", "5\tSteph\thi\nfive\tDray\tyo\n");
    assert_eq!(bad_stamp.response, Err(MalformedLine { index: 1 }));
    let short = login_at(&request, 1, "", "5\tSteph\n");
    assert_eq!(short.response, Err(MalformedLine { index: 0 }));
    let empty_line = login_at(&request, 1, "", "5\tSteph\thi\n\n");
    assert_eq!(empty_line.response, Err(MalformedLine { index: 1 }));
    let old_short = message("Klay", "", 7, "lobby");
    let posted = write_log_at(&old_short, 9, "5\tSteph\n");
    assert_eq!(posted.response.unwrap().messages, vec![entry("Klay", "")]);
}

#[test]
fn timestamps_read_as_i64() {
    let request = message("Klay", "", 0, "lobby");
    let signed = login_at(&request, 1, "", "+7\tA\ta\n-3\tB\tb\n");
    assert_eq!(signed.response.unwrap().messages, vec![entry("A", "a")]);
    let overflow = login_at(&request, 1, "", "9223372036854775808\tA\ta\n");
    assert_eq!(overflow.response, Err(MalformedLine { index: 0 }));
    let spaced = login_at(&request, 1, "", " 7\tA\ta\n");
    assert_eq!(spaced.response, Err(MalformedLine { index: 0 }));
    let biggest = login_at(&request, 1, "", "9223372036854775807\tA\ta\n");
    assert_eq!(biggest.response.unwrap().last_received, i64::MAX);
}

#[test]
fn log_entry_format() {
    assert_eq!(log_entry_text(1700000000, "Klay", "hi"), "1700000000\tKlay\thi\n");
    assert_eq!(log_entry_text(-12, "Klay", "hi"), "-12\tKlay\thi\n");
    assert_eq!(log_entry_text(0, "Klay", ""), "0\tKlay\t");
}

#[test]
fn post_is_read_back() {
    let request = message("Klay", "hello there", 6, "lobby");
    let room = "5\tSteph\told\n8\tDray\tnew\n";
    let posted = write_log_at(&request, 20, room);
    assert_eq!(posted.entry, "20\tKlay\thello there\n");
    let response = posted.response.unwrap();
    assert_eq!(response.messages, vec![entry("Dray", "new"), entry("Klay", "hello there")]);
    assert_eq!(response.last_received, 20);
    assert_eq!(
        reply_for(RequestKind::Post, &response),
        Reply { status: Status::Success, with_body: true }
    );
}

#[test]
fn post_uses_the_clock() {
    let request = message("Klay", "hi", 0, "lobby");
    let posted = write_log(&request, "");
    assert!(posted.response.unwrap().last_received > 1_500_000_000);
    assert!(posted.entry.ends_with("\tKlay\thi\n"));
}

#[test]
fn poll_stops_at_own_message() {
    let request = message("Klay", "", 4, "lobby");
    let room = "2\tSteph\told\n6\tDray\tone\n8\tKlay\tmine\n9\tSteph\ttwo\nbad line\n";
    let poll = LongPoll::begin_at(&request, 100);
    let poll = match poll.next_at(100) {
        PollStep::ReadRoomLog(p) => p,
        PollStep::Reply(_) => panic!("expected to read the room log"),
    };
    let poll = poll.absorb(room).unwrap();
    assert!(poll.saw_self);
    assert!(poll.messages.is_empty());
    assert_eq!(poll.last_received, 8);
    match poll.next() {
        PollStep::Reply(r) => {
            assert!(r.messages.is_empty());
            assert_eq!(r.last_received, 8);
            assert_eq!(
                reply_for(RequestKind::Poll, &r),
                Reply { status: Status::NoContent, with_body: false }
            );
        },
        PollStep::ReadRoomLog(_) => panic!("expected a reply"),
    }
}

#[test]
fn poll_own_message_only_gives_no_content() {
    let request = message("Klay", "", 4, "lobby");
    let poll = LongPoll::begin_at(&request, 100).absorb("8\tKlay\tmine\n").unwrap();
    match poll.next_at(100) {
        PollStep::Reply(r) => {
            assert!(r.messages.is_empty());
            assert_eq!(r.last_received, 8);
            assert_eq!(
                reply_for(RequestKind::Poll, &r),
                Reply { status: Status::NoContent, with_body: false }
            );
        },
        PollStep::ReadRoomLog(_) => panic!("expected a reply"),
    }
}

#[test]
fn poll_times_out() {
    let request = message("Klay", "", 4, "lobby");
    let poll = LongPoll::begin_at(&request, 100).absorb("2\tSteph\told\n").unwrap();
    let poll = match poll.next_at(105) {
        PollStep::ReadRoomLog(p) => p,
        PollStep::Reply(_) => panic!("five seconds have not passed yet"),
    };
    match poll.next_at(106) {
        PollStep::Reply(r) => {
            assert!(r.messages.is_empty());
            assert_eq!(r.last_received, 100);
        },
        PollStep::ReadRoomLog(_) => panic!("more than five seconds have passed"),
    }
}

#[test]
fn poll_reports_malformed_line() {
    let request = message("Klay", "", 4, "lobby");
    let poll = LongPoll::begin_at(&request, 100);
    assert_eq!(poll.absorb("6\tDray\n").err(), Some(MalformedLine { index: 0 }));
}

#[test]
fn logout_reply() {
    assert_eq!(
        reply_for(RequestKind::Logout, &Response::new()),
        Reply { status: Status::Success, with_body: false }
    );
}

#[test]
fn logout_twice_is_logout_once() {
    let request = message("Klay", "", 0, "");
    let users = "Steph\nKlay\nDray\n";
    let once = logout(&request, users);
    assert_eq!(logout(&request, &once), once);
}

#[test]
fn login_then_logout_restores_clean_log() {
    let users = "Steph\nDray\n";
    let request = message("Klay", "", 0, "lobby");
    let after_login = format!("{}{}", users, user_entry("Klay"));
    assert_eq!(logout(&request, &after_login), users);
    let empty_after_login = user_entry("Klay");
    assert_eq!(logout(&request, &empty_after_login), "");
}

#[test]
fn poll_never_returns_own_messages() {
    let request = message("Klay", "", 4, "lobby");
    let poll = LongPoll::begin_at(&request, 100)
        .absorb("6\tKlay\tmine\n7\tDray\tother\n")
        .unwrap();
    match poll.next_at(100) {
        PollStep::Reply(r) => assert!(r.messages.iter().all(|e| e.username != "Klay")),
        PollStep::ReadRoomLog(_) => panic!("expected a reply"),
    }
}

#[test]
fn poll_without_own_message_returns_all_news() {
    let request = message("Klay", "", 4, "lobby");
    let poll = LongPoll::begin_at(&request, 100)
        .absorb("6\tDray\tone\n7\tSteph\ttwo\n")
        .unwrap();
    assert!(!poll.saw_self);
    match poll.next_at(100) {
        PollStep::Reply(r) => {
            assert_eq!(r.messages, vec![entry("Dray", "one"), entry("Steph", "two")]);
            assert_eq!(r.last_received, 7);
        },
        PollStep::ReadRoomLog(_) => panic!("expected a reply"),
    }
}

#[test]
fn logout_twice_with_carriage_return_in_own_line() {
    let request = message("Klay\r", "", 0, "");
    let users = "Steph\nKlay\r";
    let once = logout(&request, users);
    assert_eq!(once, "Steph\n");
    assert_eq!(logout(&request, &once), once);
}
