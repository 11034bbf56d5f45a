//! What the server does with each kind of request, apart from reading and
//! writing its files: the replies to logins, polls and posted messages, and
//! the status that each answer is sent with.

use crate::server::message::{Message, RequestKind};
use crate::server::response::{entries_view, ChatEntry, Response};
use crate::server::room_log::{
    collect_lines_since, collect_since, log_entry, log_entry_text, poll_lines, poll_scan,
    ChatView, MalformedLine,
};
use crate::server::users::{user_entry, user_is_logged_in};
use crate::text::{chars_of, lines, lines_of};
use vstd::prelude::*;

verus! {

/// The current time in whole seconds since the Unix epoch (`time::get_time`).
/// Nothing is stated of the value: it is whatever the system clock says.
#[verifier::external_body]
fn current_time() -> (now: i64) {
    time::get_time().sec
}

/// The contents of an answer, or the index of the room log line that stopped it.
pub open spec fn answer_view(r: Result<Response, MalformedLine>) -> Result<
    (Seq<ChatView>, i64),
    int,
> {
    match r {
        Ok(resp) => Ok(resp@),
        Err(e) => Err(e.index as int),
    }
}

/// The answer to an accepted login: the messages of the room newer than
/// `since`, with the timestamp of the last of them, or `now` when there is none.
pub open spec fn login_answer(since: i64, now: i64, room_log: Seq<char>) -> Result<
    (Seq<ChatView>, i64),
    int,
> {
    match collect_since(lines(room_log), since) {
        Ok((msgs, last)) => Ok(
            (
                msgs,
                match last {
                    Some(t) => t,
                    None => now,
                },
            ),
        ),
        Err(i) => Err(i),
    }
}

/// The answer to a posted message: every message of the room log (the new
/// one included) newer than `since`, with the time the new one was logged.
pub open spec fn post_answer(since: i64, log_time: i64, room_log: Seq<char>) -> Result<
    (Seq<ChatView>, i64),
    int,
> {
    match collect_since(lines(room_log), since) {
        Ok((msgs, _)) => Ok((msgs, log_time)),
        Err(i) => Err(i),
    }
}

/// What a login does: the line to append to the users log, if the name is
/// free, and the answer.
pub struct LoginResult {
    pub users_entry: Option<String>,
    pub response: Result<Response, MalformedLine>,
}

/// What a login does, as the specifications see it.
pub open spec fn login_view(r: LoginResult) -> (Option<Seq<char>>, Result<(Seq<ChatView>, i64), int>) {
    (
        match r.users_entry {
            Some(e) => Some(e@),
            None => None,
        },
        answer_view(r.response),
    )
}

/// What a login by `name` does at time `now`: a name already in the users
/// log is refused with an empty answer whose time is 0; otherwise the name is
/// appended to the users log and the room's messages are answered.
pub open spec fn login_outcome(
    name: Seq<char>,
    since: i64,
    now: i64,
    users_log: Seq<char>,
    room_log: Seq<char>,
) -> (Option<Seq<char>>, Result<(Seq<ChatView>, i64), int>) {
    if lines(users_log).contains(name) {
        (None, Ok((seq![], 0)))
    } else {
        (Some(name.push('\n')), login_answer(since, now, room_log))
    }
}

/// Given a login request at time `now`, the users log and the room log: the
/// entry to add to the users log and the answer. A name that is already
/// logged in gets the empty response.
pub fn login_at(request: &Message, now: i64, users_log: &str, room_log: &str) -> (r: LoginResult)
    ensures
        login_view(r) == login_outcome(
            request.username@,
            request.last_received,
            now,
            users_log@,
            room_log@,
        ),
{
    if user_is_logged_in(users_log, request.username.as_str()) {
        let empty = Response::new();
        return LoginResult { users_entry: None, response: Ok(empty) };
    }
    let entry = user_entry(request.username.as_str());
    let text = chars_of(room_log);
    let rows = lines_of(&text);
    let response = match collect_lines_since(&rows, request.last_received) {
        Ok((messages, last)) => {
            let last_received = match last {
                Some(t) => t,
                None => now,
            };
            Ok(Response { messages, last_received })
        },
        Err(e) => Err(e),
    };
    LoginResult { users_entry: Some(entry), response }
}

/// Given a login request, the users log and the room log: the entry to add to
/// the users log and the answer, at the current time.
pub fn login(request: &Message, users_log: &str, room_log: &str) -> (r: LoginResult)
    ensures
        exists|now: i64|
            login_view(r) == login_outcome(
                request.username@,
                request.last_received,
                now,
                users_log@,
                room_log@,
            ),
{
    let now = current_time();
    login_at(request, now, users_log, room_log)
}

/// What posting a message does: the text to append to the room log, and the answer.
pub struct WriteLog {
    pub entry: String,
    pub response: Result<Response, MalformedLine>,
}

/// Given a message to post at `log_time` and the room log before it: the
/// entry to append and the answer, read from the log with the entry appended.
pub fn write_log_at(request: &Message, log_time: i64, room_log: &str) -> (r: WriteLog)
    ensures
        r.entry@ == log_entry(log_time, request.username@, request.body@),
        answer_view(r.response) == post_answer(
            request.last_received,
            log_time,
            room_log@ + r.entry@,
        ),
{
    let entry = log_entry_text(log_time, request.username.as_str(), request.body.as_str());
    let updated = room_log.to_owned().concat(entry.as_str());
    let text = chars_of(updated.as_str());
    let rows = lines_of(&text);
    let response = match collect_lines_since(&rows, request.last_received) {
        Ok((messages, _)) => Ok(Response { messages, last_received: log_time }),
        Err(e) => Err(e),
    };
    WriteLog { entry, response }
}

/// Given a message to post and the room log before it: the entry to append,
/// stamped with the current time, and the answer.
pub fn write_log(request: &Message, room_log: &str) -> (r: WriteLog)
    ensures
        exists|log_time: i64|
            r.entry@ == log_entry(log_time, request.username@, request.body@) && answer_view(
                r.response,
            ) == post_answer(request.last_received, log_time, room_log@ + r.entry@),
{
    let log_time = current_time();
    write_log_at(request, log_time, room_log)
}

/// A long poll in progress: it waits, rereading the room log, until there are
/// messages newer than `since` or a newer one by the poller itself, or until
/// more than five seconds have passed since it started.
pub struct LongPoll {
    pub username: String,
    pub since: i64,
    pub messages: Vec<ChatEntry>,
    pub last_received: i64,
    pub saw_self: bool,
}

/// The next thing a long poll needs: the room log read again, or to be answered.
pub enum PollStep {
    ReadRoomLog(LongPoll),
    Reply(Response),
}

impl PollStep {
    /// Whether this step answers with the given contents.
    pub open spec fn replies_with(&self, answer: (Seq<ChatView>, i64)) -> bool {
        match self {
            PollStep::Reply(resp) => resp@ == answer,
            PollStep::ReadRoomLog(_) => false,
        }
    }
}

/// The number of seconds that a long poll waits for news.
pub const POLL_TIMEOUT_SECS: i64 = 5;

impl LongPoll {
    /// Whether the poll still has nothing to answer.
    pub open spec fn waiting(&self) -> bool {
        self.messages@.len() == 0 && !self.saw_self
    }

    /// The answer the poll gives when it stops now.
    pub open spec fn answer(&self) -> (Seq<ChatView>, i64) {
        (entries_view(self.messages@), self.last_received)
    }

    /// A long poll for `request`, started at time `now`.
    pub fn begin_at(request: &Message, now: i64) -> (r: LongPoll)
        ensures
            r.username@ == request.username@,
            r.since == request.last_received,
            r.messages@.len() == 0,
            r.last_received == now,
            !r.saw_self,
    {
        LongPoll {
            username: request.username.clone(),
            since: request.last_received,
            messages: Vec::new(),
            last_received: now,
            saw_self: false,
        }
    }

    /// A long poll for `request`, started at the current time.
    pub fn start(request: &Message) -> (r: LongPoll)
        ensures
            r.username@ == request.username@,
            r.since == request.last_received,
            r.messages@.len() == 0,
            !r.saw_self,
    {
        let now = current_time();
        Self::begin_at(request, now)
    }

    /// The next step of the poll when the clock reads `now`: read the room log
    /// again while there is nothing to answer and at most five seconds have
    /// passed; otherwise answer.
    pub fn next_at(self, now: i64) -> (r: PollStep)
        ensures
            self.waiting() && now - self.last_received <= POLL_TIMEOUT_SECS ==> r
                == PollStep::ReadRoomLog(self),
            !(self.waiting() && now - self.last_received <= POLL_TIMEOUT_SECS) ==> r.replies_with(
                self.answer(),
            ),
    {
        let waiting = self.messages.len() == 0 && !self.saw_self;
        if waiting && (now as i128) - (self.last_received as i128) <= POLL_TIMEOUT_SECS as i128 {
            PollStep::ReadRoomLog(self)
        } else {
            PollStep::Reply(Response { messages: self.messages, last_received: self.last_received })
        }
    }

    /// The next step of the poll: answer once there is something to answer;
    /// while there is not, read the clock, and read the room log again unless
    /// more than five seconds have passed.
    pub fn next(self) -> (r: PollStep)
        ensures
            !self.waiting() ==> r.replies_with(self.answer()),
            self.waiting() ==> r == PollStep::ReadRoomLog(self) || r.replies_with(self.answer()),
    {
        if self.messages.len() == 0 && !self.saw_self {
            let now = current_time();
            self.next_at(now)
        } else {
            PollStep::Reply(Response { messages: self.messages, last_received: self.last_received })
        }
    }

    /// The poll after reading the room log: the messages by others newer than
    /// `since` are added and the time moves to that of the last newer line
    /// looked at; meeting a newer message by the poller itself instead ends
    /// the poll with no messages, at that message's time.
    pub fn absorb(self, room_log: &str) -> (r: Result<LongPoll, MalformedLine>)
        ensures
            match poll_scan(lines(room_log@), self.since, self.username@) {
                Err(i) => r matches Err(e) && e.index == i,
                Ok((msgs, last, saw)) => r matches Ok(p) && p.username == self.username
                    && p.since == self.since && entries_view(p.messages@) == (if saw {
                    Seq::<ChatView>::empty()
                } else {
                    entries_view(self.messages@) + msgs
                }) && p.last_received == (match last {
                    Some(t) => t,
                    None => self.last_received,
                }) && p.saw_self == (self.saw_self || saw),
            },
    {
        let text = chars_of(room_log);
        let rows = lines_of(&text);
        let LongPoll { username, since, mut messages, last_received, saw_self } = self;
        match poll_lines(&rows, since, &username) {
            Err(e) => Err(e),
            Ok((found, last, saw)) => {
                if saw {
                    messages = Vec::new();
                    assert(entries_view(messages@) =~= Seq::<ChatView>::empty());
                } else {
                    let ghost before = messages@;
                    let mut found = found;
                    let ghost added = found@;
                    messages.append(&mut found);
                    assert(entries_view(messages@) =~= entries_view(before) + entries_view(added));
                }
                let last_received = match last {
                    Some(t) => t,
                    None => last_received,
                };
                Ok(LongPoll { username, since, messages, last_received, saw_self: saw_self || saw })
            },
        }
    }
}

/// The HTTP status of an answer.
#[derive(Debug, Clone, Copy, PartialEq, Eq, Structural)]
pub enum Status {
    Success,
    Unauthorized,
    NoContent,
}

/// How a request is answered: its status, and whether the response goes in
/// the body (as JSON) or the body is empty.
#[derive(Debug, Clone, Copy, PartialEq, Eq, Structural)]
pub struct Reply {
    pub status: Status,
    pub with_body: bool,
}

/// How the server answers each kind of request: a logout with an empty
/// success; a login refused (an empty response with time 0) as unauthorized;
/// a poll that found no messages with no content; everything else with the
/// response.
pub open spec fn reply_spec(kind: RequestKind, no_messages: bool, last_received: i64) -> Reply {
    match kind {
        RequestKind::Logout => Reply { status: Status::Success, with_body: false },
        RequestKind::Login => if no_messages && last_received == 0 {
            Reply { status: Status::Unauthorized, with_body: false }
        } else {
            Reply { status: Status::Success, with_body: true }
        },
        RequestKind::Poll => if no_messages {
            Reply { status: Status::NoContent, with_body: false }
        } else {
            Reply { status: Status::Success, with_body: true }
        },
        RequestKind::Post => Reply { status: Status::Success, with_body: true },
    }
}

/// How to answer a request of the given kind with the given response (which
/// a logout does not use).
pub fn reply_for(kind: RequestKind, response: &Response) -> (r: Reply)
    ensures
        r == reply_spec(kind, response.messages@.len() == 0, response.last_received),
{
    let no_messages = response.messages.len() == 0;
    match kind {
        RequestKind::Logout => Reply { status: Status::Success, with_body: false },
        RequestKind::Login => if no_messages && response.last_received == 0 {
            Reply { status: Status::Unauthorized, with_body: false }
        } else {
            Reply { status: Status::Success, with_body: true }
        },
        RequestKind::Poll => if no_messages {
            Reply { status: Status::NoContent, with_body: false }
        } else {
            Reply { status: Status::Success, with_body: true }
        },
        RequestKind::Post => Reply { status: Status::Success, with_body: true },
    }
}

} // verus!
