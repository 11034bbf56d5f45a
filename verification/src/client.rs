//! The chat client's logic: the state it keeps, the requests it sends and
//! what it makes of the server's answers.

use crate::text::{chars_of, push_char, push_chars, same_chars};
use vstd::prelude::*;

verus! {

/// All the data needed to send a message to the server: who is logged in,
/// to which room, and the time of the newest message received.
#[derive(Debug)]
pub struct MessageData {
    last_received: i64,
    username: String,
    room: String,
}

/// A chat message received from the server.
#[derive(Debug, PartialEq, Eq)]
pub struct Message {
    pub username: String,
    pub body: String,
}

/// An answer from the server: the new messages and the time of the newest.
#[derive(Debug, PartialEq, Eq)]
pub struct Response {
    pub messages: Vec<Message>,
    pub last_received: i64,
}

/// The authors and bodies of a list of received messages.
pub open spec fn messages_view(v: Seq<Message>) -> Seq<(Seq<char>, Seq<char>)> {
    v.map_values(|m: Message| (m.username@, m.body@))
}

/// How the chat window shows received messages: `author: body` on a line of
/// its own for each message with a body; messages without a body are not shown.
pub open spec fn chat_text(msgs: Seq<(Seq<char>, Seq<char>)>) -> Seq<char>
    decreases msgs.len(),
{
    if msgs.len() == 0 {
        seq![]
    } else {
        let (author, body) = msgs.last();
        chat_text(msgs.drop_last()) + if body.len() == 0 {
            seq![]
        } else {
            author + seq![':', ' '] + body + seq!['\n']
        }
    }
}

/// The JSON text that `serde_json` writes for an object with four fields,
/// given each field's key and value.
pub uninterp spec fn request_json(
    body_key: Seq<char>,
    body: Seq<char>,
    time_key: Seq<char>,
    last_received: i64,
    room_key: Seq<char>,
    room: Seq<char>,
    name_key: Seq<char>,
    username: Seq<char>,
) -> Seq<char>;

/// Writes four fields as a JSON object (`serde_json::Map::insert` for each
/// key and value, then `serde_json::Value::to_string`). The contract names the
/// text, as a function of the keys and values, without spelling out JSON.
#[verifier::external_body]
fn encode_request(
    body_key: &str,
    body: &str,
    time_key: &str,
    last_received: i64,
    room_key: &str,
    room: &str,
    name_key: &str,
    username: &str,
) -> (r: String)
    ensures
        r@ == request_json(
            body_key@,
            body@,
            time_key@,
            last_received,
            room_key@,
            room@,
            name_key@,
            username@,
        ),
{
    let mut fields = serde_json::Map::new();
    fields.insert(String::from(name_key), serde_json::Value::from(username));
    fields.insert(String::from(room_key), serde_json::Value::from(room));
    fields.insert(String::from(body_key), serde_json::Value::from(body));
    fields.insert(String::from(time_key), serde_json::Value::from(last_received));
    serde_json::Value::Object(fields).to_string()
}

/// What to do with the server's answer to a request.
#[derive(Debug, Clone, Copy, PartialEq, Eq, Structural)]
pub enum ReplyAction {
    /// Stop: the login was refused, or the user switched rooms meanwhile.
    Stop,
    /// Carry on: there is nothing to read in the answer.
    Continue,
    /// Read the answer and show its messages.
    Deliver,
}

impl MessageData {
    /// Client data with the given fields.
    pub fn new(last_received: i64, username: String, room: String) -> (r: Self)
        ensures
            r.last_received_view() == last_received,
            r.username_view() == username@,
            r.room_view() == room@,
    {
        MessageData { last_received, username, room }
    }

    pub closed spec fn last_received_view(&self) -> i64 {
        self.last_received
    }

    pub closed spec fn username_view(&self) -> Seq<char> {
        self.username@
    }

    pub closed spec fn room_view(&self) -> Seq<char> {
        self.room@
    }

    /// The logged-in user's name (empty before the first login).
    pub fn username(&self) -> (r: String)
        ensures
            r@ == self.username_view(),
    {
        self.username.clone()
    }

    /// The room joined (empty when none).
    pub fn room(&self) -> (r: String)
        ensures
            r@ == self.room_view(),
    {
        self.room.clone()
    }

    /// The time of the newest message received.
    pub fn last_received(&self) -> (r: i64)
        ensures
            r == self.last_received_view(),
    {
        self.last_received
    }

    pub fn set_username(&mut self, username: String)
        ensures
            final(self).username_view() == username@,
            final(self).room_view() == old(self).room_view(),
            final(self).last_received_view() == old(self).last_received_view(),
    {
        self.username = username;
    }

    pub fn set_room(&mut self, room: String)
        ensures
            final(self).room_view() == room@,
            final(self).username_view() == old(self).username_view(),
            final(self).last_received_view() == old(self).last_received_view(),
    {
        self.room = room;
    }

    pub fn set_last_received(&mut self, last_received: i64)
        ensures
            final(self).last_received_view() == last_received,
            final(self).username_view() == old(self).username_view(),
            final(self).room_view() == old(self).room_view(),
    {
        self.last_received = last_received;
    }

    /// Prepares a logout request: no room, and time 0 (with an empty body this
    /// makes the request a logout).
    pub fn prepare_log_out(&mut self)
        ensures
            final(self).room_view() == Seq::<char>::empty(),
            final(self).last_received_view() == 0,
            final(self).username_view() == old(self).username_view(),
    {
        self.room = String::new();
        self.last_received = 0;
    }

    /// Prepares a login request: time 0 (with an empty body and a room this
    /// makes the request a login).
    pub fn prepare_log_in(&mut self)
        ensures
            final(self).last_received_view() == 0,
            final(self).room_view() == old(self).room_view(),
            final(self).username_view() == old(self).username_view(),
    {
        self.last_received = 0;
    }

    /// Takes in a server's answer: remembers the time of its newest message
    /// and gives the text to add to the chat window.
    pub fn deliver(&mut self, response: &Response) -> (r: String)
        ensures
            r@ == chat_text(messages_view(response.messages@)),
            final(self).last_received_view() == response.last_received,
            final(self).username_view() == old(self).username_view(),
            final(self).room_view() == old(self).room_view(),
    {
        let text = format_new_messages(&response.messages);
        self.last_received = response.last_received;
        text
    }
}

/// The JSON request that sends `text` with the client's data: the fields
/// `body`, `last_received`, `room` and `username` that the server reads.
pub fn make_json(text: &str, data: &MessageData) -> (r: String)
    ensures
        r@ == request_json(
            "body"@,
            text@,
            "last_received"@,
            data.last_received_view(),
            "room"@,
            data.room_view(),
            "username"@,
            data.username_view(),
        ),
{
    encode_request(
        "body",
        text,
        "last_received",
        data.last_received,
        "room",
        data.room.as_str(),
        "username",
        data.username.as_str(),
    )
}

/// The text that the chat window shows for received messages (see [`chat_text`]).
pub fn format_new_messages(messages: &Vec<Message>) -> (r: String)
    ensures
        r@ == chat_text(messages_view(messages@)),
{
    let ghost all = messages_view(messages@);
    let mut text = String::new();
    let mut i: usize = 0;
    assert(all.take(0) =~= Seq::<(Seq<char>, Seq<char>)>::empty());
    while i < messages.len()
        invariant
            i <= messages.len(),
            all == messages_view(messages@),
            text@ == chat_text(all.take(i as int)),
        decreases messages.len() - i,
    {
        let ghost before = text@;
        assert(all.take(i + 1).drop_last() =~= all.take(i as int));
        assert(all.take(i + 1).last() == (messages@[i as int].username@, messages@[i as int].body@));
        let m = &messages[i];
        if !m.body.as_str().is_empty() {
            let author = chars_of(m.username.as_str());
            let body = chars_of(m.body.as_str());
            push_chars(&mut text, &author);
            push_char(&mut text, ':');
            push_char(&mut text, ' ');
            push_chars(&mut text, &body);
            push_char(&mut text, '\n');
            assert(text@ =~= before + (m.username@ + seq![':', ' '] + m.body@ + seq!['\n']));
        } else {
            assert(text@ =~= before + Seq::<char>::empty());
        }
        i = i + 1;
    }
    assert(all.take(messages.len() as int) =~= all);
    text
}

/// What to do with the server's answer, given whether it refused the request,
/// the room when the request was sent and now, and the answer's body: stop on
/// a refusal or a change of room, carry on when the body is empty, and
/// otherwise read the messages.
pub fn reply_action(unauthorized: bool, initial_room: &str, current_room: &str, body: &str) -> (r:
    ReplyAction)
    ensures
        r == (if unauthorized || initial_room@ != current_room@ {
            ReplyAction::Stop
        } else if body@.len() == 0 {
            ReplyAction::Continue
        } else {
            ReplyAction::Deliver
        }),
{
    if unauthorized {
        return ReplyAction::Stop;
    }
    let before = chars_of(initial_room);
    let now = chars_of(current_room);
    if !same_chars(&before, &now) {
        return ReplyAction::Stop;
    }
    if body.is_empty() {
        ReplyAction::Continue
    } else {
        ReplyAction::Deliver
    }
}

/// Whether the login form may be sent: both the name and the room are filled in.
pub fn log_in_fields_valid(username: &str, room: &str) -> (r: bool)
    ensures
        r == (username@.len() != 0 && room@.len() != 0),
{
    !username.is_empty() && !room.is_empty()
}

/// The chat window's title once logged in: `Rusty Chat : name@room`.
pub fn window_title(username: &str, room: &str) -> (r: String)
    ensures
        r@ == "Rusty Chat : "@ + username@ + seq!['@'] + room@,
{
    let title = "Rusty Chat : ".to_owned();
    let mut title = title.concat(username);
    push_char(&mut title, '@');
    title.concat(room)
}

/// One received message is shown as `author: body` and a line break when it
/// has a body, and not at all when it has none.
pub proof fn lemma_chat_text_single(author: Seq<char>, body: Seq<char>)
    ensures
        chat_text(seq![(author, body)]) == if body.len() == 0 {
            Seq::<char>::empty()
        } else {
            author + seq![':', ' '] + body + seq!['\n']
        },
{
    let one = seq![(author, body)];
    assert(one.drop_last() =~= Seq::<(Seq<char>, Seq<char>)>::empty());
    assert(chat_text(one.drop_last()) =~= Seq::<char>::empty());
}

/// Each message is shown on its own, whatever came before it: the text for
/// two runs of messages is the text for the first followed by that for the
/// second.
pub proof fn lemma_chat_text_concat(
    first: Seq<(Seq<char>, Seq<char>)>,
    second: Seq<(Seq<char>, Seq<char>)>,
)
    ensures
        chat_text(first + second) == chat_text(first) + chat_text(second),
    decreases second.len(),
{
    if second.len() == 0 {
        assert(first + second =~= first);
        assert(chat_text(first) + chat_text(second) =~= chat_text(first));
    } else {
        lemma_chat_text_concat(first, second.drop_last());
        assert((first + second).drop_last() =~= first + second.drop_last());
        assert((first + second).last() == second.last());
        let (author, body) = second.last();
        let shown = if body.len() == 0 {
            Seq::<char>::empty()
        } else {
            author + seq![':', ' '] + body + seq!['\n']
        };
        assert(chat_text(first + second) == chat_text(first + second.drop_last()) + shown);
        assert(chat_text(second) == chat_text(second.drop_last()) + shown);
        assert(chat_text(first + second) =~= chat_text(first) + chat_text(second));
    }
}

} // verus!
