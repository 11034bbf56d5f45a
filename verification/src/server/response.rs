//! What the server sends back: chat messages and the time of the newest one.

use vstd::prelude::*;

verus! {

/// One chat message as it is sent to a client: who wrote it and what. On the
/// wire it is a JSON object with exactly the keys `username` and `body`.
#[derive(Debug, PartialEq, Eq)]
pub struct ChatEntry {
    pub username: String,
    pub body: String,
}

impl View for ChatEntry {
    type V = (Seq<char>, Seq<char>);

    open spec fn view(&self) -> (Seq<char>, Seq<char>) {
        (self.username@, self.body@)
    }
}

/// The contents of a list of chat messages.
pub open spec fn entries_view(v: Seq<ChatEntry>) -> Seq<(Seq<char>, Seq<char>)> {
    v.map_values(|e: ChatEntry| e@)
}

/// The answer to a login, poll or posted message.
#[derive(Debug, PartialEq, Eq)]
pub struct Response {
    pub messages: Vec<ChatEntry>,
    pub last_received: i64,
}

impl View for Response {
    type V = (Seq<(Seq<char>, Seq<char>)>, i64);

    open spec fn view(&self) -> (Seq<(Seq<char>, Seq<char>)>, i64) {
        (entries_view(self.messages@), self.last_received)
    }
}

impl Response {
    /// Constructs a new, empty response.
    pub fn new() -> (r: Self)
        ensures
            r@ == (Seq::<(Seq<char>, Seq<char>)>::empty(), 0i64),
            r.messages@.len() == 0,
    {
        let r = Response { messages: Vec::new(), last_received: 0 };
        assert(entries_view(r.messages@) =~= Seq::<(Seq<char>, Seq<char>)>::empty());
        r
    }
}

} // verus!
