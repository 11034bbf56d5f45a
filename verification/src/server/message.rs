//! The requests that clients send: one shape, told apart by which fields are empty.

use vstd::prelude::*;

verus! {

/// A request from a client. An empty `body` with a zero `last_received` is a
/// login (with a room) or a logout (without one); an empty `body` with a
/// non-zero `last_received` and a room is a poll; anything else is a message to post.
#[derive(Debug)]
pub struct Message {
    pub username: String,
    pub body: String,
    pub last_received: i64,
    pub room: String,
}

/// Which of the four requests a message is, in the order the server tests them.
#[derive(Debug, Clone, Copy, PartialEq, Eq, Structural)]
pub enum RequestKind {
    Logout,
    Login,
    Poll,
    Post,
}

impl Message {
    pub open spec fn poll_shape(&self) -> bool {
        self.body@.len() == 0 && self.last_received != 0 && self.room@.len() != 0
    }

    pub open spec fn login_shape(&self) -> bool {
        self.body@.len() == 0 && self.last_received == 0 && self.room@.len() != 0
    }

    pub open spec fn logout_shape(&self) -> bool {
        self.body@.len() == 0 && self.last_received == 0 && self.room@.len() == 0
    }

    /// The kind of request, testing logout, then login, then poll.
    pub open spec fn kind(&self) -> RequestKind {
        if self.logout_shape() {
            RequestKind::Logout
        } else if self.login_shape() {
            RequestKind::Login
        } else if self.poll_shape() {
            RequestKind::Poll
        } else {
            RequestKind::Post
        }
    }

    /// Whether the message is a poll request.
    pub fn is_poll(&self) -> (r: bool)
        ensures
            r == self.poll_shape(),
    {
        self.body.as_str().is_empty() && self.last_received != 0 && !self.room.as_str().is_empty()
    }

    /// Whether the message is a login request.
    pub fn is_login(&self) -> (r: bool)
        ensures
            r == self.login_shape(),
    {
        self.body.as_str().is_empty() && self.last_received == 0 && !self.room.as_str().is_empty()
    }

    /// Whether the message is a logout request.
    pub fn is_logout(&self) -> (r: bool)
        ensures
            r == self.logout_shape(),
    {
        self.body.as_str().is_empty() && self.last_received == 0 && self.room.as_str().is_empty()
    }

    /// The kind of request, as the server dispatches on it.
    pub fn classify(&self) -> (r: RequestKind)
        ensures
            r == self.kind(),
    {
        if self.is_logout() {
            RequestKind::Logout
        } else if self.is_login() {
            RequestKind::Login
        } else if self.is_poll() {
            RequestKind::Poll
        } else {
            RequestKind::Post
        }
    }
}

/// At most one of the three request shapes fits a message, and a message with
/// a body is always a message to post.
pub proof fn lemma_request_shapes_exclusive(m: Message)
    ensures
        !(m.poll_shape() && m.login_shape()),
        !(m.poll_shape() && m.logout_shape()),
        !(m.login_shape() && m.logout_shape()),
        m.body@.len() != 0 ==> m.kind() == RequestKind::Post,
        m.poll_shape() ==> m.kind() == RequestKind::Poll,
        m.login_shape() ==> m.kind() == RequestKind::Login,
{
}

} // verus!
