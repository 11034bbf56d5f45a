//! The chat server's logic: what a request is, who is logged in, what a room
//! log holds, and what each request is answered.

pub mod message;
pub mod response;
pub mod users;
pub mod room_log;
pub mod handlers;
pub mod laws;
