//! A small chat service: a server that keeps rooms of messages in text logs
//! and a client that talks to it, with the logic of both proved in Verus.

pub mod client;
pub mod decimal;
pub mod server;
pub mod text;
