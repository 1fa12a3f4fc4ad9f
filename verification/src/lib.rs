//! The message path of a chat daemon: the wire codec for protocol lines,
//! the per-channel backlog, the dispatcher that owns it, and the framing of
//! the local request/response transport.

pub mod clock;
pub mod text;
pub mod irc_message;
pub mod irc_channel;
pub mod circ_comms;
pub mod irc;
pub mod client;
pub mod theorems;
