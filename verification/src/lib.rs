//! IPC client core for an external media player driven over a local
//! line-delimited JSON channel.
//!
//! The crate models the protocol end of a player session: a codec that
//! encodes typed commands and decodes inbound responses and events, a line
//! framer, a dispatch table correlating request ids with replies, a registry
//! of observed properties, and a connection state machine tying them
//! together. All of it is verified; the process, socket and terminal
//! plumbing around it is ordinary unverified code.

use vstd::prelude::*;

pub mod cli;
pub mod codec;
pub mod dispatch;
pub mod framing;
pub mod json;
pub mod observer;
pub mod session;
pub mod state;
pub mod text;
pub mod util;

verus! {

} // verus!
