//! Verified core of a small multiplayer game server: the binary wire codec
//! for the reliable message channel and the fixed-size state channel, the
//! player slot table with its capacity and role rules, the fixed-tick state
//! replication, the chat-command interpreter and voting subsystem, and the
//! persisted settings document. All I/O lives outside this crate; the library
//! works on plain values and hands packets back to the caller.
#![allow(non_snake_case)]

pub mod bytes;
pub mod kvlist;
pub mod player_state;
pub mod state;
pub mod codec;
pub mod voting;
pub mod table;
pub mod config;
pub mod server_core;
pub mod client_core;
pub mod json_out;
pub mod datetime;
