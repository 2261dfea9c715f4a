//! Authoritative session layer for a small real-time multiplayer game.
//!
//! The crate tracks one session per peer address, authenticates each client's
//! self-reported session token, and multiplexes chat, state-sync and control
//! traffic over a tiny JSON-shaped envelope format.  Transport (the UDP
//! socket) and scheduling live outside the crate; everything here is pure
//! state and bytes.

pub mod codec;
pub mod dispatch;
pub mod guid;
pub mod json;
pub mod liveness;
pub mod packet;
pub mod registry;
mod strutil;
