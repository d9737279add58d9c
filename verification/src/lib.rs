//! Core of a multi-party video relay hub.
//!
//! Each participant holds a session; a per-room coordinator keeps the
//! membership registry and fans every relayed video chunk and every
//! join/leave notice out to the other members of the room.  The modules
//! here cover the verified core: participant-id generation, the binary
//! and control frame codec, the session state machine, the coordinator,
//! and the table of rooms.  The transport that carries frames in and out
//! lives outside this crate and only exchanges plain values with it.

pub mod codec;
pub mod coordinator;
pub mod ids;
pub mod messages;
pub mod rooms;
pub mod session;
