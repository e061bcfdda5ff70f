//! Authoritative simulation core of a real-time multiplayer arena server.
//!
//! The crate owns the shared world state (the [`simulation::Arena`]), advances
//! physics on a fixed tick, resolves collisions between players, and defines
//! the exact wire protocol spoken with clients ([`protocol`]).  Network
//! transport and process bootstrapping live outside the library; the library
//! talks to a connection only through an outbound message channel.

pub mod types;
pub mod utf8;
pub mod binary;
pub mod protocol;
pub mod fixed;
pub mod net;
pub mod spatial;
pub mod util;
pub mod tank;
pub mod entity;
pub mod simulation;
