//! Core of a broker that exposes line-oriented or binary programs as
//! multiplexed WebSocket rooms: message framing and routing, the per-room
//! cache, the port pool, template substitution, and the reactor that owns
//! rooms, connections and children.

pub mod types;
pub mod message;
pub mod cache;
pub mod ports;
pub mod envvars;
pub mod cli;
pub mod bridge;
pub mod supervisor;
pub mod events;
pub mod rooms;
pub mod metrics;
