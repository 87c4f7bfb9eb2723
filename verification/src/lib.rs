//! Server-side core of a game netcode: a bit-packed wire codec, per-actor
//! command jitter buffers, and a fixed-rate tick simulation.

pub mod server;
pub mod shared;
