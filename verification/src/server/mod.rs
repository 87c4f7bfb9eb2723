//! The server side: actor registry, command buffers, tick control, world
//! and the simulation that composes them.

pub mod actor_ids;
pub mod cmd_buffer;
pub mod control;
pub mod dense;
pub mod router;
pub mod simulation;
pub mod ticks;
pub mod world;
