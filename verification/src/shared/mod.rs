//! Types and codecs used by both ends of a connection.

pub mod bitreg;
pub mod bits;
pub mod bitseq;
pub mod types;
pub mod world;

pub use self::types::{FrameId, SimCommand, SimInput, INVALID_FRAMEID};
pub use self::world::ObjectId;
