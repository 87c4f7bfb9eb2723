//! Frame counters and per-tick input records.

use vstd::prelude::*;

verus! {

/// Monotonic simulation tick counter.
pub type FrameId = i32;

/// Reserved frame number; also the conventional start frame.
pub const INVALID_FRAMEID: FrameId = 0;

/// The input of one actor for one tick: a bitfield of buttons.
#[derive(PartialEq, Eq, Structural, Debug, Copy, Clone)]
pub struct SimCommand {
    pub buttons: i32,
}

impl SimCommand {
    /// The all-zero command.
    pub open spec fn spec_default() -> SimCommand {
        SimCommand { buttons: 0 }
    }

    /// The canonical command that stands for "no input".
    #[verifier::when_used_as_spec(spec_default)]
    pub fn default() -> (command: SimCommand)
        ensures
            command == Self::spec_default(),
    {
        SimCommand { buttons: 0 }
    }
}

/// What the world step receives for one actor on one frame.
#[derive(PartialEq, Eq, Structural, Debug, Copy, Clone)]
pub struct SimInput {
    pub previous: SimCommand,
    pub current: SimCommand,
}

} // verus!
