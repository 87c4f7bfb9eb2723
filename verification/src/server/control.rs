//! Tick control: a fixed-rate clock and the command buffers of the actors.

use super::actor_ids::ActorIndex;
use super::cmd_buffer::{Buffer, BufferView};
use super::dense::swap_removed;
use crate::shared::types::{FrameId, SimCommand, SimInput};
use std::time::Duration;
use vstd::prelude::*;

verus! {

/// The length of a `Duration` in nanoseconds: what `Duration::as_nanos`
/// returns for it.
pub uninterp spec fn nanos_of(duration: Duration) -> nat;

/// `Duration::as_nanos`, which returns the total number of nanoseconds that
/// the duration contains. The contract claims no more than that the result
/// depends on the duration alone: it is the duration's `nanos_of`.
#[verifier::external_body]
pub(crate) fn duration_nanos(duration: Duration) -> (nanos: u128)
    ensures
        nanos == nanos_of(duration),
{
    duration.as_nanos()
}

/// What tick control keeps of one actor.
struct ActorData {
    cmd_buffer: Buffer,
}

impl ActorData {
    fn new(last_frame: FrameId) -> (data: ActorData)
        requires
            last_frame > FrameId::MIN,
        ensures
            data.cmd_buffer.wf(),
            data.cmd_buffer@ == BufferView::fresh(last_frame as int),
    {
        ActorData { cmd_buffer: Buffer::new(last_frame) }
    }
}

/// What tick control holds: the length of a frame and the time not yet
/// spent on frames, both in nanoseconds, and the actors' buffers in table
/// order.
pub struct ControlView {
    pub frame_nanos: nat,
    pub accumulator: nat,
    pub buffers: Seq<BufferView>,
}

impl ControlView {
    /// The invariant: every buffer is well formed.
    pub open spec fn wf(self) -> bool {
        forall|i: int| 0 <= i < self.buffers.len() ==> (#[trigger] self.buffers[i]).wf()
    }

    /// Whether a frame is due once `nanos` more have passed.
    pub open spec fn due(self, nanos: nat) -> bool {
        self.accumulator + nanos >= self.frame_nanos
    }

    /// The inputs of a frame: each actor's next input, in table order.
    pub open spec fn inputs(self) -> Seq<SimInput> {
        Seq::new(self.buffers.len(), |i: int| self.buffers[i].next_input())
    }

    /// Tick control after `nanos` more have passed: where a frame is due,
    /// its length leaves the accumulator and every buffer is consumed once;
    /// else the time only accumulates.
    pub open spec fn advance(self, nanos: nat) -> ControlView {
        if self.due(nanos) {
            ControlView {
                frame_nanos: self.frame_nanos,
                accumulator: (self.accumulator + nanos - self.frame_nanos) as nat,
                buffers: Seq::new(self.buffers.len(), |i: int| self.buffers[i].consume()),
            }
        } else {
            ControlView { accumulator: self.accumulator + nanos, ..self }
        }
    }
}

/// Fixed-rate clock accumulator with the actors' command buffers.
pub struct Control {
    frame_nanos: u128,
    accumulator: u128,
    actor_data: Vec<ActorData>,
}

impl View for Control {
    type V = ControlView;

    closed spec fn view(&self) -> ControlView {
        ControlView {
            frame_nanos: self.frame_nanos as nat,
            accumulator: self.accumulator as nat,
            buffers: Seq::new(self.actor_data@.len(), |i: int| self.actor_data@[i].cmd_buffer@),
        }
    }
}

impl Control {
    /// The invariant of tick control.
    pub open spec fn wf(&self) -> bool {
        self@.wf()
    }

    /// Tick control for frames of `frame_duration`, with no actors and an
    /// empty accumulator.
    pub fn new(capacity: i16, frame_duration: Duration) -> (control: Control)
        requires
            capacity >= 0,
        ensures
            control.wf(),
            control@ == (ControlView {
                frame_nanos: nanos_of(frame_duration),
                accumulator: 0,
                buffers: Seq::empty(),
            }),
    {
        let control = Control {
            frame_nanos: duration_nanos(frame_duration),
            accumulator: 0,
            actor_data: Vec::<ActorData>::with_capacity(capacity as usize),
        };
        proof {
            assert(control@.buffers =~= Seq::<BufferView>::empty());
        }
        control
    }

    /// The length of a frame in nanoseconds.
    pub fn frame_nanos(&self) -> (nanos: u128)
        ensures
            nanos == self@.frame_nanos,
    {
        self.frame_nanos
    }

    /// The time held in the accumulator, in nanoseconds.
    pub fn accumulated_nanos(&self) -> (nanos: u128)
        ensures
            nanos == self@.accumulator,
    {
        self.accumulator
    }

    /// The number of actors.
    pub fn actor_count(&self) -> (count: usize)
        ensures
            count == self@.buffers.len(),
    {
        self.actor_data.len()
    }

    /// Appends a fresh buffer for an actor that joins at frame `current`,
    /// and returns its index.
    pub fn add_actor(&mut self, current: FrameId) -> (index: ActorIndex)
        requires
            old(self).wf(),
            current > FrameId::MIN,
        ensures
            final(self).wf(),
            index == old(self)@.buffers.len(),
            final(self)@ == (ControlView {
                buffers: old(self)@.buffers.push(BufferView::fresh(current as int)),
                ..old(self)@
            }),
    {
        self.actor_data.push(ActorData::new(current));
        proof {
            assert(self@.buffers =~= old(self)@.buffers.push(BufferView::fresh(current as int)));
        }
        self.actor_data.len() - 1
    }

    /// Removes the buffer at `index` by swap-remove.
    pub fn remove_actor(&mut self, index: ActorIndex)
        requires
            old(self).wf(),
            index < old(self)@.buffers.len(),
        ensures
            final(self).wf(),
            final(self)@ == (ControlView {
                buffers: swap_removed(old(self)@.buffers, index as int),
                ..old(self)@
            }),
    {
        self.actor_data.swap_remove(index);
        proof {
            assert(self@.buffers =~= swap_removed(old(self)@.buffers, index as int));
        }
    }

    /// Hands a batch of commands that ends at `frame` to the buffer of the
    /// actor at `actor_index`.
    pub fn add_commands(&mut self, actor_index: ActorIndex, commands: &[SimCommand], frame: FrameId)
        requires
            old(self).wf(),
            actor_index < old(self)@.buffers.len(),
        ensures
            final(self).wf(),
            final(self)@ == (ControlView {
                buffers: old(self)@.buffers.update(
                    actor_index as int,
                    old(self)@.buffers[actor_index as int].add_commands(commands@, frame as int),
                ),
                ..old(self)@
            }),
    {
        assert(old(self)@.buffers[actor_index as int].wf());
        self.actor_data[actor_index].cmd_buffer.add_commands(commands, frame);
        proof {
            assert(self@.buffers =~= old(self)@.buffers.update(
                actor_index as int,
                old(self)@.buffers[actor_index as int].add_commands(commands@, frame as int),
            ));
        }
    }

    /// Lets `nanos` nanoseconds pass.
    ///
    /// Where the accumulated time then reaches the length of a frame, one
    /// frame's length is taken from it and each actor's next input is
    /// returned, in table order; else nothing is returned.
    pub fn advance(&mut self, nanos: u128) -> (inputs: Option<Vec<SimInput>>)
        requires
            old(self).wf(),
            old(self)@.accumulator + nanos <= u128::MAX,
        ensures
            final(self).wf(),
            final(self)@ == old(self)@.advance(nanos as nat),
            match inputs {
                Some(list) => old(self)@.due(nanos as nat) && list@ == old(self)@.inputs(),
                None => !old(self)@.due(nanos as nat),
            },
    {
        self.accumulator = self.accumulator + nanos;
        if self.accumulator < self.frame_nanos {
            proof {
                assert(self@.buffers =~= old(self)@.buffers);
            }
            return None;
        }
        self.accumulator = self.accumulator - self.frame_nanos;
        let ghost before = old(self)@.buffers;
        let count = self.actor_data.len();
        let mut inputs: Vec<SimInput> = Vec::with_capacity(count);
        let mut index: usize = 0;
        proof {
            assert forall|i: int| 0 <= i < count implies (#[trigger] self.actor_data@[i]).cmd_buffer.wf() by {
                assert(before[i].wf());
            }
        }
        while index < count
            invariant
                self.frame_nanos == old(self).frame_nanos,
                self.accumulator == old(self).accumulator + nanos - old(self).frame_nanos,
                before == old(self)@.buffers,
                old(self)@.wf(),
                count == self.actor_data@.len() == before.len(),
                index <= count,
                inputs@.len() == index,
                forall|i: int| 0 <= i < index ==> inputs@[i] == before[i].next_input(),
                forall|i: int|
                    0 <= i < count ==> (#[trigger] self.actor_data@[i]).cmd_buffer@ == if i
                        < index {
                        before[i].consume()
                    } else {
                        before[i]
                    },
                forall|i: int| 0 <= i < count ==> (#[trigger] self.actor_data@[i]).cmd_buffer.wf(),
            decreases count - index,
        {
            assert(before[index as int].wf());
            let input = self.actor_data[index].cmd_buffer.consume_command();
            inputs.push(input);
            index = index + 1;
        }
        proof {
            assert(inputs@ =~= old(self)@.inputs());
            assert(self@.buffers =~= old(self)@.advance(nanos as nat).buffers);
        }
        Some(inputs)
    }

    /// Lets the time `delta` pass: `advance` by its length in nanoseconds.
    pub fn update(&mut self, delta: Duration) -> (inputs: Option<Vec<SimInput>>)
        requires
            old(self).wf(),
            old(self)@.accumulator + nanos_of(delta) <= u128::MAX,
        ensures
            final(self).wf(),
            final(self)@ == old(self)@.advance(nanos_of(delta)),
            match inputs {
                Some(list) => old(self)@.due(nanos_of(delta)) && list@ == old(self)@.inputs(),
                None => !old(self)@.due(nanos_of(delta)),
            },
    {
        let nanos = duration_nanos(delta);
        self.advance(nanos)
    }

    /// `update` for any `delta`: where the accumulator cannot hold the time
    /// that has then passed, nothing changes and the outer result is `None`.
    pub fn checked_update(&mut self, delta: Duration) -> (outcome: Option<Option<Vec<SimInput>>>)
        requires
            old(self).wf(),
        ensures
            final(self).wf(),
            outcome is Some <==> old(self)@.accumulator + nanos_of(delta) <= u128::MAX,
            match outcome {
                Some(inputs) => {
                    &&& final(self)@ == old(self)@.advance(nanos_of(delta))
                    &&& match inputs {
                        Some(list) => old(self)@.due(nanos_of(delta)) && list@
                            == old(self)@.inputs(),
                        None => !old(self)@.due(nanos_of(delta)),
                    }
                },
                None => final(self)@ == old(self)@,
            },
    {
        let nanos = duration_nanos(delta);
        if nanos > u128::MAX - self.accumulator {
            return None;
        }
        Some(self.advance(nanos))
    }
}

} // verus!
