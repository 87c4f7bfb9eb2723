//! The simulation: registry, world and tick control, kept in lock-step.

use super::actor_ids::{ActorId, ActorIds, ActorIdsView};
use super::cmd_buffer::BufferView;
use super::control::{duration_nanos, nanos_of, Control, ControlView};
use super::dense::{first_place, swap_removed};
use super::router::{decode, parse, Message, MessageView};
use super::ticks::{lemma_frames_add, lemma_frames_exact, lemma_frames_fit, total_nanos};
use super::world::{World, WorldView};
use crate::shared::types::{FrameId, SimCommand, INVALID_FRAMEID};
use std::time::Duration;
use vstd::prelude::*;

verus! {

/// The name under which an actor stands in the world when it joined by a
/// datagram.
pub const REMOTE_ACTOR_NAME: &'static str = "remote";

/// What a simulation holds.
pub struct SimulationView {
    pub ids: ActorIdsView,
    pub world: WorldView,
    pub control: ControlView,
}

impl SimulationView {
    /// The invariant: each part is well formed, the three tables hold one
    /// entry per actor, and the accumulator holds less than a frame.
    pub open spec fn wf(self) -> bool {
        &&& self.ids.wf()
        &&& self.world.wf()
        &&& self.control.wf()
        &&& self.ids.ids.len() == self.world.actors.len()
        &&& self.ids.ids.len() == self.control.buffers.len()
        &&& self.control.frame_nanos > 0 ==> self.control.accumulator < self.control.frame_nanos
    }

    /// The simulation after an actor was added at frame `current`: an entry
    /// more in each table; unchanged where the registry has no room.
    pub open spec fn add_actor(self, current: int, name: Seq<char>) -> SimulationView {
        if self.ids.has_room() {
            SimulationView {
                ids: self.ids.add(),
                world: WorldView { actors: self.world.actors.push(name), ..self.world },
                control: ControlView {
                    buffers: self.control.buffers.push(BufferView::fresh(current)),
                    ..self.control
                },
            }
        } else {
            self
        }
    }

    /// The simulation after the actor `id` was removed: the same
    /// swap-remove in each table; unchanged where `id` is not live.
    pub open spec fn remove_actor(self, id: i16) -> SimulationView {
        match first_place(self.ids.ids, id) {
            Some(place) => SimulationView {
                ids: self.ids.remove(id),
                world: WorldView {
                    actors: swap_removed(self.world.actors, place),
                    ..self.world
                },
                control: ControlView {
                    buffers: swap_removed(self.control.buffers, place),
                    ..self.control
                },
            },
            None => self,
        }
    }

    /// The simulation after a batch of commands for the actor `id`;
    /// unchanged where `id` is not live.
    pub open spec fn add_commands(self, id: i16, commands: Seq<SimCommand>, most_recent: int)
        -> SimulationView {
        match first_place(self.ids.ids, id) {
            Some(place) => SimulationView {
                control: ControlView {
                    buffers: self.control.buffers.update(
                        place,
                        self.control.buffers[place].add_commands(commands, most_recent),
                    ),
                    ..self.control
                },
                ..self
            },
            None => self,
        }
    }

    /// The simulation after a message.
    pub open spec fn route(self, message: MessageView) -> SimulationView {
        match message {
            MessageView::ActorJoin { name } => self.add_actor(
                INVALID_FRAMEID as int,
                REMOTE_ACTOR_NAME@,
            ),
            MessageView::ActorLeave { actor } => self.remove_actor(actor),
            MessageView::InputBatch { actor, most_recent, commands } => self.add_commands(
                actor,
                commands,
                most_recent as int,
            ),
        }
    }

    /// The number of frames that are due once `nanos` more have passed.
    pub open spec fn steps(self, nanos: nat) -> nat {
        (self.control.accumulator + nanos) / self.control.frame_nanos
    }

    /// Whether an update by `nanos` can be carried out: frames have a
    /// length, the accumulator can hold the time that has then passed, and
    /// the steps that are due leave the frame counter within its range.
    pub open spec fn can_update(self, nanos: nat) -> bool {
        &&& self.control.frame_nanos > 0
        &&& self.control.accumulator + nanos <= u128::MAX
        &&& self.world.head + self.steps(nanos) <= FrameId::MAX
    }

    /// The simulation after `nanos` more have passed: the world has stepped
    /// once for each frame that was due, every buffer was consumed as often,
    /// and the time that fills no frame stays in the accumulator.
    pub open spec fn run(self, nanos: nat) -> SimulationView {
        SimulationView {
            ids: self.ids,
            world: WorldView { head: self.world.head + self.steps(nanos), ..self.world },
            control: ControlView {
                frame_nanos: self.control.frame_nanos,
                accumulator: (self.control.accumulator + nanos) % self.control.frame_nanos,
                buffers: Seq::new(
                    self.control.buffers.len(),
                    |i: int| self.control.buffers[i].consume_n(self.steps(nanos)),
                ),
            },
        }
    }
}

/// The server-side simulation.
pub struct Simulation {
    ids: ActorIds,
    main_world: World,
    control: Control,
}

impl View for Simulation {
    type V = SimulationView;

    closed spec fn view(&self) -> SimulationView {
        SimulationView { ids: self.ids@, world: self.main_world@, control: self.control@ }
    }
}

impl Simulation {
    /// The simulation's invariant.
    pub open spec fn wf(&self) -> bool {
        self@.wf()
    }

    /// A simulation without actors or objects, at `start_frame`.
    pub fn start(
        start_frame: FrameId,
        frame_duration: Duration,
        capacity: i16,
        object_cap: i16,
    ) -> (simulation: Simulation)
        requires
            capacity >= 0,
            object_cap >= 0,
        ensures
            simulation.wf(),
            simulation@ == (SimulationView {
                ids: ActorIdsView { ids: Seq::empty(), generator: 0, capacity: capacity as int },
                world: WorldView {
                    head: start_frame as int,
                    actors: Seq::empty(),
                    objects: Seq::empty(),
                    generator: 0,
                    object_capacity: object_cap as int,
                },
                control: ControlView {
                    frame_nanos: nanos_of(frame_duration),
                    accumulator: 0,
                    buffers: Seq::empty(),
                },
            }),
    {
        Simulation {
            ids: ActorIds::new(capacity),
            main_world: World::new(start_frame, capacity, object_cap),
            control: Control::new(capacity, frame_duration),
        }
    }

    /// Ends the simulation.
    pub fn stop(self) {
    }

    /// The frame the world stands at.
    pub fn head(&self) -> (frame: FrameId)
        ensures
            frame == self@.world.head,
    {
        self.main_world.head()
    }

    /// The number of actors, which is the length of each of the three
    /// tables.
    pub fn actor_count(&self) -> (count: i16)
        requires
            self.wf(),
        ensures
            count == self@.ids.ids.len(),
            count == self@.world.actors.len(),
            count == self@.control.buffers.len(),
    {
        self.ids.count()
    }

    /// Adds an actor that joins at frame `current`, in all three tables.
    ///
    /// Refused, with the simulation untouched, when the registry is full.
    pub fn add_actor(&mut self, current: FrameId, name: &'static str) -> (issued: Option<ActorId>)
        requires
            old(self).wf(),
            current > FrameId::MIN,
        ensures
            final(self).wf(),
            final(self)@ == old(self)@.add_actor(current as int, name@),
            issued is Some <==> old(self)@.ids.has_room(),
            issued matches Some(id) ==> id@ == ActorIdsView::next_id(old(self)@.ids.generator),
    {
        match self.ids.add() {
            Some((id, _)) => {
                self.control.add_actor(current);
                self.main_world.add_actor(name);
                Some(id)
            },
            None => None,
        }
    }

    /// Removes the actor `id` from all three tables; does nothing where
    /// `id` is not live.
    pub fn remove_actor(&mut self, id: ActorId)
        requires
            old(self).wf(),
        ensures
            final(self).wf(),
            final(self)@ == old(self)@.remove_actor(id@),
    {
        if let Some(index) = self.ids.remove(id) {
            self.control.remove_actor(index);
            self.main_world.remove_actor(index);
        }
    }

    /// Lets `nanos` nanoseconds pass: the world steps once for each frame
    /// that is due, on the inputs that tick control hands out for it.
    pub fn run(&mut self, nanos: u128)
        requires
            old(self).wf(),
            old(self)@.can_update(nanos as nat),
        ensures
            final(self).wf(),
            final(self)@ == old(self)@.run(nanos as nat),
    {
        let ghost start = self@;
        let ghost total: nat = start.control.accumulator + nanos as nat;
        let ghost frame: nat = start.control.frame_nanos;
        let ghost mut done: nat = 0;
        let mut step_nanos: u128 = nanos;
        assert(0 * frame == 0) by (nonlinear_arith);
        loop
            invariant
                start == old(self)@,
                total == start.control.accumulator + nanos as nat,
                frame == start.control.frame_nanos,
                frame > 0,
                total <= u128::MAX,
                start.world.head + total / frame <= FrameId::MAX,
                start.wf(),
                self.control.wf(),
                self.ids@ == start.ids,
                self.main_world@ == (WorldView { head: start.world.head + done, ..start.world }),
                self.control@.frame_nanos == frame,
                self.control@.accumulator + step_nanos + done * frame == total,
                self.control@.buffers.len() == start.control.buffers.len(),
                forall|i: int|
                    0 <= i < start.control.buffers.len() ==> self.control@.buffers[i]
                        == start.control.buffers[i].consume_n(done),
            decreases self.control@.accumulator + step_nanos,
        {
            let ghost before = self.control@;
            match self.control.advance(step_nanos) {
                Some(inputs) => {
                    proof {
                        assert((done + 1) * frame == done * frame + frame) by (nonlinear_arith);
                        lemma_frames_fit(total, frame, done + 1);
                    }
                    self.main_world.step(inputs);
                    step_nanos = 0;
                    proof {
                        done = done + 1;
                    }
                },
                None => {
                    proof {
                        lemma_frames_exact(total, frame, done, self.control@.accumulator);
                        assert(self@.control.buffers =~= start.run(nanos as nat).control.buffers);
                    }
                    return;
                },
            }
        }
    }

    /// Lets the time `delta` pass: `run` by its length in nanoseconds.
    pub fn update(&mut self, delta: Duration)
        requires
            old(self).wf(),
            old(self)@.can_update(nanos_of(delta)),
        ensures
            final(self).wf(),
            final(self)@ == old(self)@.run(nanos_of(delta)),
    {
        let nanos = duration_nanos(delta);
        self.run(nanos)
    }

    /// `update` for any `delta`: carried out where it can be; else the
    /// simulation stays as it is. Tells whether it was carried out.
    pub fn try_update(&mut self, delta: Duration) -> (done: bool)
        requires
            old(self).wf(),
        ensures
            final(self).wf(),
            done == old(self)@.can_update(nanos_of(delta)),
            final(self)@ == if done {
                old(self)@.run(nanos_of(delta))
            } else {
                old(self)@
            },
    {
        let nanos = duration_nanos(delta);
        let frame = self.control.frame_nanos();
        let held = self.control.accumulated_nanos();
        if frame == 0 || nanos > u128::MAX - held {
            return false;
        }
        let steps: u128 = (held + nanos) / frame;
        let head = self.main_world.head();
        if steps > (FrameId::MAX as i64 - head as i64) as u128 {
            return false;
        }
        self.run(nanos);
        true
    }

    /// Applies a message: a join adds an actor at the start frame under
    /// `REMOTE_ACTOR_NAME`, a leave removes the actor, a batch goes to the
    /// actor's buffer. A message for an actor that is not live does nothing.
    pub fn dispatch(&mut self, message: Message)
        requires
            old(self).wf(),
        ensures
            final(self).wf(),
            final(self)@ == old(self)@.route(message@),
    {
        match message {
            Message::ActorJoin { name: _ } => {
                self.add_actor(INVALID_FRAMEID, REMOTE_ACTOR_NAME);
            },
            Message::ActorLeave { actor } => {
                self.remove_actor(actor);
            },
            Message::InputBatch { actor, most_recent, commands } => {
                if let Some(index) = self.ids.find_index(actor) {
                    self.control.add_commands(index, commands.as_slice(), most_recent);
                }
            },
        }
    }

    /// Takes in one datagram: the message it holds is applied; a datagram
    /// that holds none is dropped.
    pub fn read(&mut self, buffer: &[u8])
        requires
            old(self).wf(),
        ensures
            final(self).wf(),
            final(self)@ == match decode(buffer@) {
                Ok(message) => old(self)@.route(message),
                Err(_) => old(self)@,
            },
    {
        match parse(buffer) {
            Ok(message) => self.dispatch(message),
            Err(_) => {},
        }
    }
}

impl SimulationView {
    /// The simulation after the spans `deltas` have passed one after
    /// another.
    pub open spec fn run_all(self, deltas: Seq<nat>) -> SimulationView
        decreases deltas.len(),
    {
        if deltas.len() == 0 {
            self
        } else {
            self.run_all(deltas.drop_last()).run(deltas.last())
        }
    }
}

/// Tick conservation: over a run of updates the world steps once for each
/// whole frame in the time that was held at the start plus the time that
/// passed, and what is left of that time stays in the accumulator. From an
/// empty accumulator the steps are the sum of the spans divided by the
/// frame's length, rounded down.
pub proof fn lemma_tick_conservation(start: SimulationView, deltas: Seq<nat>)
    requires
        start.control.frame_nanos > 0,
        start.control.accumulator < start.control.frame_nanos,
    ensures
        start.run_all(deltas).control.frame_nanos == start.control.frame_nanos,
        start.run_all(deltas).world.head - start.world.head == (start.control.accumulator
            + total_nanos(deltas)) / start.control.frame_nanos,
        start.run_all(deltas).control.accumulator == (start.control.accumulator + total_nanos(
            deltas,
        )) % start.control.frame_nanos,
    decreases deltas.len(),
{
    let frame = start.control.frame_nanos;
    let held = start.control.accumulator;
    if deltas.len() == 0 {
        lemma_frames_exact(held, frame, 0, held);
    } else {
        let earlier = deltas.drop_last();
        lemma_tick_conservation(start, earlier);
        lemma_frames_add(held, total_nanos(earlier), deltas.last(), frame);
    }
}

} // verus!
