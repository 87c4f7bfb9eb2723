//! Per-actor jitter buffer of input commands, keyed by frame.

use crate::shared::types::{FrameId, SimCommand, SimInput};
use std::collections::VecDeque;
use vstd::prelude::*;

verus! {

/// What a buffer holds: slot `i` of `commands` is the command of frame
/// `last_consumed + 1 + i`, and the last slot is that of `most_recent`.
///
/// Slot 0 is the command handed out last (the sentinel at first): it is the
/// `previous` of the next input.
pub struct BufferView {
    pub commands: Seq<SimCommand>,
    pub most_recent: int,
    pub last_consumed: int,
}

impl BufferView {
    /// The invariant: never empty, and as long as the frames it spans.
    pub open spec fn wf(self) -> bool {
        &&& self.commands.len() >= 1
        &&& self.most_recent - self.last_consumed == self.commands.len()
    }

    /// A fresh buffer whose sentinel stands at `last_frame`.
    pub open spec fn fresh(last_frame: int) -> BufferView {
        BufferView {
            commands: seq![SimCommand::spec_default()],
            most_recent: last_frame,
            last_consumed: last_frame - 1,
        }
    }

    /// The command of `frame`, for a frame that the buffer spans.
    pub open spec fn command_at(self, frame: int) -> SimCommand
        recommends
            self.last_consumed < frame <= self.most_recent,
    {
        self.commands[frame - self.last_consumed - 1]
    }

    /// The command that a batch of `batch` ending at `most_recent` leaves at
    /// `frame`: the batch's own where the batch covers the frame, else the
    /// one held before, else (in a gap past the old end) a copy of the old
    /// last command.
    pub open spec fn merged_at(self, batch: Seq<SimCommand>, most_recent: int, frame: int)
        -> SimCommand {
        let least_recent = most_recent - batch.len() + 1;
        if least_recent <= frame <= most_recent {
            batch[frame - least_recent]
        } else if frame <= self.most_recent {
            self.command_at(frame)
        } else {
            self.commands.last()
        }
    }

    /// The buffer after a batch: it then ends at the later of the two ends,
    /// and frames at or before `last_consumed` are not touched.
    pub open spec fn add_commands(self, batch: Seq<SimCommand>, most_recent: int) -> BufferView {
        let end = if most_recent > self.most_recent {
            most_recent
        } else {
            self.most_recent
        };
        BufferView {
            commands: Seq::new(
                (end - self.last_consumed) as nat,
                |i: int| self.merged_at(batch, most_recent, self.last_consumed + 1 + i),
            ),
            most_recent: end,
            last_consumed: self.last_consumed,
        }
    }

    /// The input that the next consume hands out.
    pub open spec fn next_input(self) -> SimInput {
        if self.commands.len() == 1 {
            SimInput { previous: self.commands[0], current: self.commands[0] }
        } else {
            SimInput { previous: self.commands[0], current: self.commands[1] }
        }
    }

    /// The buffer after a consume: unchanged when only one command is left,
    /// else one frame further.
    pub open spec fn consume(self) -> BufferView {
        if self.commands.len() == 1 {
            self
        } else {
            BufferView {
                commands: self.commands.skip(1),
                most_recent: self.most_recent,
                last_consumed: self.last_consumed + 1,
            }
        }
    }

    /// The buffer after `count` consumes.
    pub open spec fn consume_n(self, count: nat) -> BufferView
        decreases count,
    {
        if count == 0 {
            self
        } else {
            self.consume_n((count - 1) as nat).consume()
        }
    }
}

/// Overwrites one slot of a queue by an assignment through `VecDeque`'s
/// `IndexMut`, which hands out the element at `index` for writing and panics
/// when `index` is out of bounds. The contract claims that the queue then
/// holds `command` at `index` and, everywhere else, what it held before.
#[verifier::external_body]
fn replace_at(queue: &mut VecDeque<SimCommand>, index: usize, command: SimCommand)
    requires
        index < old(queue)@.len(),
    ensures
        final(queue)@ == old(queue)@.update(index as int, command),
{
    queue[index] = command;
}

/// Slot `i` of `held`, or a copy of its last slot past its end.
spec fn padded(held: Seq<SimCommand>, i: int) -> SimCommand {
    if i < held.len() {
        held[i]
    } else {
        held.last()
    }
}

/// Jitter buffer of one actor's commands.
pub struct Buffer {
    data: VecDeque<SimCommand>,
    most_recent: FrameId,
    last_consumed: FrameId,
}

impl View for Buffer {
    type V = BufferView;

    closed spec fn view(&self) -> BufferView {
        BufferView {
            commands: self.data@,
            most_recent: self.most_recent as int,
            last_consumed: self.last_consumed as int,
        }
    }
}

impl Buffer {
    /// The buffer's invariant.
    pub open spec fn wf(&self) -> bool {
        self@.wf()
    }

    /// A buffer that holds the default command at `last_frame`.
    pub fn new(last_frame: FrameId) -> (buffer: Buffer)
        requires
            last_frame > i32::MIN,
        ensures
            buffer.wf(),
            buffer@ == BufferView::fresh(last_frame as int),
    {
        let mut data = VecDeque::<SimCommand>::new();
        data.push_back(SimCommand::default());
        let buffer = Buffer { data, most_recent: last_frame, last_consumed: last_frame - 1 };
        proof {
            assert(buffer@.commands =~= seq![SimCommand::spec_default()]);
        }
        buffer
    }

    /// Admits a batch of commands for the consecutive frames that end at
    /// `most_recent`.
    ///
    /// Frames between the buffer's end and the batch's start are filled with
    /// copies of the buffer's last command; frames that the buffer already
    /// spans take the batch's command; frames past the buffer's end are
    /// appended. What the batch says of frames at or before `last_consumed`
    /// is dropped.
    pub fn add_commands(&mut self, commands: &[SimCommand], most_recent: FrameId)
        requires
            old(self).wf(),
        ensures
            final(self).wf(),
            final(self)@ == old(self)@.add_commands(commands@, most_recent as int),
    {
        let ghost target = old(self)@.add_commands(commands@, most_recent as int);
        let ghost held = old(self)@.commands;
        let ghost base = self.last_consumed as int;
        let span: i64 = most_recent as i64 - self.last_consumed as i64;
        if span < 1 {
            proof {
                assert(self@.commands =~= target.commands);
            }
            return;
        }
        let take: usize = if commands.len() as u64 >= span as u64 {
            span as usize
        } else {
            commands.len()
        };
        let skip: usize = commands.len() - take;
        let first: i64 = most_recent as i64 - take as i64 + 1;
        let last: SimCommand = self.data[self.data.len() - 1];
        while (self.most_recent as i64) + 1 < first
            invariant
                self.last_consumed == base,
                old(self)@.most_recent <= self.most_recent,
                1 <= held.len() <= self.data@.len(),
                last == held.last(),
                self.data@.len() == self.most_recent - base,
                self.most_recent + 1 <= first || self.most_recent == old(self)@.most_recent,
                first - 1 <= most_recent,
                forall|i: int| 0 <= i < self.data@.len() ==> self.data@[i] == padded(held, i),
            decreases first - self.most_recent,
        {
            self.data.push_back(last);
            self.most_recent = self.most_recent + 1;
        }
        let ghost filled = self.most_recent as int;
        let stop: i64 = if self.most_recent < most_recent {
            self.most_recent as i64
        } else {
            most_recent as i64
        };
        let mut frame: i64 = first;
        while frame <= stop
            invariant
                self.last_consumed == base,
                self.most_recent == filled,
                self.data@.len() == filled - base,
                base < first <= frame <= stop + 1,
                stop <= filled,
                stop <= most_recent,
                take <= commands@.len() <= usize::MAX,
                skip == commands@.len() - take,
                first == most_recent - take + 1,
                forall|i: int|
                    0 <= i < self.data@.len() ==> self.data@[i] == if first <= base + 1 + i
                        < frame {
                        commands@[skip + (base + 1 + i) - first]
                    } else {
                        padded(held, i)
                    },
            decreases stop + 1 - frame,
        {
            let slot: usize = (frame - self.last_consumed as i64 - 1) as usize;
            let pick: usize = skip + (frame - first) as usize;
            replace_at(&mut self.data, slot, commands[pick]);
            frame = frame + 1;
        }
        while self.most_recent < most_recent
            invariant
                self.last_consumed == base,
                filled <= self.most_recent,
                self.most_recent <= most_recent || self.most_recent == filled,
                self.data@.len() == self.most_recent - base,
                base < first <= filled + 1,
                take <= commands@.len() <= usize::MAX,
                skip == commands@.len() - take,
                first == most_recent - take + 1,
                forall|i: int|
                    0 <= i < self.data@.len() ==> self.data@[i] == if first <= base + 1 + i
                        <= most_recent {
                        commands@[skip + (base + 1 + i) - first]
                    } else {
                        padded(held, i)
                    },
            decreases most_recent - self.most_recent,
        {
            let next: i64 = self.most_recent as i64 + 1;
            let pick: usize = skip + (next - first) as usize;
            self.data.push_back(commands[pick]);
            self.most_recent = self.most_recent + 1;
        }
        proof {
            assert(self@.commands =~= target.commands);
        }
    }

    /// Hands out the input of the next frame.
    ///
    /// With only one command left the buffer repeats it and stays as it is;
    /// otherwise it moves one frame on.
    pub fn consume_command(&mut self) -> (input: SimInput)
        requires
            old(self).wf(),
        ensures
            final(self).wf(),
            input == old(self)@.next_input(),
            final(self)@ == old(self)@.consume(),
            old(self)@.last_consumed <= final(self)@.last_consumed <= old(self)@.last_consumed + 1,
    {
        if self.data.len() == 1 {
            return SimInput { previous: self.data[0], current: self.data[0] };
        }
        let result = SimInput { previous: self.data[0], current: self.data[1] };
        self.data.pop_front();
        self.last_consumed = self.last_consumed + 1;
        result
    }

    /// The number of commands held, the sentinel included.
    pub fn len(&self) -> (count: usize)
        ensures
            count == self@.commands.len(),
    {
        self.data.len()
    }

    /// The frame of the newest command held.
    pub fn most_recent(&self) -> (frame: FrameId)
        ensures
            frame == self@.most_recent,
    {
        self.most_recent
    }

    /// The frame before that of the oldest command held.
    pub fn last_consumed(&self) -> (frame: FrameId)
        ensures
            frame == self@.last_consumed,
    {
        self.last_consumed
    }
}

/// A batch leaves the buffer well formed: not empty, and as long as the
/// frames from `last_consumed + 1` to `most_recent`. It moves neither
/// `last_consumed` nor `most_recent` back.
pub proof fn lemma_add_commands_wf(buffer: BufferView, batch: Seq<SimCommand>, most_recent: int)
    requires
        buffer.wf(),
    ensures
        buffer.add_commands(batch, most_recent).wf(),
        buffer.add_commands(batch, most_recent).last_consumed == buffer.last_consumed,
        buffer.add_commands(batch, most_recent).most_recent >= buffer.most_recent,
        buffer.add_commands(batch, most_recent).most_recent >= most_recent,
{
}

/// A batch says what the buffer then holds for each frame that the batch
/// covers and the buffer has not handed out.
pub proof fn lemma_add_commands_takes_batch(
    buffer: BufferView,
    batch: Seq<SimCommand>,
    most_recent: int,
    frame: int,
)
    requires
        buffer.wf(),
        buffer.last_consumed < frame,
        most_recent - batch.len() < frame <= most_recent,
    ensures
        buffer.add_commands(batch, most_recent).command_at(frame) == batch[frame - (most_recent
            - batch.len() + 1)],
{
}

/// The same batch a second time changes nothing.
pub proof fn lemma_add_commands_idempotent(
    buffer: BufferView,
    batch: Seq<SimCommand>,
    most_recent: int,
)
    requires
        buffer.wf(),
    ensures
        buffer.add_commands(batch, most_recent).add_commands(batch, most_recent)
            == buffer.add_commands(batch, most_recent),
{
    let once = buffer.add_commands(batch, most_recent);
    let twice = once.add_commands(batch, most_recent);
    assert(twice.commands =~= once.commands);
}

/// A consume leaves the buffer well formed, and moves `last_consumed` on by
/// one frame or not at all.
pub proof fn lemma_consume_wf(buffer: BufferView)
    requires
        buffer.wf(),
    ensures
        buffer.consume().wf(),
        buffer.consume().most_recent == buffer.most_recent,
        buffer.last_consumed <= buffer.consume().last_consumed <= buffer.last_consumed + 1,
{
}

/// Over any run of consumes `last_consumed` never moves back, moves on by
/// at most one frame per consume, and stops before `most_recent`.
pub proof fn lemma_consume_n_advance(buffer: BufferView, earlier: nat, later: nat)
    requires
        buffer.wf(),
        earlier <= later,
    ensures
        buffer.consume_n(later).wf(),
        buffer.consume_n(later).most_recent == buffer.most_recent,
        buffer.consume_n(earlier).last_consumed <= buffer.consume_n(later).last_consumed,
        buffer.consume_n(later).last_consumed <= buffer.consume_n(earlier).last_consumed + (later
            - earlier),
    decreases later,
{
    if later > 0 {
        if earlier < later {
            lemma_consume_n_advance(buffer, earlier, (later - 1) as nat);
        } else {
            lemma_consume_n_advance(buffer, (earlier - 1) as nat, (later - 1) as nat);
        }
    }
}

/// Commands leave the buffer in frame order: after `count` consumes, while
/// commands are left, the next input pairs the command of frame
/// `last_consumed + 1 + count` with that of the frame after it.
pub proof fn lemma_consume_in_frame_order(buffer: BufferView, count: nat)
    requires
        buffer.wf(),
        count + 1 < buffer.commands.len(),
    ensures
        buffer.consume_n(count).last_consumed == buffer.last_consumed + count,
        buffer.consume_n(count).commands == buffer.commands.skip(count as int),
        buffer.consume_n(count).next_input() == (SimInput {
            previous: buffer.command_at(buffer.last_consumed + 1 + count),
            current: buffer.command_at(buffer.last_consumed + 2 + count),
        }),
    decreases count,
{
    if count > 0 {
        lemma_consume_in_frame_order(buffer, (count - 1) as nat);
        let before = buffer.consume_n((count - 1) as nat);
        assert(before.commands.skip(1) =~= buffer.commands.skip(count as int));
    } else {
        assert(buffer.commands.skip(0) =~= buffer.commands);
    }
}

/// Once every command was handed out, each further consume repeats the
/// last one and leaves the buffer as it is.
pub proof fn lemma_consume_when_drained(buffer: BufferView)
    requires
        buffer.wf(),
        buffer.commands.len() == 1,
    ensures
        buffer.consume() == buffer,
        buffer.next_input() == (SimInput {
            previous: buffer.commands.last(),
            current: buffer.commands.last(),
        }),
{
}

} // verus!
