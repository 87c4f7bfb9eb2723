//! The world: the frame counter, the actor table and the object table.

use super::actor_ids::ActorIndex;
use super::dense::{first_place, lemma_first_place, lemma_first_place_is, swap_removed};
use crate::shared::types::{FrameId, SimInput};
use crate::shared::world::ObjectId;
use vstd::prelude::*;

verus! {

/// What the world keeps of one actor.
struct ActorInfo {
    name: &'static str,
}

/// What a world holds: the frame it stands at, the names of its actors in
/// table order, its objects in table order, the object id issued last and
/// the number of objects it admits.
pub struct WorldView {
    pub head: int,
    pub actors: Seq<Seq<char>>,
    pub objects: Seq<ObjectId>,
    pub generator: ObjectId,
    pub object_capacity: int,
}

impl WorldView {
    /// The invariant: no more objects than the capacity, and every object's
    /// id is positive and at most the one issued last.
    pub open spec fn wf(self) -> bool {
        &&& self.objects.len() <= self.object_capacity
        &&& forall|i: int|
            0 <= i < self.objects.len() ==> 0 < #[trigger] self.objects[i] <= self.generator
    }

    /// Whether `add_object` is admitted: there is room in the table, and an
    /// id is left to issue.
    pub open spec fn can_add_object(self) -> bool {
        self.objects.len() < self.object_capacity && self.generator < ObjectId::MAX
    }
}

/// The simulated world.
pub struct World {
    head: FrameId,
    actor_info: Vec<ActorInfo>,
    objects: Vec<ObjectId>,
    id_generator: ObjectId,
    object_capacity: usize,
}

impl View for World {
    type V = WorldView;

    closed spec fn view(&self) -> WorldView {
        WorldView {
            head: self.head as int,
            actors: Seq::new(self.actor_info@.len(), |i: int| self.actor_info@[i].name@),
            objects: self.objects@,
            generator: self.id_generator,
            object_capacity: self.object_capacity as int,
        }
    }
}

impl World {
    /// The world's invariant.
    pub open spec fn wf(&self) -> bool {
        self@.wf()
    }

    /// An empty world that stands at `start_frame`.
    pub fn new(start_frame: FrameId, actor_capacity: i16, object_capacity: i16) -> (world: World)
        requires
            actor_capacity >= 0,
            object_capacity >= 0,
        ensures
            world.wf(),
            world@ == (WorldView {
                head: start_frame as int,
                actors: Seq::empty(),
                objects: Seq::empty(),
                generator: 0,
                object_capacity: object_capacity as int,
            }),
    {
        let world = World {
            head: start_frame,
            actor_info: Vec::<ActorInfo>::with_capacity(actor_capacity as usize),
            objects: Vec::<ObjectId>::with_capacity(object_capacity as usize),
            id_generator: 0,
            object_capacity: object_capacity as usize,
        };
        proof {
            assert(world@.actors =~= Seq::<Seq<char>>::empty());
        }
        world
    }

    /// Ends the world.
    pub fn stop(self) {
    }

    /// Advances the world by one frame and returns the new frame.
    ///
    /// The inputs are those of the actors in table order; what they do to
    /// the world is left to the embedding game.
    pub fn step(&mut self, _input: Vec<SimInput>) -> (frame: FrameId)
        requires
            old(self)@.head < FrameId::MAX,
        ensures
            frame == old(self)@.head + 1,
            frame > old(self)@.head,
            final(self)@ == (WorldView { head: frame as int, ..old(self)@ }),
    {
        self.head = self.head + 1;
        proof {
            assert(self@.actors =~= old(self)@.actors);
        }
        self.head
    }

    /// The frame the world stands at.
    pub fn head(&self) -> (frame: FrameId)
        ensures
            frame == self@.head,
    {
        self.head
    }

    /// The number of actors.
    pub fn actor_count(&self) -> (count: usize)
        ensures
            count == self@.actors.len(),
    {
        self.actor_info.len()
    }

    /// Appends an actor to the table and returns its index.
    pub fn add_actor(&mut self, name: &'static str) -> (index: ActorIndex)
        ensures
            index == old(self)@.actors.len(),
            final(self)@ == (WorldView { actors: old(self)@.actors.push(name@), ..old(self)@ }),
    {
        self.actor_info.push(ActorInfo { name });
        proof {
            assert(self@.actors =~= old(self)@.actors.push(name@));
        }
        self.actor_info.len() - 1
    }

    /// Removes the actor at `index` by swap-remove.
    pub fn remove_actor(&mut self, index: ActorIndex)
        requires
            index < old(self)@.actors.len(),
        ensures
            final(self)@ == (WorldView {
                actors: swap_removed(old(self)@.actors, index as int),
                ..old(self)@
            }),
    {
        self.actor_info.swap_remove(index);
        proof {
            assert(self@.actors =~= swap_removed(old(self)@.actors, index as int));
        }
    }

    /// Creates an object under the next id.
    ///
    /// Refused, with the world untouched, when the object table is full or
    /// no id is left.
    pub fn add_object(&mut self) -> (created: Option<ObjectId>)
        requires
            old(self).wf(),
        ensures
            final(self).wf(),
            created is Some <==> old(self)@.can_add_object(),
            match created {
                Some(id) => {
                    &&& id == old(self)@.generator + 1
                    &&& !old(self)@.objects.contains(id)
                    &&& final(self)@ == (WorldView {
                        objects: old(self)@.objects.push(id),
                        generator: id,
                        ..old(self)@
                    })
                },
                None => final(self)@ == old(self)@,
            },
    {
        if self.objects.len() == self.object_capacity || self.id_generator == ObjectId::MAX {
            return None;
        }
        self.id_generator = self.id_generator + 1;
        let new_id = self.id_generator;
        self.objects.push(new_id);
        proof {
            assert(self@.actors =~= old(self)@.actors);
            if old(self)@.objects.contains(new_id) {
                let at = choose|i: int|
                    0 <= i < old(self)@.objects.len() && old(self)@.objects[i] == new_id;
                assert(old(self)@.objects[at] <= old(self)@.generator);
            }
        }
        Some(new_id)
    }

    /// Removes the object `id` by swap-remove; tells whether it was there.
    pub fn remove_object(&mut self, id: ObjectId) -> (removed: bool)
        requires
            old(self).wf(),
        ensures
            final(self).wf(),
            removed <==> old(self)@.objects.contains(id),
            final(self)@ == (WorldView {
                objects: match first_place(old(self)@.objects, id) {
                    Some(place) => swap_removed(old(self)@.objects, place),
                    None => old(self)@.objects,
                },
                ..old(self)@
            }),
    {
        let mut index: usize = 0;
        while index < self.objects.len()
            invariant
                self.wf(),
                *self == *old(self),
                index <= self.objects@.len(),
                forall|j: int| 0 <= j < index ==> self.objects@[j] != id,
            decreases self.objects@.len() - index,
        {
            if self.objects[index] == id {
                proof {
                    lemma_first_place_is(self.objects@, id, index as int);
                }
                self.objects.swap_remove(index);
                proof {
                    assert(self@.actors =~= old(self)@.actors);
                }
                return true;
            }
            index = index + 1;
        }
        proof {
            lemma_first_place(self.objects@, id);
            assert forall|j: int| 0 <= j < self.objects@.len() implies self.objects@[j] != id by {}
        }
        false
    }
}

} // verus!
