//! Actor identities: sparse ids over a dense table with swap-remove.

use super::dense::{first_place, lemma_first_place, lemma_first_place_is, swap_removed};
use vstd::prelude::*;

verus! {

/// Dense 0-based position of an actor in the parallel tables. A removal
/// invalidates the index of the actor that stood last.
pub type ActorIndex = usize;

/// Identity of an actor: a 16-bit signed integer other than zero.
#[derive(Debug, Clone, Copy, PartialEq, Eq, Structural)]
pub struct ActorId {
    value: i16,
}

impl View for ActorId {
    type V = i16;

    closed spec fn view(&self) -> i16 {
        self.value
    }
}

impl ActorId {
    #[verifier::type_invariant]
    spec fn nonzero(self) -> bool {
        self.value != 0
    }

    /// The id with the given value, unless the value is zero.
    pub fn new(value: i16) -> (id: Option<ActorId>)
        ensures
            value == 0 <==> id is None,
            id matches Some(made) ==> made@ == value,
    {
        if value == 0 {
            None
        } else {
            Some(ActorId { value })
        }
    }

    /// The id's value, which is never zero.
    pub fn get(self) -> (value: i16)
        ensures
            value == self@,
            value != 0,
    {
        proof {
            use_type_invariant(&self);
        }
        self.value
    }

    /// Two ids with the same value are the same id.
    pub proof fn lemma_same_value(self, other: ActorId)
        requires
            self@ == other@,
        ensures
            self == other,
    {
    }
}

/// What a registry holds: the values of the live ids in table order, the
/// value of the id issued last, and the number of actors it admits.
pub struct ActorIdsView {
    pub ids: Seq<i16>,
    pub generator: i16,
    pub capacity: int,
}

impl ActorIdsView {
    /// The invariant: no more ids than the capacity, and none of them zero.
    pub open spec fn wf(self) -> bool {
        &&& self.ids.len() <= self.capacity <= i16::MAX
        &&& forall|i: int| 0 <= i < self.ids.len() ==> self.ids[i] != 0
    }

    /// The id issued after `generator`: the next integer, wrapping from the
    /// greatest to the least and passing over zero.
    pub open spec fn next_id(generator: i16) -> i16 {
        if generator == i16::MAX {
            i16::MIN
        } else if generator == -1 {
            1
        } else {
            (generator + 1) as i16
        }
    }

    /// Whether an `add` is admitted.
    pub open spec fn has_room(self) -> bool {
        self.ids.len() < self.capacity
    }

    /// The registry after an `add`; unchanged where it has no room.
    pub open spec fn add(self) -> ActorIdsView {
        if self.has_room() {
            ActorIdsView {
                ids: self.ids.push(Self::next_id(self.generator)),
                generator: Self::next_id(self.generator),
                capacity: self.capacity,
            }
        } else {
            self
        }
    }

    /// The registry after a `remove`; unchanged where `id` is not live.
    pub open spec fn remove(self, id: i16) -> ActorIdsView {
        match first_place(self.ids, id) {
            Some(place) => ActorIdsView {
                ids: swap_removed(self.ids, place),
                generator: self.generator,
                capacity: self.capacity,
            },
            None => self,
        }
    }
}

/// Registry of the live actors.
pub struct ActorIds {
    ids: Vec<ActorId>,
    id_generator: i16,
    capacity: i16,
}

impl View for ActorIds {
    type V = ActorIdsView;

    closed spec fn view(&self) -> ActorIdsView {
        ActorIdsView {
            ids: Seq::new(self.ids@.len(), |i: int| self.ids@[i]@),
            generator: self.id_generator,
            capacity: self.capacity as int,
        }
    }
}

impl ActorIds {
    /// The registry's invariant.
    pub open spec fn wf(&self) -> bool {
        self@.wf()
    }

    /// An empty registry that admits `capacity` actors.
    pub fn new(capacity: i16) -> (registry: ActorIds)
        requires
            capacity >= 0,
        ensures
            registry.wf(),
            registry@ == (ActorIdsView { ids: Seq::empty(), generator: 0, capacity: capacity as int }),
    {
        let registry = ActorIds {
            ids: Vec::<ActorId>::with_capacity(capacity as usize),
            id_generator: 0,
            capacity,
        };
        proof {
            assert(registry@.ids =~= Seq::<i16>::empty());
        }
        registry
    }

    /// The index of `id`, if it is live.
    pub fn find_index(&self, id: ActorId) -> (found: Option<ActorIndex>)
        ensures
            found is Some <==> self@.ids.contains(id@),
            match found {
                Some(index) => index < self@.ids.len() && first_place(self@.ids, id@) == Some(
                    index as int,
                ),
                None => first_place(self@.ids, id@) is None,
            },
    {
        let mut index: usize = 0;
        while index < self.ids.len()
            invariant
                index <= self.ids@.len(),
                forall|j: int| 0 <= j < index ==> self@.ids[j] != id@,
            decreases self.ids@.len() - index,
        {
            if self.ids[index] == id {
                proof {
                    assert(self@.ids[index as int] == id@);
                    lemma_first_place_is(self@.ids, id@, index as int);
                }
                return Some(index);
            }
            index = index + 1;
        }
        proof {
            lemma_first_place(self@.ids, id@);
            assert forall|j: int| 0 <= j < self@.ids.len() implies self@.ids[j] != id@ by {}
        }
        None
    }

    /// Issues the next id and appends it to the table.
    ///
    /// Refused, with the registry untouched, when it is full.
    pub fn add(&mut self) -> (issued: Option<(ActorId, ActorIndex)>)
        requires
            old(self).wf(),
        ensures
            final(self).wf(),
            final(self)@ == old(self)@.add(),
            issued is Some <==> old(self)@.has_room(),
            issued matches Some((id, index)) ==> {
                &&& id@ == ActorIdsView::next_id(old(self)@.generator)
                &&& index == old(self)@.ids.len()
            },
    {
        if self.ids.len() == self.capacity as usize {
            return None;
        }
        let value: i16 = if self.id_generator == i16::MAX {
            i16::MIN
        } else if self.id_generator == -1 {
            1
        } else {
            self.id_generator + 1
        };
        let id = ActorId { value };
        self.id_generator = value;
        self.ids.push(id);
        let index = self.ids.len() - 1;
        proof {
            assert(self@.ids =~= old(self)@.ids.push(value));
        }
        Some((id, index))
    }

    /// Removes `id` by swap-remove and returns the index it vacated, into
    /// which the actor that stood last has moved.
    ///
    /// Refused, with the registry untouched, when `id` is not live.
    pub fn remove(&mut self, id: ActorId) -> (vacated: Option<ActorIndex>)
        requires
            old(self).wf(),
        ensures
            final(self).wf(),
            final(self)@ == old(self)@.remove(id@),
            vacated is Some <==> old(self)@.ids.contains(id@),
            match vacated {
                Some(index) => index < old(self)@.ids.len() && first_place(old(self)@.ids, id@)
                    == Some(index as int),
                None => first_place(old(self)@.ids, id@) is None,
            },
    {
        match self.find_index(id) {
            Some(index) => {
                self.ids.swap_remove(index);
                proof {
                    assert(self@.ids =~= swap_removed(old(self)@.ids, index as int));
                }
                Some(index)
            },
            None => None,
        }
    }

    /// The number of live actors.
    pub fn count(&self) -> (count: i16)
        requires
            self.wf(),
        ensures
            count == self@.ids.len(),
    {
        self.ids.len() as i16
    }
}

/// One call on a registry.
pub enum RegistryOp {
    Add,
    Remove(i16),
}

impl ActorIdsView {
    /// Whether the call changes the registry: an `add` while there is room,
    /// a `remove` of a live id.
    pub open spec fn succeeds(self, op: RegistryOp) -> bool {
        match op {
            RegistryOp::Add => self.has_room(),
            RegistryOp::Remove(id) => self.ids.contains(id),
        }
    }

    /// The registry after the call.
    pub open spec fn apply(self, op: RegistryOp) -> ActorIdsView {
        match op {
            RegistryOp::Add => self.add(),
            RegistryOp::Remove(id) => self.remove(id),
        }
    }

    /// The registry after the calls, made in order.
    pub open spec fn apply_all(self, ops: Seq<RegistryOp>) -> ActorIdsView
        decreases ops.len(),
    {
        if ops.len() == 0 {
            self
        } else {
            self.apply_all(ops.drop_last()).apply(ops.last())
        }
    }

    /// How many of the calls were an `add` that succeeded.
    pub open spec fn adds(self, ops: Seq<RegistryOp>) -> nat
        decreases ops.len(),
    {
        if ops.len() == 0 {
            0
        } else {
            let before = self.apply_all(ops.drop_last());
            self.adds(ops.drop_last()) + if ops.last() is Add && before.succeeds(ops.last()) {
                1nat
            } else {
                0nat
            }
        }
    }

    /// How many of the calls were a `remove` that succeeded.
    pub open spec fn removes(self, ops: Seq<RegistryOp>) -> nat
        decreases ops.len(),
    {
        if ops.len() == 0 {
            0
        } else {
            let before = self.apply_all(ops.drop_last());
            self.removes(ops.drop_last()) + if ops.last() is Remove && before.succeeds(
                ops.last(),
            ) {
                1nat
            } else {
                0nat
            }
        }
    }
}

/// One call leaves the registry well formed and moves the count by one:
/// up for an `add` that succeeds, down for a `remove` that succeeds, and
/// not at all otherwise.
pub proof fn lemma_apply(registry: ActorIdsView, op: RegistryOp)
    requires
        registry.wf(),
    ensures
        registry.apply(op).wf(),
        registry.apply(op).capacity == registry.capacity,
        registry.apply(op).ids.len() == registry.ids.len() + if !registry.succeeds(op) {
            0int
        } else if op is Add {
            1int
        } else {
            -1int
        },
        !registry.succeeds(op) ==> registry.apply(op) == registry,
{
    match op {
        RegistryOp::Add => {},
        RegistryOp::Remove(id) => {
            lemma_first_place(registry.ids, id);
        },
    }
}

/// After any calls the count is the count at the start, plus the `add`s
/// that succeeded, minus the `remove`s that succeeded; it never passes the
/// capacity.
pub proof fn lemma_count_balance(registry: ActorIdsView, ops: Seq<RegistryOp>)
    requires
        registry.wf(),
    ensures
        registry.apply_all(ops).wf(),
        registry.apply_all(ops).capacity == registry.capacity,
        registry.apply_all(ops).ids.len() == registry.ids.len() + registry.adds(ops)
            - registry.removes(ops),
    decreases ops.len(),
{
    if ops.len() > 0 {
        lemma_count_balance(registry, ops.drop_last());
        lemma_apply(registry.apply_all(ops.drop_last()), ops.last());
    }
}

/// An `add` that succeeds makes the issued id live, at the end of the
/// table, and leaves every id that was live where it was.
pub proof fn lemma_add_issues(registry: ActorIdsView)
    requires
        registry.wf(),
        registry.has_room(),
    ensures
        registry.add().ids.last() == ActorIdsView::next_id(registry.generator),
        registry.add().ids.contains(ActorIdsView::next_id(registry.generator)),
        forall|i: int| 0 <= i < registry.ids.len() ==> registry.add().ids[i] == registry.ids[i],
{
    let issued = ActorIdsView::next_id(registry.generator);
    assert(registry.add().ids[registry.ids.len() as int] == issued);
}

/// A `remove` touches no other id: whatever differs from the removed id is
/// live afterwards exactly if it was live before.
pub proof fn lemma_remove_keeps_others(registry: ActorIdsView, id: i16, other: i16)
    requires
        other != id,
    ensures
        registry.remove(id).ids.contains(other) <==> registry.ids.contains(other),
{
    lemma_first_place(registry.ids, id);
    match first_place(registry.ids, id) {
        Some(place) => {
            let before = registry.ids;
            let after = swap_removed(before, place);
            if before.contains(other) {
                let at = choose|i: int| 0 <= i < before.len() && before[i] == other;
                if at == before.len() - 1 {
                    assert(after[place] == other);
                } else {
                    assert(after[at] == other);
                }
            }
            if after.contains(other) {
                let at = choose|i: int| 0 <= i < after.len() && after[i] == other;
                if at == place {
                    assert(before[before.len() - 1] == other);
                } else {
                    assert(before[at] == other);
                }
            }
        },
        None => {},
    }
}

/// While no id stands twice in the table, a `remove` ends the life of the
/// removed id, and still no id stands twice.
pub proof fn lemma_remove_ends_life(registry: ActorIdsView, id: i16)
    requires
        registry.ids.no_duplicates(),
    ensures
        !registry.remove(id).ids.contains(id),
        registry.remove(id).ids.no_duplicates(),
{
    lemma_first_place(registry.ids, id);
    match first_place(registry.ids, id) {
        Some(place) => {
            let before = registry.ids;
            let after = swap_removed(before, place);
            let last = before.len() - 1;
            assert forall|j: int| 0 <= j < after.len() implies after[j] != id by {
                if j == place {
                    assert(after[j] == before[last]);
                } else {
                    assert(after[j] == before[j]);
                }
            }
            assert forall|i: int, j: int|
                0 <= i < after.len() && 0 <= j < after.len() && i != j implies after[i]
                != after[j] by {
                let from_i = if i == place {
                    last
                } else {
                    i
                };
                let from_j = if j == place {
                    last
                } else {
                    j
                };
                assert(after[i] == before[from_i]);
                assert(after[j] == before[from_j]);
            }
        },
        None => {},
    }
}

/// While no id stands twice in the table, an `add` that issues an id which
/// is not live leaves it so.
pub proof fn lemma_add_keeps_distinct(registry: ActorIdsView)
    requires
        registry.ids.no_duplicates(),
        !registry.ids.contains(ActorIdsView::next_id(registry.generator)),
    ensures
        registry.add().ids.no_duplicates(),
{
    if registry.has_room() {
        let issued = ActorIdsView::next_id(registry.generator);
        let before = registry.ids;
        let after = registry.add().ids;
        assert forall|i: int, j: int|
            0 <= i < after.len() && 0 <= j < after.len() && i != j implies after[i] != after[j] by {
            if i < before.len() && j < before.len() {
                assert(after[i] == before[i] && after[j] == before[j]);
            } else if i < before.len() {
                assert(before.contains(before[i]));
            } else {
                assert(before.contains(before[j]));
            }
        }
    }
}

} // verus!
