//! Dense tables: vectors addressed by index and shrunk by swap-remove.

use vstd::prelude::*;

verus! {

/// A dense table after a swap-remove at `index`: the last entry moves into
/// the vacated place and the table shrinks by one.
pub open spec fn swap_removed<T>(table: Seq<T>, index: int) -> Seq<T> {
    table.update(index, table.last()).drop_last()
}

/// Where `item` stands first in `table`.
pub open spec fn first_place<T>(table: Seq<T>, item: T) -> Option<int>
    decreases table.len(),
{
    if table.len() == 0 {
        None
    } else if table.first() == item {
        Some(0)
    } else {
        match first_place(table.drop_first(), item) {
            Some(place) => Some(place + 1),
            None => None,
        }
    }
}

/// `first_place` finds the least index that holds `item`, and nothing
/// exactly when `item` does not occur.
pub proof fn lemma_first_place<T>(table: Seq<T>, item: T)
    ensures
        match first_place(table, item) {
            Some(place) => {
                &&& 0 <= place < table.len()
                &&& table[place] == item
                &&& forall|j: int| 0 <= j < place ==> table[j] != item
            },
            None => !table.contains(item),
        },
    decreases table.len(),
{
    if table.len() > 0 && table.first() != item {
        let rest = table.drop_first();
        lemma_first_place(rest, item);
        match first_place(rest, item) {
            Some(place) => {
                assert forall|j: int| 0 <= j < place + 1 implies table[j] != item by {
                    if j > 0 {
                        assert(rest[j - 1] == table[j]);
                    }
                }
            },
            None => {
                assert forall|j: int| 0 <= j < table.len() implies table[j] != item by {
                    if j > 0 {
                        assert(rest[j - 1] == table[j]);
                        assert(rest.contains(table[j]));
                    }
                }
            },
        }
    }
}

/// An index that holds `item` with no earlier one that does is its first
/// place.
pub proof fn lemma_first_place_is<T>(table: Seq<T>, item: T, index: int)
    requires
        0 <= index < table.len(),
        table[index] == item,
        forall|j: int| 0 <= j < index ==> table[j] != item,
    ensures
        first_place(table, item) == Some(index),
{
    lemma_first_place(table, item);
    assert(table.contains(item));
    let place = first_place(table, item).unwrap();
    if place < index {
        assert(table[place] != item);
    }
}

} // verus!
