//! Small helpers shared by the other modules.

use vstd::prelude::*;

verus! {

/// Insertion that never fails on the index: past the end it appends.
pub trait InsertOrPush<T> {
    /// The elements held, in order.
    spec fn items(&self) -> Seq<T>;

    /// Inserts `item` before position `index`, or at the end when `index` is
    /// not a position of the collection.
    fn insert_or_push(&mut self, index: usize, item: T)
        ensures
            final(self).items() == old(self).items().insert(
                if index < old(self).items().len() {
                    index as int
                } else {
                    old(self).items().len() as int
                },
                item,
            ),
    ;
}

impl<T> InsertOrPush<T> for Vec<T> {
    open spec fn items(&self) -> Seq<T> {
        self@
    }

    fn insert_or_push(&mut self, index: usize, item: T) {
        if index >= self.len() {
            self.push(item);
            assert(self@ =~= old(self)@.insert(old(self)@.len() as int, item));
        } else {
            self.insert(index, item);
        }
    }
}

} // verus!
