//! A slot arena: values live in a vector of options, and the indices of
//! freed slots are kept for reuse by later insertions.

use vstd::prelude::*;

verus! {

/// A generational-free-list arena. Slot `i` holds `Some` value while
/// occupied; removing a value frees its slot for a later insertion.
#[derive(Debug)]
pub struct Arena<T> {
    pub vec: Vec<Option<T>>,
    pub free_spaces: Vec<usize>,
}

impl<T> Arena<T> {
    /// Every remembered free slot lies inside the vector.
    pub open spec fn wf(self) -> bool {
        forall|k: int| 0 <= k < self.free_spaces@.len()
            ==> ((#[trigger] self.free_spaces@[k]) as int) < self.vec@.len()
    }

    /// An empty arena.
    pub fn new() -> (r: Arena<T>)
        ensures
            r.vec@.len() == 0,
            r.free_spaces@.len() == 0,
            r.wf(),
    {
        Arena { vec: Vec::new(), free_spaces: Vec::new() }
    }

    /// Drops whatever slot `index` held and stores `val` there.
    pub fn overwrite(&mut self, index: usize, val: T)
        requires
            index < old(self).vec@.len(),
        ensures
            final(self).vec@ == old(self).vec@.update(index as int, Some(val)),
            final(self).free_spaces@ == old(self).free_spaces@,
    {
        self.vec[index] = Some(val);
    }

    /// Stores `val` in the most recently freed slot, or in a new slot at the
    /// end when none is free, and returns the slot's index.
    pub fn insert(&mut self, val: T) -> (idx: usize)
        requires
            old(self).wf(),
            old(self).vec@.len() < usize::MAX,
        ensures
            final(self).wf(),
            (idx as int) < final(self).vec@.len(),
            final(self).vec@[idx as int] == Some(val),
            old(self).free_spaces@.len() > 0 ==> {
                &&& idx == old(self).free_spaces@.last()
                &&& final(self).free_spaces@ == old(self).free_spaces@.drop_last()
                &&& final(self).vec@ == old(self).vec@.update(idx as int, Some(val))
            },
            old(self).free_spaces@.len() == 0 ==> {
                &&& idx as int == old(self).vec@.len()
                &&& final(self).free_spaces@ == old(self).free_spaces@
                &&& final(self).vec@ == old(self).vec@.push(Some(val))
            },
    {
        match self.free_spaces.pop() {
            Some(idx) => {
                self.vec[idx] = Some(val);
                idx
            }
            None => {
                self.vec.push(Some(val));
                self.vec.len() - 1
            }
        }
    }

    /// Empties slot `idx`, remembers it as free, and returns what it held.
    pub fn remove(&mut self, idx: usize) -> (r: Option<T>)
        requires
            idx < old(self).vec@.len(),
            old(self).free_spaces@.len() < usize::MAX,
        ensures
            r == old(self).vec@[idx as int],
            final(self).vec@ == old(self).vec@.update(idx as int, None::<T>),
            final(self).free_spaces@ == old(self).free_spaces@.push(idx),
            old(self).wf() ==> final(self).wf(),
    {
        self.free_spaces.push(idx);
        let r = self.vec[idx].take();
        r
    }

    /// The value in slot `idx`, if the index is in range and the slot is
    /// occupied.
    pub fn get(&self, idx: usize) -> (r: Option<&T>)
        ensures
            match r {
                Some(v) => (idx as int) < self.vec@.len() && self.vec@[idx as int] == Some(*v),
                None => (idx as int) >= self.vec@.len() || self.vec@[idx as int] is None,
            },
    {
        if idx < self.vec.len() {
            self.vec[idx].as_ref()
        } else {
            None
        }
    }

    /// Takes the value out of slot `idx`, leaving the slot empty but not
    /// freeing it: the caller is expected to put a value back with
    /// [`Arena::put_back`] once done, as the widget tree does while a widget
    /// is handed out for an event.
    pub fn take_out(&mut self, idx: usize) -> (r: Option<T>)
        requires
            idx < old(self).vec@.len(),
        ensures
            r == old(self).vec@[idx as int],
            final(self).vec@ == old(self).vec@.update(idx as int, None::<T>),
            final(self).free_spaces@ == old(self).free_spaces@,
    {
        self.vec[idx].take()
    }

    /// Restores a value taken out with [`Arena::take_out`].
    pub fn put_back(&mut self, idx: usize, val: T)
        requires
            idx < old(self).vec@.len(),
        ensures
            final(self).vec@ == old(self).vec@.update(idx as int, Some(val)),
            final(self).free_spaces@ == old(self).free_spaces@,
    {
        self.vec[idx] = Some(val);
    }

    /// Number of slots, occupied or not.
    pub fn len(&self) -> (n: usize)
        ensures
            n == self.vec@.len(),
    {
        self.vec.len()
    }
}

} // verus!
