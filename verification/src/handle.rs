//! Widget handles: arena slot indices paired with a generation counter, so a
//! slot freed and handed out again never aliases cache entries made for its
//! previous occupant.

use core::marker::PhantomData;
use vstd::prelude::*;

verus! {

/// A reference to a widget slot: the arena index and the generation at which
/// the slot was handed out. Cache lookups and invalidation compare both
/// fields, so a command list cached for one widget is never served for a
/// different widget that reused the same slot.
#[derive(Copy, Clone, Debug, PartialEq, Eq, Structural, Hash)]
pub struct UntypedHandle {
    pub index: usize,
    pub generation: u64,
}

/// A handle that remembers which widget type it was issued for.
#[derive(Debug, Hash)]
pub struct TypedHandle<T> {
    pub index: usize,
    pub generation: u64,
    pub marker: PhantomData<T>,
}

impl<T> TypedHandle<T> {
    /// A typed handle for the given slot and generation.
    pub fn new(index: usize, generation: u64) -> (h: TypedHandle<T>)
        ensures
            h.index == index,
            h.generation == generation,
    {
        TypedHandle { index, generation, marker: PhantomData }
    }
}

impl<T> Clone for TypedHandle<T> {
    /// Handles stay copyable whether or not the widget type is.
    fn clone(&self) -> (h: Self)
        ensures
            h.index == self.index,
            h.generation == self.generation,
    {
        TypedHandle { index: self.index, generation: self.generation, marker: PhantomData }
    }
}

/// Anything that identifies a widget slot.
pub trait AsUntypedHandle {
    /// The plain handle this value refers to.
    fn handle(&self) -> UntypedHandle;
}

impl AsUntypedHandle for UntypedHandle {
    fn handle(&self) -> (h: UntypedHandle) {
        UntypedHandle { index: self.index, generation: self.generation }
    }
}

impl<T> AsUntypedHandle for TypedHandle<T> {
    fn handle(&self) -> (h: UntypedHandle) {
        UntypedHandle { index: self.index, generation: self.generation }
    }
}

/// The erased form of a typed handle, with the same slot and generation.
pub fn erase_handle<T>(h: &TypedHandle<T>) -> (r: UntypedHandle)
    ensures
        r.index == h.index,
        r.generation == h.generation,
{
    UntypedHandle { index: h.index, generation: h.generation }
}

/// A place in the widget tree: either a widget slot or the tree's root.
#[derive(Copy, Clone, Debug, PartialEq, Eq, Structural)]
pub enum NodeType {
    Handle(UntypedHandle),
    Root,
}

} // verus!
