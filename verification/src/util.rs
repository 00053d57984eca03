//! Sharing a value between threads by handing out copies of it.

use vstd::prelude::*;

verus! {

/// A value that is only ever read by copying it.
#[derive(Debug)]
pub struct CloneCell<T>(T);

impl<T> View for CloneCell<T> {
    type V = T;

    /// The value inside.
    closed spec fn view(&self) -> T {
        self.0
    }
}

impl<T: Clone> CloneCell<T> {
    /// A cell around `val`.
    pub fn new(val: T) -> (cell: CloneCell<T>)
        ensures
            cell@ == val,
    {
        CloneCell(val)
    }

    /// A copy of the value.
    pub fn clone_inner(&self) -> (copy: T)
        ensures
            cloned(self@, copy),
    {
        self.0.clone()
    }
}

/// Types whose values can be copied from a reference that several threads
/// share.
pub trait SyncClone: Clone {
}

impl<T: Clone + Sync> SyncClone for T {
}

} // verus!
