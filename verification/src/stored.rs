//! A stored string together with the count of its handles.

use crate::boxed::BoxedStr;
use crate::model::StoredView;
use vstd::prelude::*;

verus! {

/// A string of the store and the number of handles counted for it.
pub struct StoredString {
    inner: BoxedStr,
    // Signed, because a release may be absorbed before the retain it answers.
    strong_count: isize,
}

impl View for StoredString {
    type V = StoredView;

    closed spec fn view(&self) -> StoredView {
        StoredView { string: self.inner@, strong_count: self.strong_count as int }
    }
}

impl Clone for StoredString {
    /// A copy with a string of its own and the same count.
    fn clone(&self) -> (copy: Self)
        ensures
            copy == *self,
    {
        StoredString { inner: self.inner.clone(), strong_count: self.strong_count }
    }
}

impl StoredString {
    /// Stores `string` for its first handle.
    pub fn new(string: BoxedStr) -> (stored: Self)
        ensures
            stored@ == (StoredView { string: string@, strong_count: 1 }),
    {
        StoredString { inner: string, strong_count: 1 }
    }

    /// Counts one more handle.
    pub fn retain(&mut self)
        requires
            old(self)@.strong_count < isize::MAX,
        ensures
            final(self)@ == (StoredView {
                strong_count: old(self)@.strong_count + 1,
                ..old(self)@
            }),
    {
        self.strong_count = self.strong_count + 1;
    }

    /// Counts one handle less.
    pub fn release(&mut self)
        requires
            old(self)@.strong_count > isize::MIN,
        ensures
            final(self)@ == (StoredView {
                strong_count: old(self)@.strong_count - 1,
                ..old(self)@
            }),
    {
        self.strong_count = self.strong_count - 1;
    }

    /// Whether no handle is counted, so that the string can go.
    pub fn is_droppable(&self) -> (droppable: bool)
        ensures
            droppable == (self@.strong_count == 0),
    {
        self.strong_count == 0
    }

    /// The number of handles counted.
    pub fn strong_count(&self) -> (count: isize)
        ensures
            count == self@.strong_count,
    {
        self.strong_count
    }

    /// The stored string.
    pub fn inner(&self) -> (string: &BoxedStr)
        ensures
            string@ == self@.string,
    {
        &self.inner
    }
}

} // verus!
