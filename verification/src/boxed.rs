//! An owned, immutable string whose allocation can be shared between the
//! replicas of a store.

use std::sync::Arc;
use vstd::prelude::*;

verus! {

/// An immutable string on the heap. Aliases made with
/// [`BoxedStr::clone_with_aliasing`] share one allocation, which is released
/// when the last of them goes.
pub struct BoxedStr {
    contents: Arc<String>,
}

impl View for BoxedStr {
    type V = Seq<char>;

    closed spec fn view(&self) -> Seq<char> {
        self.contents@
    }
}

/// `Arc::clone`: the new pointer refers to the value that the given one
/// refers to.
#[verifier::external_body]
fn arc_clone(pointer: &Arc<String>) -> (alias: Arc<String>)
    ensures
        alias == *pointer,
{
    Arc::clone(pointer)
}

impl Clone for BoxedStr {
    /// A copy in an allocation of its own.
    fn clone(&self) -> (copy: Self)
        ensures
            copy == *self,
    {
        let string: &String = &self.contents;
        BoxedStr { contents: Arc::new(string.clone()) }
    }
}

impl BoxedStr {
    /// Takes ownership of `value`, whose buffer is kept as it is.
    pub fn from(value: String) -> (boxed: Self)
        ensures
            boxed@ == value@,
    {
        BoxedStr { contents: Arc::new(value) }
    }

    /// A second owner of the same allocation.
    pub fn clone_with_aliasing(&self) -> (alias: Self)
        ensures
            alias@ == self@,
    {
        BoxedStr { contents: arc_clone(&self.contents) }
    }

    /// The contents.
    pub fn get(&self) -> (contents: &str)
        ensures
            contents@ == self@,
    {
        self.contents.as_str()
    }
}

} // verus!
