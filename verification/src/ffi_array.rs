//! A list handed across the C boundary, read one item at a time.

use vstd::prelude::*;

verus! {

/// A list of values that foreign callers read by index.
pub struct FFIArray<T> {
    value: Vec<T>,
}

impl<T> View for FFIArray<T> {
    type V = Seq<T>;

    closed spec fn view(&self) -> Seq<T> {
        self.value@
    }
}

impl<T> FFIArray<T> {
    /// A list of the given values, in their order.
    pub fn new(value: Vec<T>) -> (array: FFIArray<T>)
        ensures
            array@ == value@,
    {
        FFIArray { value }
    }

    /// The item at `index`, if the list is that long.
    pub fn get(&self, index: usize) -> (item: Option<&T>)
        ensures
            match item {
                Some(found) => index < self@.len() && *found == self@[index as int],
                None => index >= self@.len(),
            },
    {
        if index < self.value.len() {
            Some(&self.value[index])
        } else {
            None
        }
    }

    /// The number of items.
    pub fn length(&self) -> (length: usize)
        ensures
            length == self@.len(),
    {
        self.value.len()
    }
}

} // verus!
