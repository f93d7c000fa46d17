//! The in-memory filesystem's own tree.

use vstd::prelude::*;
use crate::clock::is_random_id;
use crate::directory::Directory;

verus! {

/// The tree that the in-memory filesystem keeps for itself: a directory
/// called `root`.
#[derive(Debug, Clone)]
pub struct MemorySystemInternal(pub Directory);

impl MemorySystemInternal {
    /// An empty tree whose root directory is called `root`.
    pub fn new() -> (system: Self)
        ensures
            system.0.name@ == "root"@,
            system.0.content@.len() == 0,
            is_random_id(system.0.id),
    {
        MemorySystemInternal(Directory::new("root"))
    }

    /// The root directory.
    pub fn as_ref(&self) -> (root: &Directory)
        ensures
            *root == self.0,
    {
        &self.0
    }
}

impl MemorySystemInternal {
    /// The root directory, to be changed in place.
    pub fn as_mut(&mut self) -> (root: &mut Directory)
        ensures
            *root == old(self).0,
            final(self).0 == *final(root),
    {
        &mut self.0
    }
}

impl Default for MemorySystemInternal {
    fn default() -> (system: Self)
        ensures
            system.0.name@ == "root"@,
            system.0.content@.len() == 0,
            is_random_id(system.0.id),
    {
        MemorySystemInternal::new()
    }
}

} // verus!
