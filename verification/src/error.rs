//! The failures the in-memory filesystem reports.

use vstd::prelude::*;

verus! {

/// Why an operation on a directory failed.
#[derive(Clone, Copy, Debug, PartialEq, Eq, Structural)]
pub enum Error {
    /// The name is missing, or taken, where exactly one item was expected.
    Other,
    /// Nothing is stored under the name or path.
    NotFound,
}

} // verus!
