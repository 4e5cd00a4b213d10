//! The one way in which an operation of the store fails.

use vstd::prelude::*;

verus! {

/// The failure of a counter operation.
#[derive(Debug, Clone, Copy, PartialEq, Eq, Structural)]
pub enum EiffelError {
    /// The key holds a value that is not a 64-bit signed integer.
    WrongType,
}

} // verus!
