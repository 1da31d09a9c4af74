//! The error that the sequence algorithms return.
use vstd::prelude::*;

verus! {

/// The input sequence is too short for the requested operation.
#[derive(Debug, Clone, Copy, PartialEq, Eq, Structural)]
pub enum InputError {
    InvalidInput,
}

} // verus!
