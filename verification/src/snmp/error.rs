//! Errors and warnings attached to walked columns.

use vstd::prelude::*;

verus! {

/// Why a walk delivered no data.
#[derive(Clone, Copy, PartialEq, Eq, Structural)]
pub enum WalkError {
    OIDsNotIncreasing,
    NoSuchObject,
    Timeout,
}

/// Something odd noticed about a walk that did deliver data.
#[derive(Clone, Copy, PartialEq, Eq, Structural)]
pub enum WalkWarning {
    OIDsNotIncreasing,
    Timeout,
}

} // verus!
