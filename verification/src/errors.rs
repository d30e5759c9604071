//! Error taxonomy of the engine.
//!
//! An invalid scan root is fatal to a whole run; a single unreadable file
//! only skips that candidate; a failed resolution only skips that pair.

use vstd::prelude::*;

verus! {

/// A checked condition did not hold, or an input was not of the kind the
/// check expects.
#[derive(Clone, Copy, Debug, PartialEq, Eq, Structural)]
pub enum AssureError {
    InvalidInput,
}

/// A file's content could not be read, so a byte comparison involving it
/// cannot be decided.
#[derive(Clone, Copy, Debug, PartialEq, Eq, Structural)]
pub enum IoError {
    Unreadable,
}

/// The scan root itself cannot be used: it does not exist, is not a
/// directory, or cannot be read.  Fatal to the whole run.
#[derive(Clone, Copy, Debug, PartialEq, Eq, Structural)]
pub enum TraversalError {
    RootInvalid,
}

} // verus!
