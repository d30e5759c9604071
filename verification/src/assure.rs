//! Checks over file metadata, stated on plain values.
//!
//! Each function decides a condition that a caller has read off the
//! filesystem (whether a path is a directory or a regular file, its
//! permission bits, its length).  A condition that holds yields
//! `Ok(true)`; one that does not yields `Err(AssureError::InvalidInput)`,
//! never `Ok(false)`, so that `?` aborts a caller on the first failed
//! check.

use vstd::prelude::*;

use crate::errors::AssureError;

verus! {

/// Accepts a condition that holds; rejects one that does not, so that
/// `?` aborts a caller on the first failed check.
pub fn assure_io(condition: bool) -> (r: Result<bool, AssureError>)
    ensures
        condition ==> r == Ok::<bool, AssureError>(true),
        !condition ==> r == Err::<bool, AssureError>(AssureError::InvalidInput),
{
    if condition {
        Ok(true)
    } else {
        Err(AssureError::InvalidInput)
    }
}

/// As [`assure_io`]; the message names the failed check for a caller's
/// report and plays no part in the verdict.
pub fn assure_io_msg(condition: bool, _message: &str) -> (r: Result<bool, AssureError>)
    ensures
        condition ==> r == Ok::<bool, AssureError>(true),
        !condition ==> r == Err::<bool, AssureError>(AssureError::InvalidInput),
{
    if condition {
        Ok(true)
    } else {
        Err(AssureError::InvalidInput)
    }
}

/// Accepts a path known to be a directory; rejects any other.  The
/// expected value stands for symmetry with the other checks and plays
/// no part in the verdict.
pub fn assure_path_is_dir(is_dir: bool, _value: bool) -> (r: Result<bool, AssureError>)
    ensures
        is_dir ==> r == Ok::<bool, AssureError>(true),
        !is_dir ==> r == Err::<bool, AssureError>(AssureError::InvalidInput),
{
    if is_dir {
        Ok(true)
    } else {
        Err(AssureError::InvalidInput)
    }
}

/// Accepts a path whose file-ness equals the expected value.
pub fn assure_path_is_file_eq(is_file: bool, value: bool) -> (r: Result<bool, AssureError>)
    ensures
        is_file == value ==> r == Ok::<bool, AssureError>(true),
        is_file != value ==> r == Err::<bool, AssureError>(AssureError::InvalidInput),
{
    if is_file == value {
        Ok(true)
    } else {
        Err(AssureError::InvalidInput)
    }
}

/// Accepts a path whose read-only permission equals the expected value.
pub fn assure_path_permissions_readonly_eq(readonly: bool, value: bool) -> (r: Result<
    bool,
    AssureError,
>)
    ensures
        readonly == value ==> r == Ok::<bool, AssureError>(true),
        readonly != value ==> r == Err::<bool, AssureError>(AssureError::InvalidInput),
{
    if readonly == value {
        Ok(true)
    } else {
        Err(AssureError::InvalidInput)
    }
}

/// Accepts a path whose permission mode bits equal the expected value.
pub fn assure_path_permissions_mode_eq(mode: u32, value: u32) -> (r: Result<bool, AssureError>)
    ensures
        mode == value ==> r == Ok::<bool, AssureError>(true),
        mode != value ==> r == Err::<bool, AssureError>(AssureError::InvalidInput),
{
    if mode == value {
        Ok(true)
    } else {
        Err(AssureError::InvalidInput)
    }
}

/// Compares the reported lengths of two paths, both of which must be
/// regular files; any other kind of path is rejected.
pub fn assure_paths_metadata_len_eq(
    a_is_file: bool,
    a_len: u64,
    b_is_file: bool,
    b_len: u64,
) -> (r: Result<bool, AssureError>)
    ensures
        a_is_file && b_is_file ==> r == Ok::<bool, AssureError>(a_len == b_len),
        !(a_is_file && b_is_file) ==> r == Err::<bool, AssureError>(AssureError::InvalidInput),
{
    if a_is_file && b_is_file {
        Ok(a_len == b_len)
    } else {
        Err(AssureError::InvalidInput)
    }
}

} // verus!
