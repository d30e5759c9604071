//! Decides whether two candidate files are the same underlying file,
//! and whether two files are byte-identical.
//!
//! Identity is judged by device and inode number; content by comparing
//! bytes with a short-circuit on the first difference.  A file whose
//! content could not be read makes the byte comparison undecidable and
//! yields an error rather than a verdict.

use vstd::prelude::*;

use crate::errors::{AssureError, IoError};
use crate::record::{record_alike, FileRecord};

verus! {

/// How many bytes of each file a streaming caller reads per step.
/// Chosen for I/O efficiency; carries no meaning for the verdict.
pub const FILE_BUFFER_SIZE: usize = 8192;

/// Two records name the same underlying file: same device, same inode.
pub open spec fn same_identity_spec(a: FileRecord, b: FileRecord) -> bool {
    a.dev == b.dev && a.ino == b.ino
}

/// Decides whether `a` and `b` name the same underlying file,
/// regardless of their path strings.
pub fn same_identity(a: &FileRecord, b: &FileRecord) -> (r: bool)
    ensures
        r == same_identity_spec(*a, *b),
{
    a.dev == b.dev && a.ino == b.ino
}

/// A record always names the same underlying file as itself, so the
/// matcher's identity test can never let a file pair with itself.
pub proof fn lemma_same_identity_reflexive(a: FileRecord)
    ensures
        same_identity_spec(a, a),
{
}

/// Compares two byte slices, stopping at the first difference.
pub fn slice_bytes_eq(a: &[u8], b: &[u8]) -> (r: bool)
    ensures
        r == (a@ == b@),
{
    if a.len() != b.len() {
        assert(a@ != b@) by {
            assert(a@.len() != b@.len());
        }
        return false;
    }
    let n: usize = a.len();
    let mut i: usize = 0;
    while i < n
        invariant
            i <= n,
            n == a@.len(),
            n == b@.len(),
            forall|j: int| 0 <= j < i ==> a@[j] == b@[j],
        decreases n - i,
    {
        if a[i] != b[i] {
            return false;
        }
        i += 1;
    }
    proof {
        assert(a@ =~= b@);
    }
    true
}

/// Whether two files read as equal bytes, where both could be read.
pub open spec fn bytes_equal_spec(a: FileRecord, b: FileRecord) -> Result<bool, IoError> {
    match (a.bytes_view(), b.bytes_view()) {
        (Some(x), Some(y)) => Ok(x == y),
        _ => Err(IoError::Unreadable),
    }
}

/// Decides whether `a` and `b` hold identical bytes.  Fails when either
/// file's content could not be read; never assumes the reported lengths
/// were compared beforehand.
pub fn bytes_equal(a: &FileRecord, b: &FileRecord) -> (r: Result<bool, IoError>)
    ensures
        r == bytes_equal_spec(*a, *b),
{
    match (&a.bytes, &b.bytes) {
        (Some(x), Some(y)) => Ok(slice_bytes_eq(x.as_slice(), y.as_slice())),
        _ => Err(IoError::Unreadable),
    }
}

/// The byte comparison is symmetric: swapping the two files swaps
/// nothing in the verdict, including which side failed to read.
pub proof fn lemma_bytes_equal_symmetric(a: FileRecord, b: FileRecord)
    ensures
        bytes_equal_spec(a, b) == bytes_equal_spec(b, a),
{
}

/// Compares the full contents read from a pair of regular files.
pub fn assure_paths_read_bytes_eq(a: &[u8], b: &[u8]) -> (r: Result<bool, AssureError>)
    ensures
        r == Ok::<bool, AssureError>(a@ == b@),
{
    Ok(slice_bytes_eq(a, b))
}

/// Decides whether two records carry the same observable facts: path,
/// reported length, identity, and content.
pub fn records_alike(r1: &FileRecord, r2: &FileRecord) -> (r: bool)
    ensures
        r == record_alike(*r1, *r2),
{
    if r1.path != r2.path {
        return false;
    }
    if r1.len != r2.len || r1.dev != r2.dev || r1.ino != r2.ino {
        return false;
    }
    match (&r1.bytes, &r2.bytes) {
        (None, None) => true,
        (Some(x), Some(y)) => slice_bytes_eq(x.as_slice(), y.as_slice()),
        _ => false,
    }
}

/// What one step of a streaming comparison concluded.
#[derive(Clone, Copy, Debug, PartialEq, Eq, Structural)]
pub enum ChunkVerdict {
    /// Both chunks were equal and non-empty: read on.
    Continue,
    /// Both streams ended together with no difference seen: equal.
    Equal,
    /// The chunks differed in length or content: not equal.
    NotEqual,
}

/// Judges one pair of chunks read from two files.  A caller streams both
/// files in steps of up to [`FILE_BUFFER_SIZE`] bytes and stops at the
/// first verdict other than `Continue`.
pub fn chunk_step(a_chunk: &[u8], b_chunk: &[u8]) -> (v: ChunkVerdict)
    ensures
        a_chunk@.len() == 0 && b_chunk@.len() == 0 ==> v == ChunkVerdict::Equal,
        a_chunk@ != b_chunk@ ==> v == ChunkVerdict::NotEqual,
        a_chunk@ == b_chunk@ && a_chunk@.len() > 0 ==> v == ChunkVerdict::Continue,
{
    if a_chunk.len() == 0 && b_chunk.len() == 0 {
        proof {
            assert(a_chunk@ =~= b_chunk@);
        }
        ChunkVerdict::Equal
    } else if !slice_bytes_eq(a_chunk, b_chunk) {
        ChunkVerdict::NotEqual
    } else {
        ChunkVerdict::Continue
    }
}

} // verus!
