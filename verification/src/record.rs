//! The in-memory picture of one regular file, and a detected pair.
//!
//! A surrounding program gathers these values from the filesystem: the
//! path it found the file under, the length its metadata reports, the
//! device and inode numbers that identify the underlying file, and the
//! file's content where the program read it.  `None` marks content that
//! is unavailable — unreadable, or never read because no comparison
//! could need it — so a byte comparison against such a record cannot be
//! decided and is skipped.

use vstd::prelude::*;

verus! {

/// One regular file as seen at scan time.
///
/// `len` is the length the filesystem reported; it serves only as a
/// bucketing key and is deliberately not tied to `bytes`, whose length
/// the report may disagree with.
pub struct FileRecord {
    /// The path the file was found under.
    pub path: String,
    /// The byte count reported by the file's metadata.
    pub len: u64,
    /// The device number of the underlying file.
    pub dev: u64,
    /// The inode number of the underlying file.
    pub ino: u64,
    /// The file's content, or `None` where it is unavailable.
    pub bytes: Option<Vec<u8>>,
}

impl FileRecord {
    /// The content as a sequence of bytes, where it could be read.
    pub open spec fn bytes_view(self) -> Option<Seq<u8>> {
        match self.bytes {
            Some(v) => Some(v@),
            None => None,
        }
    }
}

/// The two records carry the same observable facts: path, reported
/// length, identity, and content (or its absence).
pub open spec fn record_alike(r1: FileRecord, r2: FileRecord) -> bool {
    &&& r1.path@ == r2.path@
    &&& r1.len == r2.len
    &&& r1.dev == r2.dev
    &&& r1.ino == r2.ino
    &&& r1.bytes_view() == r2.bytes_view()
}

/// A detected duplicate: `original` was seen first and is retained;
/// `duplicate` was judged byte-identical to it and is subject to the
/// resolution action.
pub struct DuplicatePair {
    /// The path of the member that is kept.
    pub original: String,
    /// The path of the member the action applies to.
    pub duplicate: String,
}

impl View for DuplicatePair {
    type V = (Seq<char>, Seq<char>);

    open spec fn view(&self) -> (Seq<char>, Seq<char>) {
        (self.original@, self.duplicate@)
    }
}

/// The views of a run of detected pairs, in order.
pub open spec fn pair_views(pairs: Seq<DuplicatePair>) -> Seq<(Seq<char>, Seq<char>)> {
    pairs.map_values(|p: DuplicatePair| p@)
}

} // verus!
