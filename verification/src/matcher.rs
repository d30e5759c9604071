//! Finds duplicate pairs between two indexes, or within one.
//!
//! Length is a hard pre-filter: only records indexed under the same
//! reported length are ever compared.  A candidate pair must name two
//! different underlying files and read as identical bytes.  Each
//! duplicate is matched to at most one original, the first candidate in
//! scan order; the tie-break among several byte-identical originals is
//! implementation-defined, not part of the contract's meaning.  A
//! candidate whose content could not be read never matches and is
//! skipped; the pass continues with the next candidate.

use vstd::prelude::*;

use crate::comparator::{
    bytes_equal, bytes_equal_spec, records_alike, same_identity, same_identity_spec,
};
use crate::errors::IoError;
use crate::index::{
    bucket_alike, find_bucket, lemma_find_bucket_at, lemma_find_bucket_is_element, Bucket,
    PathIndex,
};
use crate::record::{pair_views, record_alike, DuplicatePair, FileRecord};

verus! {

/// `ra` may serve as the original for duplicate `rb`: they are not the
/// same underlying file, and both could be read and hold equal bytes.
pub open spec fn rec_matches(ra: FileRecord, rb: FileRecord) -> bool {
    !same_identity_spec(ra, rb) && bytes_equal_spec(ra, rb) == Ok::<bool, IoError>(true)
}

/// The first candidate in scan order that may serve as the original.
pub open spec fn first_match(cands: Seq<FileRecord>, rb: FileRecord) -> Option<FileRecord>
    decreases cands.len(),
{
    if cands.len() == 0 {
        None
    } else if rec_matches(cands[0], rb) {
        Some(cands[0])
    } else {
        first_match(cands.drop_first(), rb)
    }
}

/// The pairs one bucket of duplicates yields against its candidates,
/// one pair at most per duplicate, in duplicate order.
pub open spec fn bucket_pairs(cands: Seq<FileRecord>, bs: Seq<FileRecord>) -> Seq<
    (Seq<char>, Seq<char>),
>
    decreases bs.len(),
{
    if bs.len() == 0 {
        Seq::empty()
    } else {
        (match first_match(cands, bs[0]) {
            Some(ra) => seq![(ra.path@, bs[0].path@)],
            None => Seq::empty(),
        }) + bucket_pairs(cands, bs.drop_first())
    }
}

/// The pairs a whole pass yields: buckets of `bbs` in order, each
/// compared against the like-length bucket of `a`, if any.
pub open spec fn index_pairs(a: PathIndex, bbs: Seq<Bucket>) -> Seq<(Seq<char>, Seq<char>)>
    decreases bbs.len(),
{
    if bbs.len() == 0 {
        Seq::empty()
    } else {
        (if a.has_len(bbs[0].len) {
            bucket_pairs(a.bucket_files(bbs[0].len), bbs[0].files@)
        } else {
            Seq::empty()
        }) + index_pairs(a, bbs.drop_first())
    }
}

/// Every duplicate pair of a directed pass of `b` against `a`.
pub open spec fn match_all(a: PathIndex, b: PathIndex) -> Seq<(Seq<char>, Seq<char>)> {
    index_pairs(a, b.buckets@)
}

/// The pairs one bucket yields against itself, from position `p` on.
/// Each record is matched only against the records seen before it, so a
/// record is never compared with itself and an unordered pair can be
/// found from one direction only.
pub open spec fn self_pairs_from(files: Seq<FileRecord>, p: int) -> Seq<(Seq<char>, Seq<char>)>
    decreases files.len() - p,
{
    if p < 0 || p >= files.len() {
        Seq::empty()
    } else {
        (match first_match(files.take(p), files[p]) {
            Some(ra) => seq![(ra.path@, files[p].path@)],
            None => Seq::empty(),
        }) + self_pairs_from(files, p + 1)
    }
}

/// The pairs one bucket yields against itself.
pub open spec fn bucket_self_pairs(files: Seq<FileRecord>) -> Seq<(Seq<char>, Seq<char>)> {
    self_pairs_from(files, 0)
}

/// The pairs a pass of one index against itself yields.
pub open spec fn index_self_pairs(bbs: Seq<Bucket>) -> Seq<(Seq<char>, Seq<char>)>
    decreases bbs.len(),
{
    if bbs.len() == 0 {
        Seq::empty()
    } else {
        bucket_self_pairs(bbs[0].files@) + index_self_pairs(bbs.drop_first())
    }
}

/// Every duplicate pair of a pass of one index against itself.
pub open spec fn match_within(x: PathIndex) -> Seq<(Seq<char>, Seq<char>)> {
    index_self_pairs(x.buckets@)
}

/// If the first `i` candidates do not match and candidate `i` does, the
/// scan stops at candidate `i`.
pub proof fn lemma_first_match_at(cands: Seq<FileRecord>, rb: FileRecord, i: int)
    requires
        0 <= i < cands.len(),
        rec_matches(cands[i], rb),
        forall|k: int| 0 <= k < i ==> !rec_matches(cands[k], rb),
    ensures
        first_match(cands, rb) == Some(cands[i]),
    decreases i,
{
    if i > 0 {
        lemma_first_match_at(cands.drop_first(), rb, i - 1);
    }
}

/// If no candidate matches, the scan yields none.
pub proof fn lemma_first_match_none(cands: Seq<FileRecord>, rb: FileRecord)
    requires
        forall|k: int| 0 <= k < cands.len() ==> !rec_matches(cands[k], rb),
    ensures
        first_match(cands, rb) is None,
    decreases cands.len(),
{
    if cands.len() > 0 {
        lemma_first_match_none(cands.drop_first(), rb);
    }
}

/// If any candidate matches, the scan finds one.
pub proof fn lemma_first_match_some_if_any(cands: Seq<FileRecord>, rb: FileRecord)
    requires
        exists|i: int| 0 <= i < cands.len() && rec_matches(cands[i], rb),
    ensures
        first_match(cands, rb) is Some,
    decreases cands.len(),
{
    if !rec_matches(cands[0], rb) {
        let i = choose|i: int| 0 <= i < cands.len() && rec_matches(cands[i], rb);
        assert(cands.drop_first()[i - 1] == cands[i]);
        lemma_first_match_some_if_any(cands.drop_first(), rb);
    }
}

/// A found original is one of the candidates and matches the duplicate.
pub proof fn lemma_first_match_is_match(cands: Seq<FileRecord>, rb: FileRecord, ra: FileRecord)
    requires
        first_match(cands, rb) == Some(ra),
    ensures
        cands.contains(ra),
        rec_matches(ra, rb),
    decreases cands.len(),
{
    if cands.len() > 0 {
        if rec_matches(cands[0], rb) {
            assert(cands[0] == ra);
        } else {
            lemma_first_match_is_match(cands.drop_first(), rb, ra);
            let i = choose|i: int|
                0 <= i < cands.drop_first().len() && cands.drop_first()[i] == ra;
            assert(cands[i + 1] == ra);
        }
    }
}

/// Every pair a bucket pass yields arises from one candidate and one of
/// the bucket's own records that match.
proof fn lemma_bucket_pairs_sound(cands: Seq<FileRecord>, bs: Seq<FileRecord>, k: int) -> (w: (
    FileRecord,
    FileRecord,
))
    requires
        0 <= k < bucket_pairs(cands, bs).len(),
    ensures
        cands.contains(w.0),
        bs.contains(w.1),
        rec_matches(w.0, w.1),
        bucket_pairs(cands, bs)[k] == (w.0.path@, w.1.path@),
    decreases bs.len(),
{
    let head = match first_match(cands, bs[0]) {
        Some(ra) => seq![(ra.path@, bs[0].path@)],
        None => Seq::<(Seq<char>, Seq<char>)>::empty(),
    };
    if k < head.len() {
        let ra = first_match(cands, bs[0])->Some_0;
        lemma_first_match_is_match(cands, bs[0], ra);
        assert(bs[0] == bs[0]);
        (ra, bs[0])
    } else {
        let w = lemma_bucket_pairs_sound(cands, bs.drop_first(), k - head.len());
        let i = choose|i: int| 0 <= i < bs.drop_first().len() && bs.drop_first()[i] == w.1;
        assert(bs[i + 1] == w.1);
        w
    }
}

/// Every pair of a pass over `bbs` arises from a bucket of `bbs` and
/// the like-length candidates.
proof fn lemma_index_pairs_sound(a: PathIndex, bbs: Seq<Bucket>, k: int) -> (w: (
    FileRecord,
    FileRecord,
    int,
))
    requires
        0 <= k < index_pairs(a, bbs).len(),
    ensures
        0 <= w.2 < bbs.len(),
        a.has_len(bbs[w.2].len),
        a.bucket_files(bbs[w.2].len).contains(w.0),
        bbs[w.2].files@.contains(w.1),
        rec_matches(w.0, w.1),
        index_pairs(a, bbs)[k] == (w.0.path@, w.1.path@),
    decreases bbs.len(),
{
    let head = if a.has_len(bbs[0].len) {
        bucket_pairs(a.bucket_files(bbs[0].len), bbs[0].files@)
    } else {
        Seq::<(Seq<char>, Seq<char>)>::empty()
    };
    if k < head.len() {
        let (ra, rb) = lemma_bucket_pairs_sound(a.bucket_files(bbs[0].len), bbs[0].files@, k);
        (ra, rb, 0)
    } else {
        let w = lemma_index_pairs_sound(a, bbs.drop_first(), k - head.len());
        assert(bbs[w.2 + 1] == bbs.drop_first()[w.2]);
        (w.0, w.1, w.2 + 1)
    }
}

/// Length bucketing is a hard pre-filter and identity a hard excluder:
/// every pair of a directed pass arises from a record of `a` and a
/// record of `b` whose reported lengths are equal, which do not name
/// the same underlying file, and which were both read and hold equal
/// bytes.
pub proof fn lemma_match_all_sound(a: PathIndex, b: PathIndex, k: int) -> (w: (
    FileRecord,
    FileRecord,
))
    requires
        a.wf(),
        b.wf(),
        0 <= k < match_all(a, b).len(),
    ensures
        a.bucket_files(w.1.len).contains(w.0),
        b.bucket_files(w.1.len).contains(w.1),
        w.0.len == w.1.len,
        !same_identity_spec(w.0, w.1),
        bytes_equal_spec(w.0, w.1) == Ok::<bool, IoError>(true),
        match_all(a, b)[k] == (w.0.path@, w.1.path@),
{
    let (ra, rb, bi) = lemma_index_pairs_sound(a, b.buckets@, k);
    let bucket_len = b.buckets@[bi].len;
    lemma_find_bucket_at(b.buckets@, bucket_len, bi);
    let j = choose|j: int|
        0 <= j < b.buckets@[bi].files@.len() && b.buckets@[bi].files@[j] == rb;
    assert(b.buckets@[bi].wf());
    assert(rb.len == bucket_len);
    let ab = find_bucket(a.buckets@, bucket_len)->Some_0;
    lemma_find_bucket_is_element(a.buckets@, bucket_len, ab);
    let ai = choose|ai: int| 0 <= ai < a.buckets@.len() && a.buckets@[ai] == ab;
    assert(a.buckets@[ai].wf());
    let aj = choose|aj: int| 0 <= aj < ab.files@.len() && ab.files@[aj] == ra;
    assert(ra.len == bucket_len);
    (ra, rb)
}

/// Every pair found within one bucket joins a record to one that
/// stands strictly earlier in the same bucket.
proof fn lemma_self_pairs_sound(files: Seq<FileRecord>, p0: int, k: int) -> (w: (int, int))
    requires
        0 <= p0,
        0 <= k < self_pairs_from(files, p0).len(),
    ensures
        0 <= w.0 < w.1 < files.len(),
        p0 <= w.1,
        rec_matches(files[w.0], files[w.1]),
        self_pairs_from(files, p0)[k] == (files[w.0].path@, files[w.1].path@),
    decreases files.len() - p0,
{
    let head = match first_match(files.take(p0), files[p0]) {
        Some(ra) => seq![(ra.path@, files[p0].path@)],
        None => Seq::<(Seq<char>, Seq<char>)>::empty(),
    };
    if k < head.len() {
        let ra = first_match(files.take(p0), files[p0])->Some_0;
        lemma_first_match_is_match(files.take(p0), files[p0], ra);
        let j = choose|j: int| 0 <= j < files.take(p0).len() && files.take(p0)[j] == ra;
        assert(files[j] == ra);
        (j, p0)
    } else {
        lemma_self_pairs_sound(files, p0 + 1, k - head.len())
    }
}

/// Within one pass of an index against itself, every pair joins two
/// distinct records of one of the index's own buckets: equal reported
/// lengths, never the same underlying file, equal bytes, and never a
/// path paired with itself.
pub proof fn lemma_match_within_sound(x: PathIndex, k: int) -> (w: (FileRecord, FileRecord))
    requires
        x.wf(),
        0 <= k < match_within(x).len(),
    ensures
        x.bucket_files(w.1.len).contains(w.0),
        x.bucket_files(w.1.len).contains(w.1),
        w.0.len == w.1.len,
        !same_identity_spec(w.0, w.1),
        bytes_equal_spec(w.0, w.1) == Ok::<bool, IoError>(true),
        match_within(x)[k] == (w.0.path@, w.1.path@),
        w.0.path@ != w.1.path@,
    decreases x.buckets@.len(),
{
    assert(x.buckets@ =~= x.buckets@.skip(0));
    lemma_index_self_pairs_sound(x, x.buckets@, k)
}

/// As [`lemma_match_within_sound`], bucket by bucket.
proof fn lemma_index_self_pairs_sound(x: PathIndex, bbs: Seq<Bucket>, k: int) -> (w: (
    FileRecord,
    FileRecord,
))
    requires
        x.wf(),
        0 <= k < index_self_pairs(bbs).len(),
        exists|s: int|
            0 <= s <= x.buckets@.len() - bbs.len() && bbs =~= x.buckets@.skip(s),
    ensures
        x.bucket_files(w.1.len).contains(w.0),
        x.bucket_files(w.1.len).contains(w.1),
        w.0.len == w.1.len,
        !same_identity_spec(w.0, w.1),
        bytes_equal_spec(w.0, w.1) == Ok::<bool, IoError>(true),
        index_self_pairs(bbs)[k] == (w.0.path@, w.1.path@),
        w.0.path@ != w.1.path@,
    decreases bbs.len(),
{
    let s = choose|s: int| 0 <= s <= x.buckets@.len() - bbs.len() && bbs =~= x.buckets@.skip(s);
    let head = bucket_self_pairs(bbs[0].files@);
    if k < head.len() {
        let (j, p) = lemma_self_pairs_sound(bbs[0].files@, 0, k);
        assert(bbs[0] == x.buckets@[s]);
        assert(x.buckets@[s].wf());
        assert(x.buckets@[s].files@[j].path@ != x.buckets@[s].files@[p].path@);
        // the bucket both records lie in is the one its length finds
        assert forall|t: int| 0 <= t < s implies x.buckets@[t].len != x.buckets@[s].len by {}
        lemma_find_bucket_at(x.buckets@, x.buckets@[s].len, s);
        assert(x.bucket_files(x.buckets@[s].files@[p].len) == x.buckets@[s].files@);
        (bbs[0].files@[j], bbs[0].files@[p])
    } else {
        assert(bbs.drop_first() =~= x.buckets@.skip(s + 1));
        lemma_index_self_pairs_sound(x, bbs.drop_first(), k - head.len())
    }
}

/// How many pairs of a run name `d` as their duplicate.
pub open spec fn dup_count(pairs: Seq<(Seq<char>, Seq<char>)>, d: Seq<char>) -> nat
    decreases pairs.len(),
{
    if pairs.len() == 0 {
        0
    } else {
        (if pairs[0].1 == d {
            1nat
        } else {
            0nat
        }) + dup_count(pairs.drop_first(), d)
    }
}

/// The count distributes over concatenation.
proof fn lemma_dup_count_concat(s1: Seq<(Seq<char>, Seq<char>)>, s2: Seq<(Seq<char>, Seq<char>)>, d: Seq<char>)
    ensures
        dup_count(s1 + s2, d) == dup_count(s1, d) + dup_count(s2, d),
    decreases s1.len(),
{
    if s1.len() == 0 {
        assert(s1 + s2 =~= s2);
    } else {
        assert((s1 + s2)[0] == s1[0]);
        assert((s1 + s2).drop_first() =~= s1.drop_first() + s2);
        lemma_dup_count_concat(s1.drop_first(), s2, d);
    }
}

/// One pair counts once for its own duplicate, never for another.
proof fn lemma_dup_count_single(pv: (Seq<char>, Seq<char>), d: Seq<char>)
    ensures
        dup_count(seq![pv], d) == (if pv.1 == d {
            1nat
        } else {
            0nat
        }),
{
    assert(seq![pv].drop_first() =~= Seq::<(Seq<char>, Seq<char>)>::empty());
    assert(seq![pv][0] == pv);
    assert(dup_count(Seq::<(Seq<char>, Seq<char>)>::empty(), d) == 0);
}

/// A bucket none of whose records lies under `d` contributes no pair
/// for `d`.
proof fn lemma_bucket_pairs_dup_absent(cands: Seq<FileRecord>, bs: Seq<FileRecord>, d: Seq<char>)
    requires
        forall|i: int| 0 <= i < bs.len() ==> bs[i].path@ != d,
    ensures
        dup_count(bucket_pairs(cands, bs), d) == 0,
    decreases bs.len(),
{
    if bs.len() > 0 {
        let head = match first_match(cands, bs[0]) {
            Some(ra) => seq![(ra.path@, bs[0].path@)],
            None => Seq::<(Seq<char>, Seq<char>)>::empty(),
        };
        lemma_dup_count_concat(head, bucket_pairs(cands, bs.drop_first()), d);
        if first_match(cands, bs[0]) is Some {
            lemma_dup_count_single(head[0], d);
            assert(head =~= seq![head[0]]);
        }
        lemma_bucket_pairs_dup_absent(cands, bs.drop_first(), d);
    }
}

/// A bucket holding `d` exactly once, at position `j`, contributes one
/// pair for `d` when a candidate matches that record, and none
/// otherwise.
proof fn lemma_bucket_pairs_dup_at(cands: Seq<FileRecord>, bs: Seq<FileRecord>, d: Seq<char>, j: int)
    requires
        0 <= j < bs.len(),
        bs[j].path@ == d,
        forall|i: int| 0 <= i < bs.len() && i != j ==> bs[i].path@ != d,
    ensures
        dup_count(bucket_pairs(cands, bs), d) == (if first_match(cands, bs[j]) is Some {
            1nat
        } else {
            0nat
        }),
    decreases bs.len(),
{
    let head = match first_match(cands, bs[0]) {
        Some(ra) => seq![(ra.path@, bs[0].path@)],
        None => Seq::<(Seq<char>, Seq<char>)>::empty(),
    };
    lemma_dup_count_concat(head, bucket_pairs(cands, bs.drop_first()), d);
    if first_match(cands, bs[0]) is Some {
        lemma_dup_count_single(head[0], d);
        assert(head =~= seq![head[0]]);
    }
    if j == 0 {
        lemma_bucket_pairs_dup_absent(cands, bs.drop_first(), d);
    } else {
        lemma_bucket_pairs_dup_at(cands, bs.drop_first(), d, j - 1);
    }
}

/// A pass over buckets none of whose records lies under `d`
/// contributes no pair for `d`.
proof fn lemma_index_pairs_dup_absent(a: PathIndex, bbs: Seq<Bucket>, d: Seq<char>)
    requires
        forall|i2: int, j2: int|
            0 <= i2 < bbs.len() && 0 <= j2 < bbs[i2].files@.len() ==> bbs[i2].files@[j2].path@
                != d,
    ensures
        dup_count(index_pairs(a, bbs), d) == 0,
    decreases bbs.len(),
{
    if bbs.len() > 0 {
        let head = if a.has_len(bbs[0].len) {
            bucket_pairs(a.bucket_files(bbs[0].len), bbs[0].files@)
        } else {
            Seq::<(Seq<char>, Seq<char>)>::empty()
        };
        lemma_dup_count_concat(head, index_pairs(a, bbs.drop_first()), d);
        if a.has_len(bbs[0].len) {
            lemma_bucket_pairs_dup_absent(a.bucket_files(bbs[0].len), bbs[0].files@, d);
        }
        lemma_index_pairs_dup_absent(a, bbs.drop_first(), d);
    }
}

/// As [`lemma_one_pair_per_duplicate`], bucket by bucket: `d` occurs
/// exactly once over all of `bbs`, at position `j` of bucket `bi`.
proof fn lemma_index_pairs_dup_at(a: PathIndex, bbs: Seq<Bucket>, d: Seq<char>, bi: int, j: int)
    requires
        0 <= bi < bbs.len(),
        0 <= j < bbs[bi].files@.len(),
        bbs[bi].files@[j].path@ == d,
        forall|i2: int, j2: int|
            0 <= i2 < bbs.len() && 0 <= j2 < bbs[i2].files@.len() && (i2 != bi || j2 != j)
                ==> bbs[i2].files@[j2].path@ != d,
    ensures
        dup_count(index_pairs(a, bbs), d) == (if a.has_len(bbs[bi].len) && first_match(
            a.bucket_files(bbs[bi].len),
            bbs[bi].files@[j],
        ) is Some {
            1nat
        } else {
            0nat
        }),
    decreases bbs.len(),
{
    let head = if a.has_len(bbs[0].len) {
        bucket_pairs(a.bucket_files(bbs[0].len), bbs[0].files@)
    } else {
        Seq::<(Seq<char>, Seq<char>)>::empty()
    };
    lemma_dup_count_concat(head, index_pairs(a, bbs.drop_first()), d);
    if bi == 0 {
        if a.has_len(bbs[0].len) {
            lemma_bucket_pairs_dup_at(a.bucket_files(bbs[0].len), bbs[0].files@, d, j);
        }
        lemma_index_pairs_dup_absent(a, bbs.drop_first(), d);
    } else {
        if a.has_len(bbs[0].len) {
            lemma_bucket_pairs_dup_absent(a.bucket_files(bbs[0].len), bbs[0].files@, d);
        }
        lemma_index_pairs_dup_at(a, bbs.drop_first(), d, bi - 1, j);
        assert(bbs.drop_first()[bi - 1] == bbs[bi]);
    }
}

/// A directed pass emits at most one pair per duplicate record, and
/// exactly one when some like-length candidate names a different
/// underlying file and holds equal bytes.
pub proof fn lemma_one_pair_per_duplicate(a: PathIndex, b: PathIndex, rb: FileRecord)
    requires
        a.wf(),
        b.wf(),
        b.bucket_files(rb.len).contains(rb),
    ensures
        dup_count(match_all(a, b), rb.path@) == (if a.has_len(rb.len) && first_match(
            a.bucket_files(rb.len),
            rb,
        ) is Some {
            1nat
        } else {
            0nat
        }),
{
    let d = rb.path@;
    let bb = find_bucket(b.buckets@, rb.len)->Some_0;
    lemma_find_bucket_is_element(b.buckets@, rb.len, bb);
    let bi = choose|bi: int| 0 <= bi < b.buckets@.len() && b.buckets@[bi] == bb;
    let j = choose|j: int| 0 <= j < bb.files@.len() && bb.files@[j] == rb;
    assert(b.buckets@[bi].files@[j].path@ == d);
    assert forall|i2: int, j2: int|
        0 <= i2 < b.buckets@.len() && 0 <= j2 < b.buckets@[i2].files@.len() && (i2 != bi || j2
            != j) implies b.buckets@[i2].files@[j2].path@ != d by {
        assert(b.buckets@[i2].files@[j2].path@ != b.buckets@[bi].files@[j].path@);
    }
    lemma_index_pairs_dup_at(a, b.buckets@, d, bi, j);
    assert(b.buckets@[bi].len == rb.len);
}

/// Two records of equal reported length, indexed on either side, that
/// were both read and hold equal bytes without naming the same
/// underlying file: the directed pass emits exactly one pair for the
/// duplicate.
pub proof fn lemma_duplicate_is_found(a: PathIndex, b: PathIndex, ra: FileRecord, rb: FileRecord)
    requires
        a.wf(),
        b.wf(),
        a.bucket_files(rb.len).contains(ra),
        b.bucket_files(rb.len).contains(rb),
        !same_identity_spec(ra, rb),
        bytes_equal_spec(ra, rb) == Ok::<bool, IoError>(true),
    ensures
        dup_count(match_all(a, b), rb.path@) == 1,
{
    let cands = a.bucket_files(rb.len);
    let i = choose|i: int| 0 <= i < cands.len() && cands[i] == ra;
    assert(rec_matches(cands[i], rb));
    lemma_first_match_some_if_any(cands, rb);
    assert(a.has_len(rb.len));
    lemma_one_pair_per_duplicate(a, b, rb);
}

/// Scans the first `limit` candidates for the original of `rb`.
fn scan_for_original(cands: &Vec<FileRecord>, limit: usize, rb: &FileRecord) -> (r: Option<usize>)
    requires
        limit <= cands@.len(),
    ensures
        match r {
            Some(i) => i < limit && first_match(cands@.take(limit as int), *rb) == Some(
                cands@[i as int],
            ),
            None => first_match(cands@.take(limit as int), *rb) is None,
        },
{
    let ghost pool = cands@.take(limit as int);
    let mut i: usize = 0;
    while i < limit
        invariant
            i <= limit <= cands@.len(),
            pool == cands@.take(limit as int),
            forall|k: int| 0 <= k < i ==> !rec_matches(pool[k], *rb),
        decreases limit - i,
    {
        let ra = &cands[i];
        if !same_identity(ra, rb) {
            match bytes_equal(ra, rb) {
                Ok(true) => {
                    proof {
                        assert(pool[i as int] == cands@[i as int]);
                        lemma_first_match_at(pool, *rb, i as int);
                    }
                    return Some(i);
                },
                _ => {},
            }
        }
        proof {
            assert(pool[i as int] == cands@[i as int]);
        }
        i += 1;
    }
    proof {
        lemma_first_match_none(pool, *rb);
    }
    None
}

/// Decides whether the two indexes picture the same files.
fn same_index(a: &PathIndex, b: &PathIndex) -> (r: bool)
    ensures
        r == a.alike(*b),
{
    if a.buckets.len() != b.buckets.len() {
        return false;
    }
    let mut i: usize = 0;
    while i < a.buckets.len()
        invariant
            i <= a.buckets@.len(),
            a.buckets@.len() == b.buckets@.len(),
            forall|k: int| 0 <= k < i ==> bucket_alike(a.buckets@[k], b.buckets@[k]),
        decreases a.buckets@.len() - i,
    {
        let ab = &a.buckets[i];
        let bb = &b.buckets[i];
        if ab.len != bb.len || ab.files.len() != bb.files.len() {
            return false;
        }
        let mut j: usize = 0;
        while j < ab.files.len()
            invariant
                j <= ab.files@.len(),
                ab.files@.len() == bb.files@.len(),
                *ab == a.buckets@[i as int],
                *bb == b.buckets@[i as int],
                i < a.buckets@.len(),
                a.buckets@.len() == b.buckets@.len(),
                forall|k: int| 0 <= k < j ==> record_alike(ab.files@[k], bb.files@[k]),
            decreases ab.files@.len() - j,
        {
            if !records_alike(&ab.files[j], &bb.files[j]) {
                return false;
            }
            j += 1;
        }
        i += 1;
    }
    true
}

/// Finds every duplicate in `b` whose original lies in `a`.
///
/// For each length `b` indexed, if `a` indexed the same length, each of
/// `b`'s records of that length is matched against `a`'s records of
/// that length in scan order; the first candidate that names a
/// different underlying file and holds equal bytes becomes the
/// original, and the scan for that duplicate stops.
///
/// Two indexes picturing the same files are a self-duplicate scan in
/// disguise: the pass then runs within the one index, so the same
/// unordered pair is never found once from each direction and a path
/// is never matched against itself.
pub fn detect_duplicates(a: &PathIndex, b: &PathIndex) -> (r: Vec<DuplicatePair>)
    ensures
        pair_views(r@) == (if a.alike(*b) {
            match_within(*a)
        } else {
            match_all(*a, *b)
        }),
{
    if same_index(a, b) {
        return detect_duplicates_within(a);
    }
    let ghost goal = match_all(*a, *b);
    let mut out: Vec<DuplicatePair> = Vec::new();
    proof {
        assert(b.buckets@.skip(0) =~= b.buckets@);
        assert(pair_views(out@) + index_pairs(*a, b.buckets@.skip(0)) =~= goal);
    }
    let mut bi: usize = 0;
    while bi < b.buckets.len()
        invariant
            bi <= b.buckets@.len(),
            pair_views(out@) + index_pairs(*a, b.buckets@.skip(bi as int)) == goal,
            goal == match_all(*a, *b),
        decreases b.buckets@.len() - bi,
    {
        let ghost rest = b.buckets@.skip(bi as int);
        proof {
            assert(rest.drop_first() =~= b.buckets@.skip(bi as int + 1));
            assert(rest[0] == b.buckets@[bi as int]);
        }
        let bucket = &b.buckets[bi];
        match a.find_bucket_index(bucket.len) {
            Some(ai) => {
                let cands = &a.buckets[ai].files;
                let ghost cands_seq = cands@;
                proof {
                    assert(a.bucket_files(bucket.len) == cands@);
                    // unfold one step of the pass over b's buckets
                    assert(index_pairs(*a, rest) == bucket_pairs(cands_seq, rest[0].files@)
                        + index_pairs(*a, rest.drop_first()));
                    assert(bucket.files@.skip(0) =~= bucket.files@);
                    assert((pair_views(out@) + bucket_pairs(cands_seq, bucket.files@.skip(0)))
                        + index_pairs(*a, b.buckets@.skip(bi as int + 1)) =~= pair_views(out@) + (
                    bucket_pairs(cands_seq, rest[0].files@) + index_pairs(*a, rest.drop_first())));
                }
                let mut bj: usize = 0;
                while bj < bucket.files.len()
                    invariant
                        bj <= bucket.files@.len(),
                        cands_seq == cands@,
                        *bucket == b.buckets@[bi as int],
                        bi < b.buckets@.len(),
                        (pair_views(out@) + bucket_pairs(cands_seq, bucket.files@.skip(bj as int)))
                            + index_pairs(*a, b.buckets@.skip(bi as int + 1)) == goal,
                        goal == match_all(*a, *b),
                    decreases bucket.files@.len() - bj,
                {
                    let ghost brest = bucket.files@.skip(bj as int);
                    proof {
                        assert(brest.drop_first() =~= bucket.files@.skip(bj as int + 1));
                        assert(brest[0] == bucket.files@[bj as int]);
                    }
                    let rb = &bucket.files[bj];
                    match scan_for_original(cands, cands.len(), rb) {
                        Some(oi) => {
                            proof {
                                assert(cands@.take(cands@.len() as int) =~= cands_seq);
                            }
                            let pair = DuplicatePair {
                                original: cands[oi].path.clone(),
                                duplicate: rb.path.clone(),
                            };
                            let ghost pv = pair@;
                            proof {
                                assert(pv == (cands_seq[oi as int].path@, brest[0].path@));
                                assert(bucket_pairs(cands_seq, brest) == seq![pv] + bucket_pairs(
                                    cands_seq,
                                    brest.drop_first(),
                                ));
                            }
                            let ghost out_before = out@;
                            out.push(pair);
                            proof {
                                assert(pair_views(out@) =~= pair_views(out_before) + seq![pv]);
                                assert((pair_views(out@) + bucket_pairs(
                                    cands_seq,
                                    bucket.files@.skip(bj as int + 1),
                                )) =~= (pair_views(out_before) + bucket_pairs(cands_seq, brest)));
                            }
                        },
                        None => {
                            proof {
                                assert(cands@.take(cands@.len() as int) =~= cands_seq);
                                assert(bucket_pairs(cands_seq, brest) == bucket_pairs(
                                    cands_seq,
                                    brest.drop_first(),
                                ));
                            }
                        },
                    }
                    bj += 1;
                }
                proof {
                    assert(bucket.files@.skip(bucket.files@.len() as int) =~= Seq::<
                        FileRecord,
                    >::empty());
                    assert(bucket_pairs(cands_seq, Seq::<FileRecord>::empty()) == Seq::<
                        (Seq<char>, Seq<char>),
                    >::empty());
                    assert((pair_views(out@) + Seq::<(Seq<char>, Seq<char>)>::empty()) =~= pair_views(
                        out@,
                    ));
                }
            },
            None => {
                proof {
                    assert(!a.has_len(rest[0].len));
                    assert(index_pairs(*a, rest) == Seq::<(Seq<char>, Seq<char>)>::empty()
                        + index_pairs(*a, rest.drop_first()));
                    assert(Seq::<(Seq<char>, Seq<char>)>::empty() + index_pairs(
                        *a,
                        rest.drop_first(),
                    ) =~= index_pairs(*a, rest.drop_first()));
                }
            },
        }
        bi += 1;
    }
    proof {
        assert(b.buckets@.skip(b.buckets@.len() as int) =~= Seq::<Bucket>::empty());
        assert(pair_views(out@) + index_pairs(*a, Seq::<Bucket>::empty()) =~= pair_views(out@));
    }
    out
}

/// Finds every duplicate within a single index.
///
/// Each record is matched only against the records that stand before it
/// in its own bucket, so a file is never matched against itself and the
/// same unordered pair cannot be found a second time from the other
/// direction.  Two paths naming the same underlying file (hard links)
/// never pair, by the identity test.
pub fn detect_duplicates_within(x: &PathIndex) -> (r: Vec<DuplicatePair>)
    ensures
        pair_views(r@) == match_within(*x),
{
    let ghost goal = match_within(*x);
    let mut out: Vec<DuplicatePair> = Vec::new();
    proof {
        assert(x.buckets@.skip(0) =~= x.buckets@);
        assert(pair_views(out@) + index_self_pairs(x.buckets@.skip(0)) =~= goal);
    }
    let mut bi: usize = 0;
    while bi < x.buckets.len()
        invariant
            bi <= x.buckets@.len(),
            pair_views(out@) + index_self_pairs(x.buckets@.skip(bi as int)) == goal,
            goal == match_within(*x),
        decreases x.buckets@.len() - bi,
    {
        let ghost rest = x.buckets@.skip(bi as int);
        proof {
            assert(rest.drop_first() =~= x.buckets@.skip(bi as int + 1));
            assert(rest[0] == x.buckets@[bi as int]);
        }
        let bucket = &x.buckets[bi];
        let ghost files_seq = bucket.files@;
        proof {
            assert(index_self_pairs(rest) == bucket_self_pairs(files_seq) + index_self_pairs(
                rest.drop_first(),
            ));
            assert((pair_views(out@) + self_pairs_from(files_seq, 0)) + index_self_pairs(
                x.buckets@.skip(bi as int + 1),
            ) =~= pair_views(out@) + (bucket_self_pairs(files_seq) + index_self_pairs(
                rest.drop_first(),
            )));
        }
        let mut p: usize = 0;
        while p < bucket.files.len()
            invariant
                p <= bucket.files@.len(),
                files_seq == bucket.files@,
                *bucket == x.buckets@[bi as int],
                bi < x.buckets@.len(),
                (pair_views(out@) + self_pairs_from(files_seq, p as int)) + index_self_pairs(
                    x.buckets@.skip(bi as int + 1),
                ) == goal,
                goal == match_within(*x),
            decreases bucket.files@.len() - p,
        {
            let rb = &bucket.files[p];
            match scan_for_original(&bucket.files, p, rb) {
                Some(oi) => {
                    let pair = DuplicatePair {
                        original: bucket.files[oi].path.clone(),
                        duplicate: rb.path.clone(),
                    };
                    let ghost pv = pair@;
                    proof {
                        assert(pv == (files_seq.take(p as int)[oi as int].path@, files_seq[p as int].path@));
                        assert(self_pairs_from(files_seq, p as int) == seq![pv] + self_pairs_from(
                            files_seq,
                            p as int + 1,
                        ));
                    }
                    let ghost out_before = out@;
                    out.push(pair);
                    proof {
                        assert(pair_views(out@) =~= pair_views(out_before) + seq![pv]);
                        assert((pair_views(out@) + self_pairs_from(files_seq, p as int + 1))
                            =~= (pair_views(out_before) + self_pairs_from(files_seq, p as int)));
                    }
                },
                None => {
                    proof {
                        assert(self_pairs_from(files_seq, p as int) == self_pairs_from(
                            files_seq,
                            p as int + 1,
                        ));
                    }
                },
            }
            p += 1;
        }
        proof {
            assert(self_pairs_from(files_seq, files_seq.len() as int) == Seq::<
                (Seq<char>, Seq<char>),
            >::empty());
            assert((pair_views(out@) + Seq::<(Seq<char>, Seq<char>)>::empty()) =~= pair_views(
                out@,
            ));
        }
        bi += 1;
    }
    proof {
        assert(x.buckets@.skip(x.buckets@.len() as int) =~= Seq::<Bucket>::empty());
        assert(pair_views(out@) + index_self_pairs(Seq::<Bucket>::empty()) =~= pair_views(out@));
    }
    out
}

} // verus!
