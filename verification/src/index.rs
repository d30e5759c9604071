//! A length-keyed index of file records.
//!
//! The index maps each reported file length to the set of records whose
//! metadata reported that length.  Length collisions across different
//! content are expected; the index only narrows which files a byte
//! comparison must look at.  A well-formed index holds each path at most
//! once, keeps every record in the bucket of its own length, and never
//! holds two buckets for one length.

use vstd::prelude::*;

use crate::record::{record_alike, FileRecord};

verus! {

/// All records whose metadata reported one particular length.
pub struct Bucket {
    /// The reported length this bucket is keyed by.
    pub len: u64,
    /// The records, in insertion order.
    pub files: Vec<FileRecord>,
}

impl Bucket {
    /// Every record lies in the bucket of its own reported length.
    pub open spec fn wf(self) -> bool {
        forall|i: int| 0 <= i < self.files@.len() ==> (#[trigger] self.files@[i]).len == self.len
    }
}

/// The two buckets hold the same length and records alike, in order.
pub open spec fn bucket_alike(b1: Bucket, b2: Bucket) -> bool {
    &&& b1.len == b2.len
    &&& b1.files@.len() == b2.files@.len()
    &&& forall|i: int|
        0 <= i < b1.files@.len() ==> record_alike(
            #[trigger] b1.files@[i],
            #[trigger] b2.files@[i],
        )
}

/// The first bucket keyed by `len`, scanning in bucket order.
pub open spec fn find_bucket(buckets: Seq<Bucket>, len: u64) -> Option<Bucket>
    decreases buckets.len(),
{
    if buckets.len() == 0 {
        None
    } else if buckets[0].len == len {
        Some(buckets[0])
    } else {
        find_bucket(buckets.drop_first(), len)
    }
}

/// If the first `i` buckets miss `len` and bucket `i` is keyed by it,
/// the scan finds bucket `i`.
pub proof fn lemma_find_bucket_at(buckets: Seq<Bucket>, len: u64, i: int)
    requires
        0 <= i < buckets.len(),
        buckets[i].len == len,
        forall|k: int| 0 <= k < i ==> buckets[k].len != len,
    ensures
        find_bucket(buckets, len) == Some(buckets[i]),
    decreases i,
{
    if i > 0 {
        lemma_find_bucket_at(buckets.drop_first(), len, i - 1);
    }
}

/// If no bucket is keyed by `len`, the scan finds none.
pub proof fn lemma_find_bucket_none(buckets: Seq<Bucket>, len: u64)
    requires
        forall|k: int| 0 <= k < buckets.len() ==> buckets[k].len != len,
    ensures
        find_bucket(buckets, len) is None,
    decreases buckets.len(),
{
    if buckets.len() > 0 {
        lemma_find_bucket_none(buckets.drop_first(), len);
    }
}

/// Replacing bucket `i` by one of the same length leaves the scan for
/// every other length unchanged.
pub proof fn lemma_find_bucket_update(s: Seq<Bucket>, i: int, b2: Bucket, l: u64)
    requires
        0 <= i < s.len(),
        s[i].len == b2.len,
        b2.len != l,
    ensures
        find_bucket(s.update(i, b2), l) == find_bucket(s, l),
    decreases s.len(),
{
    let s2 = s.update(i, b2);
    if i == 0 {
        assert(s2.drop_first() =~= s.drop_first());
    } else {
        assert(s2[0] == s[0]);
        if s[0].len != l {
            assert(s2.drop_first() =~= s.drop_first().update(i - 1, b2));
            lemma_find_bucket_update(s.drop_first(), i - 1, b2, l);
        }
    }
}

/// Appending a bucket of a different length leaves the scan for `l`
/// unchanged.
pub proof fn lemma_find_bucket_push(s: Seq<Bucket>, nb: Bucket, l: u64)
    requires
        nb.len != l,
    ensures
        find_bucket(s.push(nb), l) == find_bucket(s, l),
    decreases s.len(),
{
    if s.len() == 0 {
        assert(s.push(nb)[0] == nb);
        assert(s.push(nb).drop_first() =~= Seq::<Bucket>::empty());
        assert(find_bucket(Seq::<Bucket>::empty(), l) is None);
        assert(find_bucket(s, l) is None);
    } else {
        assert(s.push(nb)[0] == s[0]);
        if s[0].len != l {
            assert(s.push(nb).drop_first() =~= s.drop_first().push(nb));
            lemma_find_bucket_push(s.drop_first(), nb, l);
        }
    }
}

/// A found bucket is one of the index's buckets, keyed by the length
/// that was asked for.
pub proof fn lemma_find_bucket_is_element(buckets: Seq<Bucket>, len: u64, b: Bucket)
    requires
        find_bucket(buckets, len) == Some(b),
    ensures
        b.len == len,
        exists|i: int| 0 <= i < buckets.len() && buckets[i] == b,
    decreases buckets.len(),
{
    if buckets.len() > 0 {
        if buckets[0].len == len {
            assert(buckets[0] == b);
        } else {
            lemma_find_bucket_is_element(buckets.drop_first(), len, b);
            let i = choose|i: int|
                0 <= i < buckets.drop_first().len() && buckets.drop_first()[i] == b;
            assert(buckets[i + 1] == b);
        }
    }
}

/// The mapping from reported file length to the files of that length.
pub struct PathIndex {
    /// One bucket per distinct reported length, in first-seen order.
    pub buckets: Vec<Bucket>,
}

impl PathIndex {
    /// Some record in the index was found under path `p`.
    pub open spec fn contains_path_spec(self, p: Seq<char>) -> bool {
        exists|i: int, j: int|
            0 <= i < self.buckets@.len() && 0 <= j < self.buckets@[i].files@.len()
                && self.buckets@[i].files@[j].path@ == p
    }

    /// Well-formed: buckets hold their own lengths, no length is keyed
    /// twice, and no path occurs twice anywhere in the index.
    pub open spec fn wf(self) -> bool {
        &&& (forall|i: int| 0 <= i < self.buckets@.len() ==> (#[trigger] self.buckets@[i]).wf())
        &&& (forall|i: int, j: int|
            0 <= i < j < self.buckets@.len() ==> self.buckets@[i].len != self.buckets@[j].len)
        &&& (forall|i1: int, j1: int, i2: int, j2: int|
            0 <= i1 < self.buckets@.len() && 0 <= j1 < self.buckets@[i1].files@.len() && 0 <= i2
                < self.buckets@.len() && 0 <= j2 < self.buckets@[i2].files@.len() && (i1 != i2 || j1
                != j2) ==> (#[trigger] self.buckets@[i1].files@[j1]).path@ != (
            #[trigger] self.buckets@[i2].files@[j2]).path@)
    }

    /// The records indexed under `len`, in insertion order; empty when
    /// no file of that length was seen.
    pub open spec fn bucket_files(self, len: u64) -> Seq<FileRecord> {
        match find_bucket(self.buckets@, len) {
            Some(b) => b.files@,
            None => Seq::empty(),
        }
    }

    /// Some file of this length was seen.
    pub open spec fn has_len(self, len: u64) -> bool {
        find_bucket(self.buckets@, len) is Some
    }

    /// The two indexes picture the same files: buckets alike, in the
    /// same order.  Two scans of one directory tree meet this.
    pub open spec fn alike(self, other: PathIndex) -> bool {
        &&& self.buckets@.len() == other.buckets@.len()
        &&& forall|i: int|
            0 <= i < self.buckets@.len() ==> bucket_alike(
                #[trigger] self.buckets@[i],
                #[trigger] other.buckets@[i],
            )
    }

    /// An index with nothing in it.
    pub fn new() -> (r: PathIndex)
        ensures
            r.wf(),
            r.buckets@.len() == 0,
    {
        PathIndex { buckets: Vec::new() }
    }

    /// Whether any record in the index was found under `path`.
    pub fn contains_path(&self, path: &String) -> (r: bool)
        ensures
            r == self.contains_path_spec(path@),
    {
        let mut i: usize = 0;
        while i < self.buckets.len()
            invariant
                i <= self.buckets@.len(),
                forall|i0: int, j0: int|
                    0 <= i0 < i && 0 <= j0 < self.buckets@[i0].files@.len()
                        ==> self.buckets@[i0].files@[j0].path@ != path@,
            decreases self.buckets@.len() - i,
        {
            let files = &self.buckets[i].files;
            let mut j: usize = 0;
            while j < files.len()
                invariant
                    i < self.buckets@.len(),
                    j <= files@.len(),
                    files@ == self.buckets@[i as int].files@,
                    forall|j0: int| 0 <= j0 < j ==> files@[j0].path@ != path@,
                decreases files@.len() - j,
            {
                if files[j].path == *path {
                    assert(self.buckets@[i as int].files@[j as int].path@ == path@);
                    return true;
                }
                j += 1;
            }
            i += 1;
        }
        false
    }

    /// The position of the bucket keyed by `len`, if one exists.
    pub fn find_bucket_index(&self, len: u64) -> (r: Option<usize>)
        ensures
            match r {
                Some(i) => i < self.buckets@.len() && self.buckets@[i as int].len == len
                    && (forall|k: int| 0 <= k < i ==> self.buckets@[k].len != len)
                    && find_bucket(self.buckets@, len) == Some(self.buckets@[i as int]),
                None => (forall|k: int| 0 <= k < self.buckets@.len() ==> self.buckets@[k].len
                    != len) && find_bucket(self.buckets@, len) is None,
            },
    {
        let mut i: usize = 0;
        while i < self.buckets.len()
            invariant
                i <= self.buckets@.len(),
                forall|k: int| 0 <= k < i ==> self.buckets@[k].len != len,
            decreases self.buckets@.len() - i,
        {
            if self.buckets[i].len == len {
                proof {
                    lemma_find_bucket_at(self.buckets@, len, i as int);
                }
                return Some(i);
            }
            i += 1;
        }
        proof {
            lemma_find_bucket_none(self.buckets@, len);
        }
        None
    }

    /// Adds one record, keyed by its reported length.  A path already
    /// present anywhere in the index is left as it was, so a scan that
    /// reports the same path twice cannot make it count twice.
    pub fn insert(&mut self, rec: FileRecord)
        requires
            old(self).wf(),
        ensures
            final(self).wf(),
            final(self).contains_path_spec(rec.path@),
            old(self).contains_path_spec(rec.path@) ==> *final(self) == *old(self),
            !old(self).contains_path_spec(rec.path@) ==> final(self).bucket_files(rec.len)
                == old(self).bucket_files(rec.len).push(rec),
            !old(self).contains_path_spec(rec.path@) ==> forall|l: u64|
                l != rec.len ==> final(self).bucket_files(l) == old(self).bucket_files(l),
            forall|p: Seq<char>|
                final(self).contains_path_spec(p) == (old(self).contains_path_spec(p) || p
                    == rec.path@),
    {
        if self.contains_path(&rec.path) {
            return ;
        }
        let ghost old_self = *self;
        match self.find_bucket_index(rec.len) {
            Some(i) => {
                let ghost old_bucket = self.buckets@[i as int];
                self.buckets[i].files.push(rec);
                proof {
                    let ii = i as int;
                    let nb = self.buckets@[ii];
                    let m = old_bucket.files@.len() as int;
                    assert(self.buckets@ =~= old_self.buckets@.update(ii, nb));
                    assert(nb.len == old_bucket.len);
                    assert(nb.files@ == old_bucket.files@.push(rec));
                    lemma_find_bucket_at(self.buckets@, rec.len, ii);
                    assert forall|l: u64| l != rec.len implies self.bucket_files(l)
                        == old_self.bucket_files(l) by {
                        lemma_find_bucket_update(old_self.buckets@, ii, nb, l);
                    }
                    assert(self.buckets@[ii].files@[m] == rec);
                    assert(self.contains_path_spec(rec.path@));
                    // the new record stands at (ii, m); every other slot is untouched
                    assert forall|i0: int, j0: int|
                        0 <= i0 < self.buckets@.len() && 0 <= j0 < self.buckets@[i0].files@.len()
                            && (i0 != ii || j0 != m) implies self.buckets@[i0].files@[j0]
                        == old_self.buckets@[i0].files@[j0] by {
                        if i0 == ii {
                            assert(self.buckets@[i0].files@[j0] == old_bucket.files@[j0]);
                        }
                    }
                    assert forall|k: int| 0 <= k < self.buckets@.len() implies (
                    #[trigger] self.buckets@[k]).wf() by {
                        if k == ii {
                            assert(old_self.buckets@[k].wf());
                            assert forall|j: int| 0 <= j < nb.files@.len() implies (
                            #[trigger] nb.files@[j]).len == nb.len by {
                                if j < m {
                                    assert(nb.files@[j] == old_bucket.files@[j]);
                                } else {
                                    assert(nb.files@[j] == rec);
                                }
                            }
                        } else {
                            assert(old_self.buckets@[k].wf());
                        }
                    }
                    assert forall|p: Seq<char>|
                        self.contains_path_spec(p) == (old_self.contains_path_spec(p) || p
                            == rec.path@) by {
                        if old_self.contains_path_spec(p) {
                            let (i0, j0) = choose|i0: int, j0: int|
                                0 <= i0 < old_self.buckets@.len() && 0 <= j0
                                    < old_self.buckets@[i0].files@.len()
                                    && old_self.buckets@[i0].files@[j0].path@ == p;
                            assert(self.buckets@[i0].files@[j0].path@ == p);
                        }
                        if self.contains_path_spec(p) && p != rec.path@ {
                            let (i0, j0) = choose|i0: int, j0: int|
                                0 <= i0 < self.buckets@.len() && 0 <= j0
                                    < self.buckets@[i0].files@.len()
                                    && self.buckets@[i0].files@[j0].path@ == p;
                            assert(old_self.buckets@[i0].files@[j0].path@ == p);
                        }
                    }
                }
            },
            None => {
                let rec_len = rec.len;
                let mut files: Vec<FileRecord> = Vec::new();
                files.push(rec);
                let nb = Bucket { len: rec_len, files };
                self.buckets.push(nb);
                proof {
                    let n = old_self.buckets@.len() as int;
                    assert(self.buckets@ =~= old_self.buckets@.push(self.buckets@[n]));
                    lemma_find_bucket_at(self.buckets@, rec.len, n);
                    assert(old_self.bucket_files(rec.len) =~= Seq::<FileRecord>::empty());
                    assert(self.bucket_files(rec.len) =~= old_self.bucket_files(
                        rec.len,
                    ).push(rec));
                    assert forall|l: u64| l != rec.len implies self.bucket_files(l)
                        == old_self.bucket_files(l) by {
                        lemma_find_bucket_push(old_self.buckets@, self.buckets@[n], l);
                    }
                    assert(self.buckets@[n].files@[0] == rec);
                    assert(self.contains_path_spec(rec.path@));
                    // every slot but (n, 0) is one of the old index's slots
                    assert forall|i0: int, j0: int|
                        0 <= i0 < self.buckets@.len() && 0 <= j0 < self.buckets@[i0].files@.len()
                            && (i0 != n || j0 != 0) implies 0 <= i0 < old_self.buckets@.len() && 0
                        <= j0 < old_self.buckets@[i0].files@.len() && self.buckets@[i0].files@[j0]
                        == old_self.buckets@[i0].files@[j0] by {
                        if i0 == n {
                            assert(self.buckets@[n].files@.len() == 1);
                        }
                    }
                    assert forall|k: int| 0 <= k < self.buckets@.len() implies (
                    #[trigger] self.buckets@[k]).wf() by {
                        if k < n {
                            assert(old_self.buckets@[k].wf());
                        } else {
                            assert forall|j: int|
                                0 <= j < self.buckets@[k].files@.len() implies (
                            #[trigger] self.buckets@[k].files@[j]).len == self.buckets@[k].len by {
                                assert(self.buckets@[k].files@[j] == rec);
                            }
                        }
                    }
                    assert forall|p: Seq<char>|
                        self.contains_path_spec(p) == (old_self.contains_path_spec(p) || p
                            == rec.path@) by {
                        if old_self.contains_path_spec(p) {
                            let (i0, j0) = choose|i0: int, j0: int|
                                0 <= i0 < old_self.buckets@.len() && 0 <= j0
                                    < old_self.buckets@[i0].files@.len()
                                    && old_self.buckets@[i0].files@[j0].path@ == p;
                            assert(self.buckets@[i0].files@[j0].path@ == p);
                        }
                        if self.contains_path_spec(p) && p != rec.path@ {
                            let (i0, j0) = choose|i0: int, j0: int|
                                0 <= i0 < self.buckets@.len() && 0 <= j0
                                    < self.buckets@[i0].files@.len()
                                    && self.buckets@[i0].files@[j0].path@ == p;
                            assert(old_self.buckets@[i0].files@[j0].path@ == p);
                        }
                    }
                }
            },
        }
    }
}

} // verus!
