//! Applies the chosen action to a detected duplicate pair.
//!
//! The dispatcher's decisions are stated and proved against an
//! in-memory model of the filesystem: a flat mapping from path to entry
//! (a regular file's content, or a symbolic link's target).  A
//! surrounding program mirrors each decided mutation onto the real
//! filesystem and feeds real outcomes through the outcome judgements
//! below; a failure on one pair never aborts the run as a whole, the
//! caller records it and moves to the next pair.

use vstd::prelude::*;

use crate::record::DuplicatePair;

verus! {

/// What to do with each duplicate once it is confirmed.  Exactly one
/// action is active per run; the choice is validated at the boundary.
#[derive(Clone, Copy, Debug, PartialEq, Eq, Structural)]
pub enum ResolutionAction {
    /// Emit a report record; mutate nothing.
    ReportOnly,
    /// Remove the duplicate's file directly.
    Delete,
    /// Hand the duplicate to the external recycle sink.
    Recycle,
    /// Hand the duplicate to the external secure-overwrite sink.
    Shred,
    /// Replace the duplicate with a symbolic link to the original.
    Symlink,
    /// Replace the duplicate with a hard link to the original.
    Hardlink,
}

/// Why one pair's resolution failed.
#[derive(Clone, Copy, Debug, PartialEq, Eq, Structural)]
pub enum ResolutionError {
    /// A removal or link creation failed.
    Io,
    /// The external disposal sink refused the path.
    DisposalFailed,
}

/// Where a pair's resolution ended: a pair starts `Detected`, is
/// `Reported`, and then is disposed of, linked, skipped (nothing was
/// left to touch), or failed.
#[derive(Clone, Copy, Debug, PartialEq, Eq, Structural)]
pub enum ResolutionState {
    Detected,
    Reported,
    Disposed,
    Linked,
    Skipped,
    Failed,
}

/// One entry of the filesystem model.
pub enum FsEntry {
    /// A regular file and its content.
    File(Vec<u8>),
    /// A symbolic link and the path it points at.
    Symlink(String),
}

/// The first entry under path `p`, scanning in entry order.
pub open spec fn find_entry(entries: Seq<(String, FsEntry)>, p: Seq<char>) -> Option<FsEntry>
    decreases entries.len(),
{
    if entries.len() == 0 {
        None
    } else if entries[0].0@ == p {
        Some(entries[0].1)
    } else {
        find_entry(entries.drop_first(), p)
    }
}

/// If the first `i` entries miss `p` and entry `i` carries it, the scan
/// finds entry `i`.
pub proof fn lemma_find_entry_at(entries: Seq<(String, FsEntry)>, p: Seq<char>, i: int)
    requires
        0 <= i < entries.len(),
        entries[i].0@ == p,
        forall|k: int| 0 <= k < i ==> entries[k].0@ != p,
    ensures
        find_entry(entries, p) == Some(entries[i].1),
    decreases i,
{
    if i > 0 {
        lemma_find_entry_at(entries.drop_first(), p, i - 1);
    }
}

/// If no entry carries `p`, the scan finds none.
pub proof fn lemma_find_entry_none(entries: Seq<(String, FsEntry)>, p: Seq<char>)
    requires
        forall|k: int| 0 <= k < entries.len() ==> entries[k].0@ != p,
    ensures
        find_entry(entries, p) is None,
    decreases entries.len(),
{
    if entries.len() > 0 {
        lemma_find_entry_none(entries.drop_first(), p);
    }
}

/// A scan that finds nothing means no entry carries `p`.
pub proof fn lemma_find_entry_none_inverse(entries: Seq<(String, FsEntry)>, p: Seq<char>)
    requires
        find_entry(entries, p) is None,
    ensures
        forall|k: int| 0 <= k < entries.len() ==> entries[k].0@ != p,
    decreases entries.len(),
{
    if entries.len() > 0 {
        lemma_find_entry_none_inverse(entries.drop_first(), p);
        assert forall|k: int| 0 <= k < entries.len() implies entries[k].0@ != p by {
            if k > 0 {
                assert(entries.drop_first()[k - 1] == entries[k]);
            }
        }
    }
}

/// Taking out an entry of another path leaves the scan for `p`
/// unchanged.
pub proof fn lemma_find_entry_remove(entries: Seq<(String, FsEntry)>, i: int, p: Seq<char>)
    requires
        0 <= i < entries.len(),
        entries[i].0@ != p,
    ensures
        find_entry(entries.remove(i), p) == find_entry(entries, p),
    decreases entries.len(),
{
    if i == 0 {
        assert(entries.remove(0) =~= entries.drop_first());
    } else {
        assert(entries.remove(i)[0] == entries[0]);
        if entries[0].0@ != p {
            assert(entries.remove(i).drop_first() =~= entries.drop_first().remove(i - 1));
            lemma_find_entry_remove(entries.drop_first(), i - 1, p);
        }
    }
}

/// Appending an entry of another path leaves the scan for `p`
/// unchanged.
pub proof fn lemma_find_entry_push(
    entries: Seq<(String, FsEntry)>,
    ne: (String, FsEntry),
    p: Seq<char>,
)
    requires
        ne.0@ != p,
    ensures
        find_entry(entries.push(ne), p) == find_entry(entries, p),
    decreases entries.len(),
{
    if entries.len() == 0 {
        assert(entries.push(ne)[0] == ne);
        assert(entries.push(ne).drop_first() =~= Seq::<(String, FsEntry)>::empty());
        assert(find_entry(Seq::<(String, FsEntry)>::empty(), p) is None);
        assert(find_entry(entries, p) is None);
    } else {
        assert(entries.push(ne)[0] == entries[0]);
        if entries[0].0@ != p {
            assert(entries.push(ne).drop_first() =~= entries.drop_first().push(ne));
            lemma_find_entry_push(entries.drop_first(), ne, p);
        }
    }
}

/// A flat model of the part of the filesystem the dispatcher touches.
pub struct FsModel {
    /// The entries, one per path.
    pub entries: Vec<(String, FsEntry)>,
}

impl FsModel {
    /// The entry under path `p`, if one exists.
    pub open spec fn entry_spec(self, p: Seq<char>) -> Option<FsEntry> {
        find_entry(self.entries@, p)
    }

    /// Whether any entry lies under path `p`.
    pub open spec fn contains_spec(self, p: Seq<char>) -> bool {
        self.entry_spec(p) is Some
    }

    /// Well-formed: no path occurs twice.
    pub open spec fn wf(self) -> bool {
        forall|i: int, j: int|
            0 <= i < j < self.entries@.len() ==> self.entries@[i].0@ != self.entries@[j].0@
    }

    /// The bytes a read of `p` yields: a file's own content, or, through
    /// one symbolic-link hop, the content of the file the link points
    /// at.
    pub open spec fn resolved_spec(self, p: Seq<char>) -> Option<Seq<u8>> {
        match self.entry_spec(p) {
            Some(FsEntry::File(c)) => Some(c@),
            Some(FsEntry::Symlink(t)) => match self.entry_spec(t@) {
                Some(FsEntry::File(c)) => Some(c@),
                _ => None,
            },
            None => None,
        }
    }

    /// A model with nothing in it.
    pub fn new() -> (r: FsModel)
        ensures
            r.wf(),
            r.entries@.len() == 0,
    {
        FsModel { entries: Vec::new() }
    }

    /// The position of the entry under `path`, if one exists.
    fn find_index(&self, path: &String) -> (r: Option<usize>)
        ensures
            match r {
                Some(i) => i < self.entries@.len() && self.entries@[i as int].0@ == path@
                    && (forall|k: int| 0 <= k < i ==> self.entries@[k].0@ != path@)
                    && self.entry_spec(path@) == Some(self.entries@[i as int].1),
                None => (forall|k: int|
                    0 <= k < self.entries@.len() ==> self.entries@[k].0@ != path@)
                    && self.entry_spec(path@) is None,
            },
    {
        let mut i: usize = 0;
        while i < self.entries.len()
            invariant
                i <= self.entries@.len(),
                forall|k: int| 0 <= k < i ==> self.entries@[k].0@ != path@,
            decreases self.entries@.len() - i,
        {
            if self.entries[i].0 == *path {
                proof {
                    lemma_find_entry_at(self.entries@, path@, i as int);
                }
                return Some(i);
            }
            i += 1;
        }
        proof {
            lemma_find_entry_none(self.entries@, path@);
        }
        None
    }

    /// Whether any entry lies under `path`.
    pub fn contains(&self, path: &String) -> (r: bool)
        ensures
            r == self.contains_spec(path@),
    {
        self.find_index(path).is_some()
    }

    /// Adds a regular file under a path not yet present.
    pub fn add_file(&mut self, path: String, content: Vec<u8>)
        requires
            old(self).wf(),
            !old(self).contains_spec(path@),
        ensures
            final(self).wf(),
            final(self).entry_spec(path@) == Some(FsEntry::File(content)),
            forall|p: Seq<char>|
                p != path@ ==> final(self).entry_spec(p) == old(self).entry_spec(p),
    {
        let ghost old_self = *self;
        let ghost pv = path@;
        let ne = (path, FsEntry::File(content));
        self.entries.push(ne);
        proof {
            let n = old_self.entries@.len() as int;
            assert(self.entries@ =~= old_self.entries@.push(self.entries@[n]));
            assert(self.entries@[n].0@ == pv);
            lemma_find_entry_none_inverse(old_self.entries@, pv);
            assert forall|k: int| 0 <= k < n implies self.entries@[k].0@ != pv by {
                assert(self.entries@[k] == old_self.entries@[k]);
            }
            lemma_find_entry_at(self.entries@, pv, n);
            assert forall|p: Seq<char>| p != pv implies final(self).entry_spec(p) == old_self.entry_spec(
                p,
            ) by {
                lemma_find_entry_push(old_self.entries@, self.entries@[n], p);
            }
        }
    }

    /// Removes whatever lies under `path`; an absent path removes
    /// nothing and reports `false`.
    pub fn remove_path(&mut self, path: &String) -> (removed: bool)
        requires
            old(self).wf(),
        ensures
            final(self).wf(),
            removed == old(self).contains_spec(path@),
            final(self).entry_spec(path@) is None,
            forall|p: Seq<char>|
                p != path@ ==> final(self).entry_spec(p) == old(self).entry_spec(p),
    {
        let ghost old_self = *self;
        match self.find_index(path) {
            Some(i) => {
                self.entries.remove(i);
                proof {
                    let ii = i as int;
                    assert(self.entries@ =~= old_self.entries@.remove(ii));
                    assert forall|k: int|
                        0 <= k < self.entries@.len() implies self.entries@[k].0@ != path@ by {
                        if k < ii {
                            assert(self.entries@[k] == old_self.entries@[k]);
                        } else {
                            assert(self.entries@[k] == old_self.entries@[k + 1]);
                        }
                    }
                    lemma_find_entry_none(self.entries@, path@);
                    assert forall|p: Seq<char>|
                        p != path@ implies final(self).entry_spec(p) == old_self.entry_spec(p) by {
                        lemma_find_entry_remove(old_self.entries@, ii, p);
                    }
                    assert forall|i0: int, j0: int|
                        0 <= i0 < j0 < self.entries@.len() implies self.entries@[i0].0@
                        != self.entries@[j0].0@ by {
                        let oi = if i0 < ii { i0 } else { i0 + 1 };
                        let oj = if j0 < ii { j0 } else { j0 + 1 };
                        assert(self.entries@[i0] == old_self.entries@[oi]);
                        assert(self.entries@[j0] == old_self.entries@[oj]);
                    }
                }
                true
            },
            None => false,
        }
    }

    /// Places `entry` under a path not currently present.
    fn place_entry(&mut self, path: String, entry: FsEntry)
        requires
            old(self).wf(),
            !old(self).contains_spec(path@),
        ensures
            final(self).wf(),
            final(self).entry_spec(path@) == Some(entry),
            forall|p: Seq<char>|
                p != path@ ==> final(self).entry_spec(p) == old(self).entry_spec(p),
    {
        let ghost old_self = *self;
        let ghost pv = path@;
        let ne = (path, entry);
        self.entries.push(ne);
        proof {
            let n = old_self.entries@.len() as int;
            assert(self.entries@ =~= old_self.entries@.push(self.entries@[n]));
            assert(self.entries@[n].0@ == pv);
            lemma_find_entry_none_inverse(old_self.entries@, pv);
            assert forall|k: int| 0 <= k < n implies self.entries@[k].0@ != pv by {
                assert(self.entries@[k] == old_self.entries@[k]);
            }
            lemma_find_entry_at(self.entries@, pv, n);
            assert forall|p: Seq<char>| p != pv implies final(self).entry_spec(p) == old_self.entry_spec(
                p,
            ) by {
                lemma_find_entry_push(old_self.entries@, self.entries@[n], p);
            }
        }
    }

    /// The content a read of `path` yields, following one symbolic-link
    /// hop.
    pub fn resolve_content(&self, path: &String) -> (r: Option<&Vec<u8>>)
        ensures
            match r {
                Some(c) => self.resolved_spec(path@) == Some(c@),
                None => self.resolved_spec(path@) is None,
            },
    {
        match self.find_index(path) {
            Some(i) => match &self.entries[i].1 {
                FsEntry::File(c) => Some(c),
                FsEntry::Symlink(t) => {
                    match self.find_index(t) {
                        Some(j) => match &self.entries[j].1 {
                            FsEntry::File(c) => Some(c),
                            FsEntry::Symlink(_) => None,
                        },
                        None => None,
                    }
                },
            },
            None => None,
        }
    }
}

/// Applies `action` to one confirmed duplicate pair, on the model.
///
/// Removal is idempotent: a duplicate already gone counts as success
/// (`Skipped`), never as an error, so applying a removal twice cannot
/// fail.  Replacing by a link removes the duplicate first; if the link
/// step then cannot be taken, the duplicate's path stays absent and the
/// pair fails, the removal is not undone.
pub fn resolve(m: &mut FsModel, pair: &DuplicatePair, action: ResolutionAction) -> (r: Result<
    ResolutionState,
    ResolutionError,
>)
    requires
        old(m).wf(),
    ensures
        final(m).wf(),
        action == ResolutionAction::ReportOnly ==> *final(m) == *old(m) && r == Ok::<
            ResolutionState,
            ResolutionError,
        >(ResolutionState::Reported),
        (action == ResolutionAction::Delete || action == ResolutionAction::Recycle || action
            == ResolutionAction::Shred) ==> final(m).entry_spec(pair.duplicate@) is None && (forall|
            p: Seq<char>,
        |
            p != pair.duplicate@ ==> final(m).entry_spec(p) == old(m).entry_spec(p)) && r == Ok::<
            ResolutionState,
            ResolutionError,
        >(
            if old(m).contains_spec(pair.duplicate@) {
                ResolutionState::Disposed
            } else {
                ResolutionState::Skipped
            },
        ),
        action == ResolutionAction::Symlink ==> (match final(m).entry_spec(pair.duplicate@) {
            Some(FsEntry::Symlink(t)) => t@ == pair.original@,
            _ => false,
        }) && (forall|p: Seq<char>|
            p != pair.duplicate@ ==> final(m).entry_spec(p) == old(m).entry_spec(p)) && r == Ok::<
            ResolutionState,
            ResolutionError,
        >(ResolutionState::Linked),
        action == ResolutionAction::Symlink && pair.original@ != pair.duplicate@ ==> (match old(
            m,
        ).entry_spec(pair.original@) {
            Some(FsEntry::File(c)) => final(m).resolved_spec(pair.duplicate@) == Some(c@),
            _ => true,
        }),
        action == ResolutionAction::Hardlink ==> (forall|p: Seq<char>|
            p != pair.duplicate@ ==> final(m).entry_spec(p) == old(m).entry_spec(p)) && (
        if pair.original@ != pair.duplicate@ {
            match old(m).entry_spec(pair.original@) {
                Some(FsEntry::File(c)) => (match final(m).entry_spec(pair.duplicate@) {
                    Some(FsEntry::File(c2)) => c2@ == c@,
                    _ => false,
                }) && r == Ok::<ResolutionState, ResolutionError>(ResolutionState::Linked),
                _ => final(m).entry_spec(pair.duplicate@) is None && r == Err::<
                    ResolutionState,
                    ResolutionError,
                >(ResolutionError::Io),
            }
        } else {
            final(m).entry_spec(pair.duplicate@) is None && r == Err::<
                ResolutionState,
                ResolutionError,
            >(ResolutionError::Io)
        }),
{
    match action {
        ResolutionAction::ReportOnly => Ok(ResolutionState::Reported),
        ResolutionAction::Delete | ResolutionAction::Recycle | ResolutionAction::Shred => {
            let removed = m.remove_path(&pair.duplicate);
            if removed {
                Ok(ResolutionState::Disposed)
            } else {
                Ok(ResolutionState::Skipped)
            }
        },
        ResolutionAction::Symlink => {
            m.remove_path(&pair.duplicate);
            let target = pair.original.clone();
            let link_path = pair.duplicate.clone();
            m.place_entry(link_path, FsEntry::Symlink(target));
            Ok(ResolutionState::Linked)
        },
        ResolutionAction::Hardlink => {
            m.remove_path(&pair.duplicate);
            let content_opt = match m.find_index(&pair.original) {
                Some(i) => match &m.entries[i].1 {
                    FsEntry::File(c) => Some(vstd::slice::slice_to_vec(c.as_slice())),
                    FsEntry::Symlink(_) => None,
                },
                None => None,
            };
            match content_opt {
                Some(content) => {
                    let link_path = pair.duplicate.clone();
                    m.place_entry(link_path, FsEntry::File(content));
                    Ok(ResolutionState::Linked)
                },
                None => Err(ResolutionError::Io),
            }
        },
    }
}

/// How the outcome of removing a duplicate's real file is judged.
#[derive(Clone, Copy, Debug, PartialEq, Eq, Structural)]
pub enum RemoveOutcome {
    /// The file existed and was removed.
    Removed,
    /// Nothing was there to remove.
    AlreadyAbsent,
    /// The removal failed, e.g. for lack of permission.
    Failed,
}

/// Judges a real removal: a file already gone is success, not an
/// error, so removing the same duplicate twice cannot fail the second
/// time.
pub fn interpret_remove_outcome(o: RemoveOutcome) -> (r: Result<ResolutionState, ResolutionError>)
    ensures
        o == RemoveOutcome::Removed ==> r == Ok::<ResolutionState, ResolutionError>(
            ResolutionState::Disposed,
        ),
        o == RemoveOutcome::AlreadyAbsent ==> r == Ok::<ResolutionState, ResolutionError>(
            ResolutionState::Skipped,
        ),
        o == RemoveOutcome::Failed ==> r == Err::<ResolutionState, ResolutionError>(
            ResolutionError::Io,
        ),
{
    match o {
        RemoveOutcome::Removed => Ok(ResolutionState::Disposed),
        RemoveOutcome::AlreadyAbsent => Ok(ResolutionState::Skipped),
        RemoveOutcome::Failed => Err(ResolutionError::Io),
    }
}

/// What creating the replacement link at the duplicate's old path came
/// to.
#[derive(Clone, Copy, Debug, PartialEq, Eq, Structural)]
pub enum LinkOutcome {
    /// The link stands at the duplicate's former path.
    Created,
    /// The link could not be created.
    Failed,
}

/// Judges a real link creation, after the duplicate's removal: a link
/// in place ends the pair `Linked`; a failure surfaces as `Io`, and the
/// duplicate's path is left absent — the removal is not undone.
pub fn interpret_link_outcome(o: LinkOutcome) -> (r: Result<ResolutionState, ResolutionError>)
    ensures
        o == LinkOutcome::Created ==> r == Ok::<ResolutionState, ResolutionError>(
            ResolutionState::Linked,
        ),
        o == LinkOutcome::Failed ==> r == Err::<ResolutionState, ResolutionError>(
            ResolutionError::Io,
        ),
{
    match o {
        LinkOutcome::Created => Ok(ResolutionState::Linked),
        LinkOutcome::Failed => Err(ResolutionError::Io),
    }
}

/// What the external disposal sink reported.
#[derive(Clone, Copy, Debug, PartialEq, Eq, Structural)]
pub enum SinkOutcome {
    /// The sink took the path.
    Accepted,
    /// The sink refused or failed.
    Refused,
}

/// Judges a disposal sink's answer: a refusal surfaces as
/// `DisposalFailed` for this pair alone.
pub fn interpret_sink_outcome(o: SinkOutcome) -> (r: Result<ResolutionState, ResolutionError>)
    ensures
        o == SinkOutcome::Accepted ==> r == Ok::<ResolutionState, ResolutionError>(
            ResolutionState::Disposed,
        ),
        o == SinkOutcome::Refused ==> r == Err::<ResolutionState, ResolutionError>(
            ResolutionError::DisposalFailed,
        ),
{
    match o {
        SinkOutcome::Accepted => Ok(ResolutionState::Disposed),
        SinkOutcome::Refused => Err(ResolutionError::DisposalFailed),
    }
}

} // verus!
