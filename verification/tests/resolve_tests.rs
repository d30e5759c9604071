use deduplicate_files::record::DuplicatePair;
use deduplicate_files::resolve::{
    interpret_link_outcome, interpret_remove_outcome, interpret_sink_outcome, resolve, FsEntry,
    FsModel, LinkOutcome, RemoveOutcome, ResolutionAction, ResolutionError, ResolutionState,
    SinkOutcome,
};

fn model_with_pair() -> (FsModel, DuplicatePair) {
    let mut m = FsModel::new();
    m.add_file("a/alpha.txt".to_string(), b"hello".to_vec());
    m.add_file("b/alpha_copy.txt".to_string(), b"hello".to_vec());
    let pair = DuplicatePair {
        original: "a/alpha.txt".to_string(),
        duplicate: "b/alpha_copy.txt".to_string(),
    };
    (m, pair)
}

#[test]
fn report_only_mutates_nothing() {
    let (mut m, pair) = model_with_pair();
    let r = resolve(&mut m, &pair, ResolutionAction::ReportOnly);
    assert_eq!(r, Ok(ResolutionState::Reported));
    assert!(m.contains(&pair.duplicate));
    assert!(m.contains(&pair.original));
}

#[test]
fn delete_removes_the_duplicate_and_keeps_the_original() {
    let (mut m, pair) = model_with_pair();
    let r = resolve(&mut m, &pair, ResolutionAction::Delete);
    assert_eq!(r, Ok(ResolutionState::Disposed));
    assert!(!m.contains(&pair.duplicate));
    assert!(m.contains(&pair.original));
}

#[test]
fn delete_twice_does_not_error() {
    // removing an already-deleted duplicate is success, not an error
    let (mut m, pair) = model_with_pair();
    assert_eq!(resolve(&mut m, &pair, ResolutionAction::Delete), Ok(ResolutionState::Disposed));
    assert_eq!(resolve(&mut m, &pair, ResolutionAction::Delete), Ok(ResolutionState::Skipped));
    assert!(!m.contains(&pair.duplicate));
}

#[test]
fn recycle_and_shred_dispose_of_the_duplicate() {
    let (mut m, pair) = model_with_pair();
    assert_eq!(resolve(&mut m, &pair, ResolutionAction::Recycle), Ok(ResolutionState::Disposed));
    let (mut m2, pair2) = model_with_pair();
    assert_eq!(resolve(&mut m2, &pair2, ResolutionAction::Shred), Ok(ResolutionState::Disposed));
}

#[test]
fn symlink_leaves_a_link_resolving_to_the_original_content() {
    let (mut m, pair) = model_with_pair();
    let r = resolve(&mut m, &pair, ResolutionAction::Symlink);
    assert_eq!(r, Ok(ResolutionState::Linked));
    // the duplicate's old path now holds a link to the original
    let mut seen_link = false;
    for (p, e) in m.entries.iter() {
        if p == &pair.duplicate {
            match e {
                FsEntry::Symlink(t) => {
                    assert_eq!(t, &pair.original);
                    seen_link = true;
                }
                FsEntry::File(_) => panic!("expected a symbolic link"),
            }
        }
    }
    assert!(seen_link);
    // a read through the link yields the original's bytes
    let content = m.resolve_content(&pair.duplicate).unwrap();
    assert_eq!(content.as_slice(), b"hello");
}

#[test]
fn hardlink_copies_the_original_content_to_the_duplicate_path() {
    let (mut m, pair) = model_with_pair();
    let r = resolve(&mut m, &pair, ResolutionAction::Hardlink);
    assert_eq!(r, Ok(ResolutionState::Linked));
    let content = m.resolve_content(&pair.duplicate).unwrap();
    assert_eq!(content.as_slice(), b"hello");
}

#[test]
fn hardlink_without_an_original_fails_and_leaves_the_path_absent() {
    let mut m = FsModel::new();
    m.add_file("b/alpha_copy.txt".to_string(), b"hello".to_vec());
    let pair = DuplicatePair {
        original: "a/gone.txt".to_string(),
        duplicate: "b/alpha_copy.txt".to_string(),
    };
    let r = resolve(&mut m, &pair, ResolutionAction::Hardlink);
    assert_eq!(r, Err(ResolutionError::Io));
    assert!(!m.contains(&pair.duplicate));
}

#[test]
fn remove_outcomes_are_judged_idempotently() {
    assert_eq!(interpret_remove_outcome(RemoveOutcome::Removed), Ok(ResolutionState::Disposed));
    assert_eq!(
        interpret_remove_outcome(RemoveOutcome::AlreadyAbsent),
        Ok(ResolutionState::Skipped)
    );
    assert_eq!(interpret_remove_outcome(RemoveOutcome::Failed), Err(ResolutionError::Io));
}

#[test]
fn link_outcomes_end_linked_or_io() {
    assert_eq!(interpret_link_outcome(LinkOutcome::Created), Ok(ResolutionState::Linked));
    assert_eq!(interpret_link_outcome(LinkOutcome::Failed), Err(ResolutionError::Io));
}

#[test]
fn sink_refusal_surfaces_as_disposal_failure() {
    assert_eq!(interpret_sink_outcome(SinkOutcome::Accepted), Ok(ResolutionState::Disposed));
    assert_eq!(
        interpret_sink_outcome(SinkOutcome::Refused),
        Err(ResolutionError::DisposalFailed)
    );
}
