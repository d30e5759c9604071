use deduplicate_files::args::{clap, ArgsError};

fn argv(tokens: &[&str]) -> Vec<String> {
    tokens.iter().map(|t| t.to_string()).collect()
}

#[test]
fn empty_arguments_are_accepted() {
    let a = clap(argv(&[])).unwrap();
    assert_eq!(a.verbose, 0);
    assert!(!a.find_clones);
    assert!(!a.print);
    assert!(a.paths.is_empty());
}

#[test]
fn flags_and_paths_are_sorted_out() {
    let a = clap(argv(&["--find-clones", "--print", "dir_a", "dir_b"])).unwrap();
    assert!(a.find_clones);
    assert!(!a.find_cloned);
    assert!(!a.find_uniques);
    assert!(a.print);
    assert_eq!(a.paths, vec!["dir_a".to_string(), "dir_b".to_string()]);
}

#[test]
fn paths_keep_their_order_around_flags() {
    let a = clap(argv(&["one", "--print", "two", "-v", "three"])).unwrap();
    assert_eq!(
        a.paths,
        vec!["one".to_string(), "two".to_string(), "three".to_string()]
    );
}

#[test]
fn verbosity_counts_occurrences() {
    let a = clap(argv(&["-v", "--verbose", "-v"])).unwrap();
    assert_eq!(a.verbose, 3);
}

#[test]
fn an_unknown_flag_is_rejected() {
    assert_eq!(clap(argv(&["--frobnicate"])).unwrap_err(), ArgsError::UnknownFlag);
}

#[test]
fn two_actions_conflict() {
    assert_eq!(
        clap(argv(&["--find-clones", "--delete", "--recycle"])).unwrap_err(),
        ArgsError::ConflictingActions
    );
}

#[test]
fn an_action_requires_find_clones() {
    assert_eq!(
        clap(argv(&["--delete"])).unwrap_err(),
        ArgsError::ActionRequiresFindClones
    );
    assert_eq!(
        clap(argv(&["--symlink", "dir"])).unwrap_err(),
        ArgsError::ActionRequiresFindClones
    );
}

#[test]
fn one_action_with_find_clones_is_accepted() {
    let a = clap(argv(&["--find-clones", "--delete", "dir"])).unwrap();
    assert!(a.delete);
    assert!(!a.recycle);
    assert!(!a.shred);
    assert!(!a.symlink);
    assert!(!a.hardlink);
    assert_eq!(a.paths, vec!["dir".to_string()]);
}

#[test]
fn every_action_flag_is_recognised() {
    assert!(clap(argv(&["--find-clones", "--recycle"])).unwrap().recycle);
    assert!(clap(argv(&["--find-clones", "--shred"])).unwrap().shred);
    assert!(clap(argv(&["--find-clones", "--symlink"])).unwrap().symlink);
    assert!(clap(argv(&["--find-clones", "--hardlink"])).unwrap().hardlink);
    assert!(clap(argv(&["--find-cloned"])).unwrap().find_cloned);
    assert!(clap(argv(&["--find-uniques"])).unwrap().find_uniques);
}
