use deduplicate_files::index::PathIndex;
use deduplicate_files::matcher::{detect_duplicates, detect_duplicates_within};
use deduplicate_files::record::FileRecord;

fn rec(path: &str, len: u64, dev: u64, ino: u64, bytes: Option<&[u8]>) -> FileRecord {
    FileRecord {
        path: path.to_string(),
        len,
        dev,
        ino,
        bytes: bytes.map(|b| b.to_vec()),
    }
}

#[test]
fn test_detect_duplicates() {
    // a/alpha.txt and b/alpha.txt hold "alpha", a/bravo.txt and
    // b/bravo.txt hold "bravo"; each b file duplicates its a twin
    let mut a_tracker = PathIndex::new();
    a_tracker.insert(rec("a/alpha.txt", 6, 1, 10, Some(b"alpha\n")));
    a_tracker.insert(rec("a/bravo.txt", 6, 1, 11, Some(b"bravo\n")));
    let mut b_tracker = PathIndex::new();
    b_tracker.insert(rec("b/alpha.txt", 6, 1, 20, Some(b"alpha\n")));
    b_tracker.insert(rec("b/bravo.txt", 6, 1, 21, Some(b"bravo\n")));
    let pairs = detect_duplicates(&a_tracker, &b_tracker);
    assert_eq!(pairs.len(), 2);
    assert_eq!(pairs[0].original, "a/alpha.txt");
    assert_eq!(pairs[0].duplicate, "b/alpha.txt");
    assert_eq!(pairs[1].original, "a/bravo.txt");
    assert_eq!(pairs[1].duplicate, "b/bravo.txt");
}

#[test]
fn round_trip_one_duplicate_and_one_unique() {
    // A holds alpha.txt="hello"; B holds alpha_copy.txt="hello" and
    // bravo.txt="world": exactly one pair, none involving bravo.txt
    let mut a = PathIndex::new();
    a.insert(rec("a/alpha.txt", 5, 1, 30, Some(b"hello")));
    let mut b = PathIndex::new();
    b.insert(rec("b/alpha_copy.txt", 5, 1, 40, Some(b"hello")));
    b.insert(rec("b/bravo.txt", 5, 1, 41, Some(b"world")));
    let pairs = detect_duplicates(&a, &b);
    assert_eq!(pairs.len(), 1);
    assert_eq!(pairs[0].original, "a/alpha.txt");
    assert_eq!(pairs[0].duplicate, "b/alpha_copy.txt");
}

#[test]
fn same_length_different_content_never_pairs() {
    // x.txt="hello" and y.txt="worLD": same length, different bytes
    let mut a = PathIndex::new();
    a.insert(rec("a/x.txt", 5, 1, 50, Some(b"hello")));
    let mut b = PathIndex::new();
    b.insert(rec("b/y.txt", 5, 1, 51, Some(b"worLD")));
    let pairs = detect_duplicates(&a, &b);
    assert_eq!(pairs.len(), 0);
}

#[test]
fn different_reported_length_never_pairs() {
    // identical bytes, but the filesystem reported different lengths:
    // length bucketing is a hard pre-filter
    let mut a = PathIndex::new();
    a.insert(rec("a/one.txt", 5, 1, 60, Some(b"hello")));
    let mut b = PathIndex::new();
    b.insert(rec("b/two.txt", 7, 1, 61, Some(b"hello")));
    let pairs = detect_duplicates(&a, &b);
    assert_eq!(pairs.len(), 0);
}

#[test]
fn hard_link_in_one_directory_yields_nothing() {
    // a file and a hard link to it: same device and inode, no pair
    let mut x = PathIndex::new();
    x.insert(rec("dir/file.txt", 5, 1, 70, Some(b"hello")));
    x.insert(rec("dir/link.txt", 5, 1, 70, Some(b"hello")));
    let pairs = detect_duplicates_within(&x);
    assert_eq!(pairs.len(), 0);
}

#[test]
fn within_one_directory_distinct_copies_pair_once() {
    // two distinct files with equal bytes in one directory pair once,
    // the earlier-seen file as the original
    let mut x = PathIndex::new();
    x.insert(rec("dir/first.txt", 5, 1, 80, Some(b"hello")));
    x.insert(rec("dir/second.txt", 5, 1, 81, Some(b"hello")));
    let pairs = detect_duplicates_within(&x);
    assert_eq!(pairs.len(), 1);
    assert_eq!(pairs[0].original, "dir/first.txt");
    assert_eq!(pairs[0].duplicate, "dir/second.txt");
}

#[test]
fn unreadable_candidate_is_skipped() {
    // the unreadable candidate cannot be confirmed, the readable one is
    let mut a = PathIndex::new();
    a.insert(rec("a/locked.txt", 5, 1, 90, None));
    a.insert(rec("a/open.txt", 5, 1, 91, Some(b"hello")));
    let mut b = PathIndex::new();
    b.insert(rec("b/copy.txt", 5, 1, 92, Some(b"hello")));
    let pairs = detect_duplicates(&a, &b);
    assert_eq!(pairs.len(), 1);
    assert_eq!(pairs[0].original, "a/open.txt");
}

#[test]
fn first_match_wins_among_equal_candidates() {
    let mut a = PathIndex::new();
    a.insert(rec("a/one.txt", 5, 1, 100, Some(b"hello")));
    a.insert(rec("a/two.txt", 5, 1, 101, Some(b"hello")));
    let mut b = PathIndex::new();
    b.insert(rec("b/copy.txt", 5, 1, 102, Some(b"hello")));
    let pairs = detect_duplicates(&a, &b);
    assert_eq!(pairs.len(), 1);
    assert_eq!(pairs[0].original, "a/one.txt");
}

#[test]
fn equal_indexes_run_as_a_self_scan() {
    // two scans of the same directory: the unordered pair is found
    // once, not once per direction
    let mut a = PathIndex::new();
    a.insert(rec("dir/first.txt", 5, 1, 120, Some(b"hello")));
    a.insert(rec("dir/second.txt", 5, 1, 121, Some(b"hello")));
    let mut b = PathIndex::new();
    b.insert(rec("dir/first.txt", 5, 1, 120, Some(b"hello")));
    b.insert(rec("dir/second.txt", 5, 1, 121, Some(b"hello")));
    let pairs = detect_duplicates(&a, &b);
    assert_eq!(pairs.len(), 1);
    assert_eq!(pairs[0].original, "dir/first.txt");
    assert_eq!(pairs[0].duplicate, "dir/second.txt");
}

#[test]
fn equal_indexes_never_pair_a_path_with_itself() {
    // two scans of the same directory holding one file: nothing pairs
    let mut a = PathIndex::new();
    a.insert(rec("dir/only.txt", 5, 1, 130, Some(b"hello")));
    let mut b = PathIndex::new();
    b.insert(rec("dir/only.txt", 5, 1, 130, Some(b"hello")));
    let pairs = detect_duplicates(&a, &b);
    assert_eq!(pairs.len(), 0);
}

#[test]
fn index_keeps_one_record_per_path() {
    let mut x = PathIndex::new();
    x.insert(rec("dir/file.txt", 5, 1, 110, Some(b"hello")));
    x.insert(rec("dir/file.txt", 5, 1, 110, Some(b"hello")));
    assert!(x.contains_path(&"dir/file.txt".to_string()));
    assert!(!x.contains_path(&"dir/other.txt".to_string()));
    let pairs = detect_duplicates_within(&x);
    assert_eq!(pairs.len(), 0);
}
