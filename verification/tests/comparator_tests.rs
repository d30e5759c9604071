use deduplicate_files::comparator::{
    bytes_equal, chunk_step, same_identity, slice_bytes_eq, ChunkVerdict,
};
use deduplicate_files::errors::IoError;
use deduplicate_files::record::FileRecord;

fn rec(path: &str, len: u64, dev: u64, ino: u64, bytes: Option<&[u8]>) -> FileRecord {
    FileRecord {
        path: path.to_string(),
        len,
        dev,
        ino,
        bytes: bytes.map(|b| b.to_vec()),
    }
}

#[test]
fn same_identity_is_reflexive() {
    let p = rec("dir/p.txt", 5, 3, 7, Some(b"hello"));
    assert!(same_identity(&p, &p));
}

#[test]
fn same_identity_needs_device_and_inode() {
    let a = rec("a.txt", 5, 3, 7, Some(b"hello"));
    let b = rec("b.txt", 5, 3, 7, Some(b"hello"));
    let c = rec("c.txt", 5, 3, 8, Some(b"hello"));
    let d = rec("d.txt", 5, 4, 7, Some(b"hello"));
    assert!(same_identity(&a, &b));
    assert!(!same_identity(&a, &c));
    assert!(!same_identity(&a, &d));
}

#[test]
fn bytes_equal_is_symmetric() {
    let a = rec("a.txt", 5, 1, 1, Some(b"hello"));
    let b = rec("b.txt", 5, 1, 2, Some(b"hello"));
    let c = rec("c.txt", 5, 1, 3, Some(b"world"));
    let u = rec("u.txt", 5, 1, 4, None);
    assert_eq!(bytes_equal(&a, &b), bytes_equal(&b, &a));
    assert_eq!(bytes_equal(&a, &c), bytes_equal(&c, &a));
    assert_eq!(bytes_equal(&a, &u), bytes_equal(&u, &a));
}

#[test]
fn bytes_equal_verdicts() {
    let a = rec("a.txt", 5, 1, 1, Some(b"hello"));
    let b = rec("b.txt", 5, 1, 2, Some(b"hello"));
    let c = rec("c.txt", 5, 1, 3, Some(b"world"));
    let u = rec("u.txt", 5, 1, 4, None);
    assert_eq!(bytes_equal(&a, &b), Ok(true));
    assert_eq!(bytes_equal(&a, &c), Ok(false));
    assert_eq!(bytes_equal(&a, &u), Err(IoError::Unreadable));
}

#[test]
fn slice_bytes_eq_compares_content() {
    assert!(slice_bytes_eq(b"", b""));
    assert!(slice_bytes_eq(b"abc", b"abc"));
    assert!(!slice_bytes_eq(b"abc", b"abd"));
    assert!(!slice_bytes_eq(b"abc", b"abcd"));
}

#[test]
fn chunk_step_verdicts() {
    assert_eq!(chunk_step(b"", b""), ChunkVerdict::Equal);
    assert_eq!(chunk_step(b"abc", b"abc"), ChunkVerdict::Continue);
    assert_eq!(chunk_step(b"abc", b"abd"), ChunkVerdict::NotEqual);
    assert_eq!(chunk_step(b"abc", b"ab"), ChunkVerdict::NotEqual);
    assert_eq!(chunk_step(b"abc", b""), ChunkVerdict::NotEqual);
}
