use deduplicate_files::assure::{
    assure_io, assure_io_msg, assure_path_is_dir, assure_path_is_file_eq,
    assure_path_permissions_mode_eq, assure_path_permissions_readonly_eq,
    assure_paths_metadata_len_eq,
};
use deduplicate_files::comparator::assure_paths_read_bytes_eq;
use deduplicate_files::errors::AssureError;

#[test]
fn test_assure_path_is_dir_x_arity_1_return_ok() {
    let x = assure_io(true);
    assert!(x.is_ok());
}

#[test]
fn test_assure_io_x_arity_3_return_ok() {
    let x = assure_io_msg(true, "message");
    assert!(x.is_ok());
}

#[test]
fn test_assure_io_x_arity_2_return_err() {
    let x = assure_io(false);
    assert!(x.is_err());
}

#[test]
fn test_assure_io_x_arity_3_return_err() {
    let x = assure_io_msg(false, "message");
    assert!(x.is_err());
}

#[test]
fn test_assure_path_is_dir_x_dir() {
    // any directory reports itself as one
    assert_eq!(assure_path_is_dir(true, true).unwrap(), true);
}

#[test]
fn assure_path_test_assure_path_is_dir_x_dir() {
    assert_eq!(assure_path_is_dir(true, true).unwrap(), true);
}

#[test]
fn test_assure_path_is_dir_eq_x_not_dir() {
    // a regular file is no directory, whatever was expected
    assert_eq!(
        assure_path_is_dir(false, false).unwrap_err(),
        AssureError::InvalidInput
    );
}

#[test]
fn test_assure_path_is_dir_x_not_dir_and_true() {
    assert_eq!(
        assure_path_is_dir(false, true).unwrap_err(),
        AssureError::InvalidInput
    );
}

#[test]
fn test_assure_path_is_file_x_file() {
    assert_eq!(assure_path_is_file_eq(true, true).unwrap(), true);
}

#[test]
fn test_assure_path_is_file_x_file_and_true() {
    assert_eq!(assure_path_is_file_eq(true, true).unwrap(), true);
}

#[test]
fn test_assure_path_is_file_x_not_file() {
    assert_eq!(
        assure_path_is_file_eq(false, true).unwrap_err(),
        AssureError::InvalidInput
    );
}

#[test]
fn assure_path_test_assure_path_is_file_x_not_file() {
    assert_eq!(
        assure_path_is_file_eq(false, true).unwrap_err(),
        AssureError::InvalidInput
    );
}

#[test]
fn test_assure_path_permissions_readonly_eq_x_readonly_and_true() {
    assert_eq!(assure_path_permissions_readonly_eq(true, true).unwrap(), true);
}

#[test]
fn test_assure_path_permissions_readonly_eq_x_not_readonly_and_true() {
    assert_eq!(
        assure_path_permissions_readonly_eq(false, true).unwrap_err(),
        AssureError::InvalidInput
    );
}

#[test]
fn test_assure_path_permissions_readonly_x_readonly() {
    assert_eq!(assure_path_permissions_readonly_eq(true, true).unwrap(), true);
}

#[test]
fn test_assure_path_permissions_readonly_x_not_readonly() {
    assert_eq!(
        assure_path_permissions_readonly_eq(false, true).unwrap_err(),
        AssureError::InvalidInput
    );
}

#[test]
fn test_assure_path_permissions_mode_eq_values() {
    assert_eq!(assure_path_permissions_mode_eq(0o644, 0o644).unwrap(), true);
    assert_eq!(
        assure_path_permissions_mode_eq(0o644, 0o755).unwrap_err(),
        AssureError::InvalidInput
    );
}

#[test]
fn test_file_len_eq_x_equal() {
    // two six-byte regular files
    assert_eq!(assure_paths_metadata_len_eq(true, 6, true, 6).unwrap(), true);
}

#[test]
fn test_file_len_eq_x_inequal() {
    // a six-byte file against an eight-byte file
    assert_eq!(assure_paths_metadata_len_eq(true, 6, true, 8).unwrap(), false);
}

#[test]
fn test_file_len_eq_x_invalid_args() {
    // one side is not a regular file: rejected in either order
    assert_eq!(
        assure_paths_metadata_len_eq(true, 6, false, 4096).unwrap_err(),
        AssureError::InvalidInput
    );
    assert_eq!(
        assure_paths_metadata_len_eq(false, 4096, true, 6).unwrap_err(),
        AssureError::InvalidInput
    );
}

#[test]
fn test_file_bytes_eq_x_equal() {
    assert_eq!(assure_paths_read_bytes_eq(b"alpha\n", b"alpha\n").unwrap(), true);
}

#[test]
fn test_file_bytes_eq_x_inequal() {
    assert_eq!(assure_paths_read_bytes_eq(b"alpha\n", b"bravo\n").unwrap(), false);
}
