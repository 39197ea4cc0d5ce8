use sdiff::git::detect_git_diff_driver_args;
use sdiff::git::difftool_command;
use sdiff::git::is_git_hash;
use sdiff::git::is_null_file;
use sdiff::git::unset_outcome_ok;
use sdiff::git::GitError;

#[test]
fn test_is_git_hash_valid() {
    // Valid SHA-1 hash
    assert!(is_git_hash("a1b2c3d4e5f6a1b2c3d4e5f6a1b2c3d4e5f6a1b2"));
    // Null hash (40 zeros)
    assert!(is_git_hash("0000000000000000000000000000000000000000"));
    // All hex characters
    assert!(is_git_hash("abcdef0123456789abcdef0123456789abcdef01"));
}

#[test]
fn test_is_git_hash_invalid() {
    // Too short
    assert!(!is_git_hash("a1b2c3"));
    // Too long
    assert!(!is_git_hash("a1b2c3d4e5f6a1b2c3d4e5f6a1b2c3d4e5f6a1b2c3"));
    // Invalid characters
    assert!(!is_git_hash("g1b2c3d4e5f6a1b2c3d4e5f6a1b2c3d4e5f6a1b2"));
    // Empty
    assert!(!is_git_hash(""));
}

#[test]
fn test_detect_git_diff_driver_args_valid() {
    let args = vec![
        "file.json".to_string(),
        "/tmp/old_file".to_string(),
        "a1b2c3d4e5f6a1b2c3d4e5f6a1b2c3d4e5f6a1b2".to_string(),
        "100644".to_string(),
        "/tmp/new_file".to_string(),
        "b2c3d4e5f6a1b2c3d4e5f6a1b2c3d4e5f6a1b2c3".to_string(),
        "100644".to_string(),
    ];

    let result = detect_git_diff_driver_args(&args);
    assert!(result.is_some());

    let (old, new) = result.unwrap();
    assert_eq!(old, "/tmp/old_file");
    assert_eq!(new, "/tmp/new_file");
}

#[test]
fn test_detect_git_diff_driver_args_wrong_count() {
    // Too few arguments
    let args = vec!["file1.json".to_string(), "file2.json".to_string()];
    assert!(detect_git_diff_driver_args(&args).is_none());

    // Too many arguments
    let args = vec![
        "1".to_string(),
        "2".to_string(),
        "3".to_string(),
        "4".to_string(),
        "5".to_string(),
        "6".to_string(),
        "7".to_string(),
        "8".to_string(),
    ];
    assert!(detect_git_diff_driver_args(&args).is_none());
}

#[test]
fn test_detect_git_diff_driver_args_invalid_hashes() {
    let args = vec![
        "file.json".to_string(),
        "/tmp/old_file".to_string(),
        "not_a_hash".to_string(),
        "100644".to_string(),
        "/tmp/new_file".to_string(),
        "also_not_a_hash".to_string(),
        "100644".to_string(),
    ];

    assert!(detect_git_diff_driver_args(&args).is_none());
}

#[test]
fn test_is_null_file() {
    assert!(is_null_file("/dev/null"));
    assert!(is_null_file("nul"));
    assert!(is_null_file("NUL"));
    assert!(!is_null_file("/tmp/file.json"));
    assert!(!is_null_file("file.json"));
}

#[test]
fn test_difftool_command() {
    let cmd = difftool_command("/usr/bin/sdiff");
    assert_eq!(cmd, "/usr/bin/sdiff \"$LOCAL\" \"$REMOTE\"");
}

#[test]
fn test_unset_outcome() {
    assert!(unset_outcome_ok(true, Some(0)));
    assert!(unset_outcome_ok(false, Some(5)));
    assert!(!unset_outcome_ok(false, Some(1)));
    assert!(!unset_outcome_ok(false, None));
}

#[test]
fn test_git_error_messages() {
    assert_eq!(
        GitError::CommandFailed("boom".to_string()).message(),
        "Failed to execute git command: boom"
    );
    assert_eq!(GitError::GitNotFound.message(), "Git is not installed or not in PATH");
    assert_eq!(
        GitError::ExecutableNotFound.message(),
        "Failed to determine sdiff executable path"
    );
    assert_eq!(
        GitError::GitError("bad key".to_string()).message(),
        "Git command returned error: bad key"
    );
}
