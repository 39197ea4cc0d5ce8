//! Pure parts of the git integration: recognising git's seven-argument
//! diff-driver invocation, the null-file sentinels, and the policy
//! values for the `git config` keys that install, uninstall and status
//! operate on.  Running `git` itself is process work and lives outside
//! the library.

use vstd::prelude::*;

verus! {

/// Errors of the git integration.
#[derive(Debug)]
pub enum GitError {
    /// `git` could not be executed at all.
    CommandFailed(String),
    /// `git` is not installed or not on the search path.
    GitNotFound,
    /// The running executable's own path could not be determined.
    ExecutableNotFound,
    /// `git` ran and reported an error.
    GitError(String),
}

/// Result of a git operation.
pub type GitResult<T> = Result<T, GitError>;

impl GitError {
    /// A human-readable description of the error.
    pub fn message(&self) -> (r: String)
        ensures
            match self {
                GitError::CommandFailed(s) => r@ == "Failed to execute git command: "@ + s@,
                GitError::GitNotFound => r@ == "Git is not installed or not in PATH"@,
                GitError::ExecutableNotFound => r@
                    == "Failed to determine sdiff executable path"@,
                GitError::GitError(s) => r@ == "Git command returned error: "@ + s@,
            },
    {
        match self {
            GitError::CommandFailed(s) => {
                let mut m = "Failed to execute git command: ".to_owned();
                m.append(s.as_str());
                m
            },
            GitError::GitNotFound => "Git is not installed or not in PATH".to_owned(),
            GitError::ExecutableNotFound => "Failed to determine sdiff executable path".to_owned(),
            GitError::GitError(s) => {
                let mut m = "Git command returned error: ".to_owned();
                m.append(s.as_str());
                m
            },
        }
    }
}

/// A hexadecimal digit.
pub open spec fn is_hex_digit(c: char) -> bool {
    ('0' <= c && c <= '9') || ('a' <= c && c <= 'f') || ('A' <= c && c <= 'F')
}

/// A git blob hash: exactly forty hexadecimal digits (the all-zero
/// null hash included).
pub open spec fn is_git_hash_spec(s: Seq<char>) -> bool {
    s.len() == 40 && forall|i: int| 0 <= i < s.len() ==> is_hex_digit(#[trigger] s[i])
}

/// Whether two strings hold the same characters.
#[verifier::loop_isolation(false)]
pub(crate) fn str_eq(a: &str, b: &str) -> (r: bool)
    ensures
        r == (a@ == b@),
{
    let la = a.unicode_len();
    let lb = b.unicode_len();
    if la != lb {
        return false;
    }
    for i in 0..la
        invariant
            forall|j: int| 0 <= j < i ==> a@[j] == b@[j],
    {
        if a.get_char(i) != b.get_char(i) {
            return false;
        }
    }
    proof {
        assert(a@ =~= b@);
    }
    true
}

/// Whether `s` looks like a git blob hash.
#[verifier::loop_isolation(false)]
pub fn is_git_hash(s: &str) -> (r: bool)
    ensures
        r == is_git_hash_spec(s@),
{
    let n = s.unicode_len();
    if n != 40 {
        return false;
    }
    for i in 0..n
        invariant
            forall|j: int| 0 <= j < i ==> is_hex_digit(#[trigger] s@[j]),
    {
        let c = s.get_char(i);
        let hex = ('0' <= c && c <= '9') || ('a' <= c && c <= 'f') || ('A' <= c && c <= 'F');
        if !hex {
            return false;
        }
    }
    true
}

/// Whether git invoked the program as a diff driver: exactly seven
/// arguments whose third and sixth are blob hashes.  On recognition,
/// the old and new temporary file paths (the second and fifth
/// arguments) are returned.
pub fn detect_git_diff_driver_args(args: &[String]) -> (r: Option<(String, String)>)
    ensures
        r is Some <==> (args@.len() == 7 && is_git_hash_spec(args@[2]@) && is_git_hash_spec(
            args@[5]@,
        )),
        r matches Some(p) ==> p.0@ == args@[1]@ && p.1@ == args@[4]@,
{
    if args.len() != 7 {
        return None;
    }
    if !is_git_hash(args[2].as_str()) || !is_git_hash(args[5].as_str()) {
        return None;
    }
    Some((args[1].clone(), args[4].clone()))
}

/// Whether `path` is one of the sentinels git uses for a file that
/// does not exist.
pub fn is_null_file(path: &str) -> (r: bool)
    ensures
        r == (path@ == "/dev/null"@ || path@ == "nul"@ || path@ == "NUL"@),
{
    str_eq(path, "/dev/null") || str_eq(path, "nul") || str_eq(path, "NUL")
}

/// The difftool command line installed under `difftool.sdiff.cmd`:
/// the executable followed by git's two file placeholders.
pub fn difftool_command(exe_path: &str) -> (r: String)
    ensures
        r@ == exe_path@ + " \"$LOCAL\" \"$REMOTE\""@,
{
    let mut m = exe_path.to_owned();
    m.append(" \"$LOCAL\" \"$REMOTE\"");
    m
}

/// Whether an unset of a configuration key counts as success: either
/// git succeeded, or it exited with code five, which reports that the
/// key was not set and is a successful no-op here.
pub fn unset_outcome_ok(success: bool, exit_code: Option<i32>) -> (r: bool)
    ensures
        r == (success || exit_code == Some(5i32)),
{
    match exit_code {
        Some(c) => success || c == 5,
        None => success,
    }
}

} // verus!
