//! The tool's own git store: what is staged, and how the outcome of a commit is read.

use vstd::prelude::*;
use crate::text::{contains, owned, push_str_chars};

verus! {

/// The path staged besides `.`: the feature's Rust crate, relative to the store.
pub fn feature_stage_path(feature: &str) -> (r: String)
    ensures
        r@ == feature@ + "/rust/"@,
{
    let mut r = owned(feature);
    push_str_chars(&mut r, "/rust/");
    r
}

/// How a `git commit` ended.
#[derive(Debug, Clone, Copy, PartialEq, Eq, Structural)]
pub enum CommitOutcome {
    /// A commit was made.
    Committed,
    /// There was nothing to commit (exit code 1 and git says so).
    NothingToCommit,
    /// The commit failed.
    Failed,
}

/// Reads the outcome of `git commit` from its status, exit code and output
/// (standard output followed by standard error).
pub fn commit_outcome(success: bool, exit_code: Option<i32>, combined_output: &str) -> (r: CommitOutcome)
    ensures
        success ==> r == CommitOutcome::Committed,
        !success && exit_code == Some(1i32) && contains(combined_output@, "nothing to commit"@) ==> r
            == CommitOutcome::NothingToCommit,
        !success && !(exit_code == Some(1i32) && contains(combined_output@, "nothing to commit"@)) ==> r
            == CommitOutcome::Failed,
{
    if success {
        return CommitOutcome::Committed;
    }
    let nothing = match exit_code {
        Some(c) => c == 1 && crate::errors::contains_str(combined_output, "nothing to commit"),
        None => false,
    };
    if nothing {
        CommitOutcome::NothingToCommit
    } else {
        CommitOutcome::Failed
    }
}

/// The arguments of `git gc`: a cheap run, or an aggressive one that prunes at once.
pub fn gc_args(aggressive: bool) -> (r: Vec<&'static str>)
    ensures
        r@.map_values(|s: &str| s@) == if aggressive {
            seq!["gc"@, "--aggressive"@, "--prune=now"@]
        } else {
            seq!["gc"@]
        },
{
    let mut args: Vec<&'static str> = Vec::new();
    args.push("gc");
    if aggressive {
        args.push("--aggressive");
        args.push("--prune=now");
    }
    proof {
        if aggressive {
            assert(args@.map_values(|s: &str| s@) =~= seq!["gc"@, "--aggressive"@, "--prune=now"@]);
        } else {
            assert(args@.map_values(|s: &str| s@) =~= seq!["gc"@]);
        }
    }
    args
}

} // verus!
