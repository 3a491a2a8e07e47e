//! The choices the user is offered at each decision point, and which choice
//! each offered option stands for.

use vstd::prelude::*;

verus! {

/// What to do with a translation that built and passed its tests.
#[derive(Debug, Clone, Copy, PartialEq, Eq, Structural)]
pub enum CompileSuccessChoice {
    Accept,
    AutoAccept,
    ManualFix,
    Exit,
}

/// What to do after a failure.
#[derive(Debug, Clone, Copy, PartialEq, Eq, Structural)]
pub enum FailureChoice {
    /// Translate again from scratch, without a suggestion.
    RetryDirectly,
    /// Give the translator a suggestion, then retry.
    AddSuggestion,
    /// Edit the file by hand.
    ManualFix,
    /// Leave the file for later.
    Skip,
    /// Abort.
    Exit,
    /// Fix another file that the errors point at.
    FixOtherFile,
}

/// What to do with the files that were skipped.
#[derive(Debug, Clone, Copy, PartialEq, Eq, Structural)]
pub enum SkippedFilesChoice {
    ProcessNow,
    ExitForLater,
}

/// What to do when earlier progress is found.
#[derive(Debug, Clone, Copy, PartialEq, Eq, Structural)]
pub enum ContinueChoice {
    /// Resume where the earlier session stopped.
    Continue,
    /// Clear all progress and start again.
    Restart,
    /// Reprocess the files the earlier session skipped.
    FixSkippedFiles,
}

/// The choice for option `i` of the prompt after a successful build and test
/// (accept, auto-accept, manual fix, exit).
pub fn compile_success_choice_at(i: usize) -> (c: CompileSuccessChoice)
    requires
        i < 4,
    ensures
        c == seq![
            CompileSuccessChoice::Accept,
            CompileSuccessChoice::AutoAccept,
            CompileSuccessChoice::ManualFix,
            CompileSuccessChoice::Exit,
        ][i as int],
{
    if i == 0 {
        CompileSuccessChoice::Accept
    } else if i == 1 {
        CompileSuccessChoice::AutoAccept
    } else if i == 2 {
        CompileSuccessChoice::ManualFix
    } else {
        CompileSuccessChoice::Exit
    }
}

/// The choice for option `i` of the general failure prompt (manual fix, skip, exit).
pub fn failure_choice_at(i: usize) -> (c: FailureChoice)
    requires
        i < 3,
    ensures
        c == seq![FailureChoice::ManualFix, FailureChoice::Skip, FailureChoice::Exit][i as int],
{
    if i == 0 {
        FailureChoice::ManualFix
    } else if i == 1 {
        FailureChoice::Skip
    } else {
        FailureChoice::Exit
    }
}

/// The choice for option `i` of the prompt after a manual fix still fails
/// (build again with the current edits, edit again, exit); building again is
/// reported as `Skip`.
pub fn after_manual_fix_choice_at(i: usize) -> (c: FailureChoice)
    requires
        i < 3,
    ensures
        c == seq![FailureChoice::Skip, FailureChoice::ManualFix, FailureChoice::Exit][i as int],
{
    if i == 0 {
        FailureChoice::Skip
    } else if i == 1 {
        FailureChoice::ManualFix
    } else {
        FailureChoice::Exit
    }
}

/// The choice for option `i` of the test-failure and build-failure prompts
/// (retry, add a suggestion, manual fix, exit).
pub fn retry_failure_choice_at(i: usize) -> (c: FailureChoice)
    requires
        i < 4,
    ensures
        c == seq![
            FailureChoice::RetryDirectly,
            FailureChoice::AddSuggestion,
            FailureChoice::ManualFix,
            FailureChoice::Exit,
        ][i as int],
{
    if i == 0 {
        FailureChoice::RetryDirectly
    } else if i == 1 {
        FailureChoice::AddSuggestion
    } else if i == 2 {
        FailureChoice::ManualFix
    } else {
        FailureChoice::Exit
    }
}

/// The choice for option `i` of the compile-failure prompt (retry, add a
/// suggestion, manual fix, skip, exit).
pub fn compile_failure_choice_at(i: usize) -> (c: FailureChoice)
    requires
        i < 5,
    ensures
        c == seq![
            FailureChoice::RetryDirectly,
            FailureChoice::AddSuggestion,
            FailureChoice::ManualFix,
            FailureChoice::Skip,
            FailureChoice::Exit,
        ][i as int],
{
    if i == 0 {
        FailureChoice::RetryDirectly
    } else if i == 1 {
        FailureChoice::AddSuggestion
    } else if i == 2 {
        FailureChoice::ManualFix
    } else if i == 3 {
        FailureChoice::Skip
    } else {
        FailureChoice::Exit
    }
}

/// The choice for option `i` of the skipped-files prompt (process now, later).
pub fn skipped_files_choice_at(i: usize) -> (c: SkippedFilesChoice)
    requires
        i < 2,
    ensures
        c == seq![SkippedFilesChoice::ProcessNow, SkippedFilesChoice::ExitForLater][i as int],
{
    if i == 0 {
        SkippedFilesChoice::ProcessNow
    } else {
        SkippedFilesChoice::ExitForLater
    }
}

/// The choice for option `i` of the resume prompt (continue, start fresh and,
/// offered only where files were skipped, reprocess the skipped files).
pub fn continue_choice_at(i: usize) -> (c: ContinueChoice)
    requires
        i < 3,
    ensures
        c == seq![ContinueChoice::Continue, ContinueChoice::Restart, ContinueChoice::FixSkippedFiles][i as int],
{
    if i == 0 {
        ContinueChoice::Continue
    } else if i == 1 {
        ContinueChoice::Restart
    } else {
        ContinueChoice::FixSkippedFiles
    }
}

} // verus!
