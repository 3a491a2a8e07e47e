//! Decisions taken when a translated file still fails after the automatic
//! fixes, and the signals that report a skipped or failed file.

use vstd::prelude::*;
use crate::interaction::FailureChoice;
use crate::progress::MAX_TRANSLATION_ATTEMPTS;
use crate::text::owned;

verus! {

/// Reports that a file was skipped, by the user or automatically.
pub struct SkipFileSignal;

impl SkipFileSignal {
    /// The text of the signal.
    pub fn message(&self) -> (s: String)
        ensures
            s@ == "File skipped"@,
    {
        owned("File skipped")
    }
}

/// Reports that the translation step itself failed for a file; the session
/// goes on with the next file.
pub struct TranslationFailedSignal;

impl TranslationFailedSignal {
    /// The text of the signal.
    pub fn message(&self) -> (s: String)
        ensures
            s@ == "Translation failed"@,
    {
        owned("Translation failed")
    }
}

/// What the automatic retry does once the fix attempts are used up.
#[derive(Debug, Clone, Copy, PartialEq, Eq, Structural)]
pub enum AutoRetryOutcome {
    /// Translate again from scratch (attempts remain).
    Retry,
    /// Skip the file (this was the last translation attempt).
    Skip,
}

/// The automatic outcome, where automatic retry is enabled; `None` leaves the
/// decision to the user.
pub fn resolve_auto_retry_outcome(auto_retry_enabled: bool, is_last_attempt: bool) -> (r: Option<AutoRetryOutcome>)
    ensures
        !auto_retry_enabled ==> r is None,
        auto_retry_enabled && is_last_attempt ==> r == Some(AutoRetryOutcome::Skip),
        auto_retry_enabled && !is_last_attempt ==> r == Some(AutoRetryOutcome::Retry),
{
    if !auto_retry_enabled {
        return None;
    }
    if is_last_attempt {
        Some(AutoRetryOutcome::Skip)
    } else {
        Some(AutoRetryOutcome::Retry)
    }
}

/// What happens once the fix attempts for a file are used up.
#[derive(Debug, Clone, Copy, PartialEq, Eq, Structural)]
pub enum MaxFixAction {
    /// Skip the file.
    Skip,
    /// Translate again from scratch; `auto` where no one was asked.
    RetryDirectly { auto: bool },
    /// Ask the user for a suggestion and retry.
    AddSuggestion,
    /// Let the user edit the file.
    ManualFix,
    /// Abort with the build error.
    Exit,
    /// Ask the user (no automatic outcome).
    Prompt,
}

/// The first step once the fix attempts are used up: the automatic outcome
/// where automatic retry is enabled, else the prompt.
pub fn max_fix_first_step(auto_retry_enabled: bool, is_last_attempt: bool) -> (a: MaxFixAction)
    ensures
        a == match resolve_auto_retry_outcome_spec(auto_retry_enabled, is_last_attempt) {
            Some(AutoRetryOutcome::Skip) => MaxFixAction::Skip,
            Some(AutoRetryOutcome::Retry) => MaxFixAction::RetryDirectly { auto: true },
            None => MaxFixAction::Prompt,
        },
{
    match resolve_auto_retry_outcome(auto_retry_enabled, is_last_attempt) {
        Some(AutoRetryOutcome::Skip) => MaxFixAction::Skip,
        Some(AutoRetryOutcome::Retry) => MaxFixAction::RetryDirectly { auto: true },
        None => MaxFixAction::Prompt,
    }
}

/// The automatic outcome (see [`resolve_auto_retry_outcome`]).
pub open spec fn resolve_auto_retry_outcome_spec(auto_retry_enabled: bool, is_last_attempt: bool) -> Option<AutoRetryOutcome> {
    if !auto_retry_enabled {
        None
    } else if is_last_attempt {
        Some(AutoRetryOutcome::Skip)
    } else {
        Some(AutoRetryOutcome::Retry)
    }
}

/// The action for the user's answer to the compile-failure prompt (which
/// does not offer to fix another file).
pub fn max_fix_action(choice: FailureChoice) -> (a: MaxFixAction)
    requires
        choice != FailureChoice::FixOtherFile,
    ensures
        a == match choice {
            FailureChoice::RetryDirectly => MaxFixAction::RetryDirectly { auto: false },
            FailureChoice::AddSuggestion => MaxFixAction::AddSuggestion,
            FailureChoice::ManualFix => MaxFixAction::ManualFix,
            FailureChoice::Skip => MaxFixAction::Skip,
            _ => MaxFixAction::Exit,
        },
{
    match choice {
        FailureChoice::RetryDirectly => MaxFixAction::RetryDirectly { auto: false },
        FailureChoice::AddSuggestion => MaxFixAction::AddSuggestion,
        FailureChoice::ManualFix => MaxFixAction::ManualFix,
        FailureChoice::Skip => MaxFixAction::Skip,
        _ => MaxFixAction::Exit,
    }
}

/// What follows a manual fix whose build or tests still fail, by the user's answer.
#[derive(Debug, Clone, Copy, PartialEq, Eq, Structural)]
pub enum ManualFixStep {
    /// Open the editor again.
    EditAgain,
    /// Build and test again with the current edits.
    Rebuild,
    /// Leave this file to fix another one.
    SkipFile,
    /// Stop with the build or test error.
    Exit,
    /// An answer this prompt does not offer; stop.
    Unexpected,
}

/// The next step after a failed manual fix: edit again, build again (the
/// prompt's "retry build" answer, reported as `Skip`), move on to another
/// file, or stop.
pub fn manual_fix_next_step(choice: FailureChoice) -> (s: ManualFixStep)
    ensures
        s == match choice {
            FailureChoice::ManualFix => ManualFixStep::EditAgain,
            FailureChoice::Skip => ManualFixStep::Rebuild,
            FailureChoice::FixOtherFile => ManualFixStep::SkipFile,
            FailureChoice::Exit => ManualFixStep::Exit,
            _ => ManualFixStep::Unexpected,
        },
{
    match choice {
        FailureChoice::ManualFix => ManualFixStep::EditAgain,
        FailureChoice::Skip => ManualFixStep::Rebuild,
        FailureChoice::FixOtherFile => ManualFixStep::SkipFile,
        FailureChoice::Exit => ManualFixStep::Exit,
        _ => ManualFixStep::Unexpected,
    }
}

/// A retry from scratch asked for on the last translation attempt.
pub struct NoRetriesLeft;

impl NoRetriesLeft {
    /// The text of the error.
    pub fn message(&self) -> (s: String)
        ensures
            s@ == "RetryDirectly selected on last translation attempt — no retries remaining"@,
    {
        owned("RetryDirectly selected on last translation attempt — no retries remaining")
    }
}

/// The outcome of a retry from scratch: refused on the last attempt, else
/// `(false, 0, true)` (not finished, no fix attempts, restarted) and the
/// number of retries that remain.
pub fn retry_directly(attempt_number: usize, is_last_attempt: bool) -> (r: Result<((bool, usize, bool), usize), NoRetriesLeft>)
    requires
        attempt_number <= MAX_TRANSLATION_ATTEMPTS,
    ensures
        is_last_attempt ==> r is Err,
        !is_last_attempt ==> (r matches Ok((o, left)) && o == (false, 0usize, true)
            && left == MAX_TRANSLATION_ATTEMPTS - attempt_number),
{
    if is_last_attempt {
        return Err(NoRetriesLeft);
    }
    Ok(((false, 0, true), MAX_TRANSLATION_ATTEMPTS - attempt_number))
}

} // verus!
