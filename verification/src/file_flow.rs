//! The course of one file through translation, build, test and acceptance:
//! the decisions between the steps, as functions from what happened to what
//! comes next.

use vstd::prelude::*;
use crate::interaction::CompileSuccessChoice;
use crate::progress::MAX_TRANSLATION_ATTEMPTS;
use crate::text::owned;

verus! {

/// The attempts spent on a file so far.
#[derive(Debug, Clone, Copy, PartialEq, Eq, Structural)]
pub struct FileAttempts {
    /// The translation attempt under way (1 to `MAX_TRANSLATION_ATTEMPTS`).
    pub attempt_number: usize,
    /// Fix attempts over all translation attempts so far.
    pub total_fix_attempts: usize,
    /// Whether some attempt threw its output away and translated anew.
    pub had_restart: bool,
}

/// What follows the acceptance step of an attempt.
#[derive(Debug, Clone, Copy, PartialEq, Eq, Structural)]
pub enum AttemptOutcome {
    /// Record the completion with these totals.
    Complete { attempts: usize, had_restart: bool, fix_attempts: usize },
    /// Translate again; this is the new state.
    Retry(FileAttempts),
    /// Every attempt was used without an outcome.
    Exhausted,
}

impl FileAttempts {
    /// The state at the first attempt.
    pub fn start() -> (s: Self)
        ensures
            s == (FileAttempts { attempt_number: 1, total_fix_attempts: 0, had_restart: false }),
    {
        FileAttempts { attempt_number: 1, total_fix_attempts: 0, had_restart: false }
    }

    /// Whether the current attempt is the last one.
    pub fn is_last_attempt(&self) -> (b: bool)
        ensures
            b == (self.attempt_number == MAX_TRANSLATION_ATTEMPTS),
    {
        self.attempt_number == MAX_TRANSLATION_ATTEMPTS
    }

    /// Adds the fix attempts of a build-and-fix round and whether it restarted.
    pub fn add_build_round(&mut self, fix_attempts: usize, did_restart: bool)
        requires
            old(self).total_fix_attempts + fix_attempts <= usize::MAX,
        ensures
            final(self).attempt_number == old(self).attempt_number,
            final(self).total_fix_attempts == old(self).total_fix_attempts + fix_attempts,
            final(self).had_restart == (old(self).had_restart || did_restart),
    {
        self.total_fix_attempts = self.total_fix_attempts + fix_attempts;
        self.had_restart = self.had_restart || did_restart;
    }

    /// Adds the fix attempts of the warning round.
    pub fn add_warning_round(&mut self, fix_attempts: usize)
        requires
            old(self).total_fix_attempts + fix_attempts <= usize::MAX,
        ensures
            final(self).attempt_number == old(self).attempt_number,
            final(self).total_fix_attempts == old(self).total_fix_attempts + fix_attempts,
            final(self).had_restart == old(self).had_restart,
    {
        self.total_fix_attempts = self.total_fix_attempts + fix_attempts;
    }

    /// What follows the acceptance step: completion with the totals so far,
    /// else another attempt while attempts remain.
    pub fn after_acceptance(&self, processing_complete: bool) -> (o: AttemptOutcome)
        requires
            1 <= self.attempt_number <= MAX_TRANSLATION_ATTEMPTS,
        ensures
            processing_complete ==> o == (AttemptOutcome::Complete {
                attempts: self.attempt_number,
                had_restart: self.had_restart,
                fix_attempts: self.total_fix_attempts,
            }),
            !processing_complete && self.attempt_number < MAX_TRANSLATION_ATTEMPTS ==> o == (AttemptOutcome::Retry(
                FileAttempts {
                    attempt_number: (self.attempt_number + 1) as usize,
                    total_fix_attempts: self.total_fix_attempts,
                    had_restart: self.had_restart,
                },
            )),
            !processing_complete && self.attempt_number == MAX_TRANSLATION_ATTEMPTS ==> o == AttemptOutcome::Exhausted,
            o == next_outcome(*self, processing_complete),
    {
        if processing_complete {
            AttemptOutcome::Complete {
                attempts: self.attempt_number,
                had_restart: self.had_restart,
                fix_attempts: self.total_fix_attempts,
            }
        } else if self.attempt_number < MAX_TRANSLATION_ATTEMPTS {
            AttemptOutcome::Retry(
                FileAttempts {
                    attempt_number: self.attempt_number + 1,
                    total_fix_attempts: self.total_fix_attempts,
                    had_restart: self.had_restart,
                },
            )
        } else {
            AttemptOutcome::Exhausted
        }
    }
}

/// What follows the acceptance step of attempt state `s` (see [`FileAttempts::after_acceptance`]).
pub open spec fn next_outcome(s: FileAttempts, processing_complete: bool) -> AttemptOutcome {
    if processing_complete {
        AttemptOutcome::Complete {
            attempts: s.attempt_number,
            had_restart: s.had_restart,
            fix_attempts: s.total_fix_attempts,
        }
    } else if s.attempt_number < MAX_TRANSLATION_ATTEMPTS {
        AttemptOutcome::Retry(
            FileAttempts {
                attempt_number: (s.attempt_number + 1) as usize,
                total_fix_attempts: s.total_fix_attempts,
                had_restart: s.had_restart,
            },
        )
    } else {
        AttemptOutcome::Exhausted
    }
}

/// The attempt state after `k` attempts in a row whose output was not
/// accepted, starting from `s`; `None` once the attempts are used up.
pub open spec fn after_failed_rounds(s: FileAttempts, k: nat) -> Option<FileAttempts>
    decreases k,
{
    if k == 0 {
        Some(s)
    } else {
        match after_failed_rounds(s, (k - 1) as nat) {
            None => None,
            Some(t) => match next_outcome(t, false) {
                AttemptOutcome::Retry(u) => Some(u),
                _ => None,
            },
        }
    }
}

/// A file is translated at most `MAX_TRANSLATION_ATTEMPTS` times: from the
/// first attempt, `k` rejected attempts lead to attempt `k + 1` while
/// `k < MAX_TRANSLATION_ATTEMPTS`, and to no further attempt after that;
/// the fix attempts and the restart flag carry over unchanged.
pub proof fn lemma_attempts_bounded(fix_attempts: usize, had_restart: bool, k: nat)
    ensures
        ({
            let s0 = FileAttempts { attempt_number: 1, total_fix_attempts: fix_attempts, had_restart };
            match after_failed_rounds(s0, k) {
                Some(t) => k < MAX_TRANSLATION_ATTEMPTS && t.attempt_number == k + 1
                    && t.total_fix_attempts == fix_attempts && t.had_restart == had_restart,
                None => k >= MAX_TRANSLATION_ATTEMPTS,
            }
        }),
    decreases k,
{
    if k > 0 {
        lemma_attempts_bounded(fix_attempts, had_restart, (k - 1) as nat);
    }
}

/// Whether the warning round runs: warnings are processed and a positive
/// number of warning fixes is allowed.
pub fn warning_round_runs(process_warnings: bool, max_warning_fix_attempts: usize) -> (b: bool)
    ensures
        b == (process_warnings && max_warning_fix_attempts > 0),
{
    process_warnings && max_warning_fix_attempts > 0
}

/// Why the warning round was left out.
pub fn warning_skip_reason(process_warnings: bool) -> (s: &'static str)
    ensures
        s@ == if !process_warnings { "C2RUST_PROCESS_WARNINGS=0/false"@ } else { "max_warning_fix_attempts=0"@ },
{
    if !process_warnings {
        "C2RUST_PROCESS_WARNINGS=0/false"
    } else {
        "max_warning_fix_attempts=0"
    }
}

/// How the tests stood when a build succeeded.
#[derive(Debug, Clone, Copy, PartialEq, Eq, Structural)]
pub enum TestStatus {
    /// The tests ran and passed.
    Passed,
    /// The test configuration is unavailable; no tests ran.
    SkippedNoConfig,
    /// The interval deferred the tests; none ran.
    DeferredByInterval,
}

/// After a successful build: the status without running the tests, or
/// `None` where the tests are to run now.
pub fn status_without_tests(skip_test: bool, skip_interval_test: bool) -> (r: Option<TestStatus>)
    ensures
        skip_test ==> r == Some(TestStatus::SkippedNoConfig),
        !skip_test && skip_interval_test ==> r == Some(TestStatus::DeferredByInterval),
        !skip_test && !skip_interval_test ==> r is None,
{
    if skip_test {
        Some(TestStatus::SkippedNoConfig)
    } else if skip_interval_test {
        Some(TestStatus::DeferredByInterval)
    } else {
        None
    }
}

/// The outcome `(processing_complete, tests_ran)` after a failed build was
/// handled interactively: a retry where it did not complete; else complete,
/// the tests having run unless they are unavailable.
pub fn after_build_failure(processing_complete: bool, skip_test: bool) -> (r: (bool, bool))
    ensures
        r == if processing_complete { (true, !skip_test) } else { (false, false) },
{
    if processing_complete {
        (true, !skip_test)
    } else {
        (false, false)
    }
}

/// The outcome `(processing_complete, tests_ran)` after failing tests: with
/// `continue_on_error` the translation is accepted (the tests did run);
/// otherwise what the interactive handling decided, the tests having run
/// where it completed.
pub fn after_test_failure(continue_on_error: bool, interactive_complete: bool) -> (r: (bool, bool))
    ensures
        r == if continue_on_error { (true, true) } else { (interactive_complete, interactive_complete) },
{
    if continue_on_error {
        (true, true)
    } else {
        (interactive_complete, interactive_complete)
    }
}

/// What to do once a build succeeded and the user (or auto-accept) decided.
#[derive(Debug, Clone, Copy, PartialEq, Eq, Structural)]
pub struct AcceptancePlan {
    /// Switch auto-accept on for the rest of the session.
    pub enable_auto_accept: bool,
    /// Open the file for editing, then rebuild; `Some(skip_test)` tells
    /// whether that rebuild leaves out the tests.
    pub manual_fix: Option<bool>,
    /// Report a build success to the code analysis (tests ran and passed).
    pub report_build_success: bool,
    /// Whether tests ran for this translation.
    pub tests_ran: bool,
}

/// The user chose to stop after a successful build.
pub struct ExitRequested {
    pub message: String,
}

/// The plan where auto-accept is on: accept without asking; the tests ran
/// (and passed) only where their status says so.
pub fn auto_accept_plan(status: TestStatus) -> (p: AcceptancePlan)
    ensures
        p == (AcceptancePlan {
            enable_auto_accept: false,
            manual_fix: None,
            report_build_success: status == TestStatus::Passed,
            tests_ran: status == TestStatus::Passed,
        }),
{
    let passed = match status {
        TestStatus::Passed => true,
        _ => false,
    };
    AcceptancePlan { enable_auto_accept: false, manual_fix: None, report_build_success: passed, tests_ran: passed }
}

/// The plan for the user's answer after a successful build.
pub fn acceptance_plan(status: TestStatus, choice: CompileSuccessChoice) -> (r: Result<AcceptancePlan, ExitRequested>)
    ensures
        match choice {
            CompileSuccessChoice::Exit => r matches Err(e) && e.message@ == match status {
                TestStatus::Passed => "User chose to exit after successful tests"@,
                TestStatus::SkippedNoConfig => "User chose to exit after successful build (tests skipped)"@,
                TestStatus::DeferredByInterval => "User chose to exit after successful build (tests deferred by interval)"@,
            },
            CompileSuccessChoice::ManualFix => r matches Ok(p) && p == (AcceptancePlan {
                enable_auto_accept: false,
                manual_fix: Some(status == TestStatus::SkippedNoConfig),
                report_build_success: status != TestStatus::SkippedNoConfig,
                tests_ran: status != TestStatus::SkippedNoConfig,
            }),
            _ => r matches Ok(p) && p == (AcceptancePlan {
                enable_auto_accept: choice == CompileSuccessChoice::AutoAccept,
                manual_fix: None,
                report_build_success: status == TestStatus::Passed,
                tests_ran: status == TestStatus::Passed,
            }),
        },
{
    let passed = match status {
        TestStatus::Passed => true,
        _ => false,
    };
    let no_config = match status {
        TestStatus::SkippedNoConfig => true,
        _ => false,
    };
    match choice {
        CompileSuccessChoice::Accept => Ok(
            AcceptancePlan { enable_auto_accept: false, manual_fix: None, report_build_success: passed, tests_ran: passed },
        ),
        CompileSuccessChoice::AutoAccept => Ok(
            AcceptancePlan { enable_auto_accept: true, manual_fix: None, report_build_success: passed, tests_ran: passed },
        ),
        CompileSuccessChoice::ManualFix => Ok(
            AcceptancePlan {
                enable_auto_accept: false,
                manual_fix: Some(no_config),
                report_build_success: !no_config,
                tests_ran: !no_config,
            },
        ),
        CompileSuccessChoice::Exit => {
            let message = match status {
                TestStatus::Passed => owned("User chose to exit after successful tests"),
                TestStatus::SkippedNoConfig => owned("User chose to exit after successful build (tests skipped)"),
                TestStatus::DeferredByInterval => owned(
                    "User chose to exit after successful build (tests deferred by interval)",
                ),
            };
            Err(ExitRequested { message })
        },
    }
}

/// A build success is reported to the code analysis only where tests ran for
/// the translation, and a manual fix without the test configuration never
/// claims that tests ran.
pub proof fn lemma_success_only_after_tests(status: TestStatus, choice: CompileSuccessChoice, p: AcceptancePlan)
    requires
        choice != CompileSuccessChoice::Exit,
        p == (match choice {
            CompileSuccessChoice::ManualFix => AcceptancePlan {
                enable_auto_accept: false,
                manual_fix: Some(status == TestStatus::SkippedNoConfig),
                report_build_success: status != TestStatus::SkippedNoConfig,
                tests_ran: status != TestStatus::SkippedNoConfig,
            },
            _ => AcceptancePlan {
                enable_auto_accept: choice == CompileSuccessChoice::AutoAccept,
                manual_fix: None,
                report_build_success: status == TestStatus::Passed,
                tests_ran: status == TestStatus::Passed,
            },
        }),
    ensures
        p.report_build_success ==> p.tests_ran,
        status == TestStatus::SkippedNoConfig ==> !p.tests_ran,
        p.tests_ran ==> (status == TestStatus::Passed || p.manual_fix == Some(false)),
{
}

/// The next step of the error-fix loop after a check.
#[derive(Debug, Clone, Copy, PartialEq, Eq, Structural)]
pub enum FixLoopStep {
    /// The check passed.
    Succeeded,
    /// The check failed on the last allowed attempt.
    MaxReached,
    /// The check failed; apply fixes and check again.
    ApplyFixes,
}

/// The step after check `attempt` of `max_attempts`.
pub fn error_check_step(attempt: usize, max_attempts: usize, check_succeeded: bool) -> (s: FixLoopStep)
    ensures
        s == if check_succeeded {
            FixLoopStep::Succeeded
        } else if attempt == max_attempts {
            FixLoopStep::MaxReached
        } else {
            FixLoopStep::ApplyFixes
        },
{
    if check_succeeded {
        FixLoopStep::Succeeded
    } else if attempt == max_attempts {
        FixLoopStep::MaxReached
    } else {
        FixLoopStep::ApplyFixes
    }
}

/// The kind of file that a message about `stem` concerns: what its name
/// announces (`var` or `fn`), else the kind of the file being processed.
pub fn message_file_type(stem: &str, default_type: &'static str) -> (r: &'static str)
    ensures
        r@ == match crate::files::file_type_of(stem@) {
            Some((kind, _)) => kind,
            None => default_type@,
        },
{
    match crate::files::extract_file_type(stem) {
        Some((kind, _)) => kind,
        None => default_type,
    }
}

/// The warning phase of the start-up verification.
#[derive(Debug, Clone, Copy, PartialEq, Eq, Structural)]
pub enum StartupWarningPhase {
    /// Check and fix warnings on the fallback file.
    AutoFix,
    /// Only report warnings (there is no file to fix).
    ReportOnly,
    /// Warning processing is switched off.
    Skipped,
}

/// The start-up warning phase, given whether a file to fix was found and
/// whether warnings are processed.
pub fn startup_warning_phase(has_fallback_file: bool, process_warnings: bool) -> (p: StartupWarningPhase)
    ensures
        p == if !process_warnings {
            StartupWarningPhase::Skipped
        } else if has_fallback_file {
            StartupWarningPhase::AutoFix
        } else {
            StartupWarningPhase::ReportOnly
        },
{
    if !process_warnings {
        StartupWarningPhase::Skipped
    } else if has_fallback_file {
        StartupWarningPhase::AutoFix
    } else {
        StartupWarningPhase::ReportOnly
    }
}

/// What the start-up verification does after a failed build, for the
/// user's answer (skip, manual fix, exit).
#[derive(Debug, Clone, Copy, PartialEq, Eq, Structural)]
pub enum StartupFailureAction {
    /// Leave the verification; processing goes on.
    SkipVerification,
    /// Open the failing files, then build again.
    EditAndRebuild,
    /// Stop with the build error.
    Abort,
}

/// The action for the answer to the start-up failure prompt (which offers
/// manual fix, skip and exit).
pub fn startup_failure_action(choice: crate::interaction::FailureChoice) -> (a: StartupFailureAction)
    requires
        choice == crate::interaction::FailureChoice::Skip || choice == crate::interaction::FailureChoice::ManualFix
            || choice == crate::interaction::FailureChoice::Exit,
    ensures
        a == match choice {
            crate::interaction::FailureChoice::Skip => StartupFailureAction::SkipVerification,
            crate::interaction::FailureChoice::ManualFix => StartupFailureAction::EditAndRebuild,
            _ => StartupFailureAction::Abort,
        },
{
    match choice {
        crate::interaction::FailureChoice::Skip => StartupFailureAction::SkipVerification,
        crate::interaction::FailureChoice::ManualFix => StartupFailureAction::EditAndRebuild,
        _ => StartupFailureAction::Abort,
    }
}

/// The user's answer while fixing a failing start-up test.
#[derive(Debug, Clone, Copy, PartialEq, Eq, Structural)]
pub enum UserChoice {
    /// Try again with a new suggestion (or, after a manual fix, rebuild as is).
    Continue,
    /// Edit the file by hand.
    ManualFix,
    /// Abort.
    Exit,
}

/// The next step of the start-up test fixing.
#[derive(Debug, Clone, Copy, PartialEq, Eq, Structural)]
pub enum StartupFixStep {
    /// Nothing in the error points at a file: give up with the error.
    NoFiles,
    /// Everything builds and passes.
    Done,
    /// The new error names files: handle the first of them.
    NextFiles,
    /// Give up with the latest error.
    Fail,
    /// Ask the user again what to do.
    AskAgain,
    /// Build and test again with the current edits.
    Rebuild,
    /// Open the file again, then rebuild.
    EditAndRebuild,
}

/// The step at the start of a round: there must be files to work on.
pub fn startup_round_start(file_count: usize) -> (s: StartupFixStep)
    ensures
        s == if file_count == 0 { StartupFixStep::NoFiles } else { StartupFixStep::NextFiles },
{
    if file_count == 0 {
        StartupFixStep::NoFiles
    } else {
        StartupFixStep::NextFiles
    }
}

/// The step after the build and tests ran again: done where they pass; the
/// new error's files where it names some; else give up after a suggested fix,
/// or ask again after a manual one.
pub fn startup_after_rerun(passed: bool, new_files_found: bool, after_manual_fix: bool) -> (s: StartupFixStep)
    ensures
        s == if passed {
            StartupFixStep::Done
        } else if new_files_found {
            StartupFixStep::NextFiles
        } else if after_manual_fix {
            StartupFixStep::AskAgain
        } else {
            StartupFixStep::Fail
        },
{
    if passed {
        StartupFixStep::Done
    } else if new_files_found {
        StartupFixStep::NextFiles
    } else if after_manual_fix {
        StartupFixStep::AskAgain
    } else {
        StartupFixStep::Fail
    }
}

/// The step for the answer given when a manual fix still fails.
pub fn startup_after_asking_again(choice: UserChoice) -> (s: StartupFixStep)
    ensures
        s == match choice {
            UserChoice::Continue => StartupFixStep::Rebuild,
            UserChoice::ManualFix => StartupFixStep::EditAndRebuild,
            UserChoice::Exit => StartupFixStep::Fail,
        },
{
    match choice {
        UserChoice::Continue => StartupFixStep::Rebuild,
        UserChoice::ManualFix => StartupFixStep::EditAndRebuild,
        UserChoice::Exit => StartupFixStep::Fail,
    }
}

} // verus!
