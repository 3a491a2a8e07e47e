use c2rust_translate::file_flow::{
    acceptance_plan, after_build_failure, after_test_failure, auto_accept_plan, error_check_step,
    message_file_type, startup_after_asking_again, startup_after_rerun, startup_round_start, startup_warning_phase, status_without_tests, AttemptOutcome,
    FileAttempts, FixLoopStep, StartupFixStep, StartupWarningPhase, TestStatus,
};
use c2rust_translate::file_flow::UserChoice;
use c2rust_translate::interaction::CompileSuccessChoice;

#[test]
fn attempts_accumulate_and_retry() {
    let mut s = FileAttempts::start();
    s.add_build_round(3, false);
    s.add_warning_round(1);
    match s.after_acceptance(false) {
        AttemptOutcome::Retry(next) => {
            assert_eq!(next.attempt_number, 2);
            assert_eq!(next.total_fix_attempts, 4);
        }
        _ => panic!("expected a retry"),
    }
    let last = FileAttempts { attempt_number: 3, total_fix_attempts: 0, had_restart: true };
    assert!(last.is_last_attempt());
    assert_eq!(last.after_acceptance(false), AttemptOutcome::Exhausted);
    assert_eq!(
        last.after_acceptance(true),
        AttemptOutcome::Complete { attempts: 3, had_restart: true, fix_attempts: 0 }
    );
}

#[test]
fn test_phase_decisions() {
    assert_eq!(status_without_tests(true, true), Some(TestStatus::SkippedNoConfig));
    assert_eq!(status_without_tests(false, true), Some(TestStatus::DeferredByInterval));
    assert_eq!(status_without_tests(false, false), None);
    assert_eq!(after_build_failure(true, true), (true, false));
    assert_eq!(after_build_failure(false, false), (false, false));
    assert_eq!(after_test_failure(true, false), (true, true));
    assert_eq!(after_test_failure(false, false), (false, false));
}

#[test]
fn acceptance_plans() {
    let p = acceptance_plan(TestStatus::DeferredByInterval, CompileSuccessChoice::ManualFix).ok().unwrap();
    assert_eq!(p.manual_fix, Some(false));
    assert!(p.tests_ran && p.report_build_success);
    let p = acceptance_plan(TestStatus::SkippedNoConfig, CompileSuccessChoice::ManualFix).ok().unwrap();
    assert_eq!(p.manual_fix, Some(true));
    assert!(!p.tests_ran && !p.report_build_success);
    let p = acceptance_plan(TestStatus::Passed, CompileSuccessChoice::AutoAccept).ok().unwrap();
    assert!(p.enable_auto_accept && p.tests_ran);
    let e = acceptance_plan(TestStatus::Passed, CompileSuccessChoice::Exit).err().unwrap();
    assert_eq!(e.message, "User chose to exit after successful tests");
    assert!(!auto_accept_plan(TestStatus::DeferredByInterval).tests_ran);
}

#[test]
fn loop_and_startup_steps() {
    assert_eq!(error_check_step(1, 3, true), FixLoopStep::Succeeded);
    assert_eq!(error_check_step(3, 3, false), FixLoopStep::MaxReached);
    assert_eq!(error_check_step(2, 3, false), FixLoopStep::ApplyFixes);
    assert_eq!(message_file_type("fun_x", "var"), "fn");
    assert_eq!(message_file_type("other", "var"), "var");
    assert_eq!(startup_warning_phase(false, true), StartupWarningPhase::ReportOnly);
    assert_eq!(startup_after_rerun(false, false, true), StartupFixStep::AskAgain);
    assert_eq!(startup_after_rerun(false, true, false), StartupFixStep::NextFiles);
}

#[test]
fn startup_rounds_follow_the_answers() {
    assert_eq!(startup_round_start(0), StartupFixStep::NoFiles);
    assert_eq!(startup_round_start(2), StartupFixStep::NextFiles);
    assert_eq!(startup_after_rerun(true, true, true), StartupFixStep::Done);
    assert_eq!(startup_after_rerun(false, false, false), StartupFixStep::Fail);
    assert_eq!(startup_after_asking_again(UserChoice::Continue), StartupFixStep::Rebuild);
    assert_eq!(startup_after_asking_again(UserChoice::ManualFix), StartupFixStep::EditAndRebuild);
    assert_eq!(startup_after_asking_again(UserChoice::Exit), StartupFixStep::Fail);
}

#[test]
fn a_file_gets_at_most_three_attempts() {
    let mut s = FileAttempts::start();
    let mut attempts = 1;
    loop {
        match s.after_acceptance(false) {
            AttemptOutcome::Retry(next) => {
                attempts += 1;
                assert_eq!(next.attempt_number, attempts);
                s = next;
            }
            AttemptOutcome::Exhausted => break,
            AttemptOutcome::Complete { .. } => panic!("nothing was accepted"),
        }
    }
    assert_eq!(attempts, 3);
}
