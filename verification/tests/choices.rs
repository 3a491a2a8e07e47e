use c2rust_translate::verification::{manual_fix_next_step, ManualFixStep};
use c2rust_translate::interaction::{
    compile_failure_choice_at, compile_success_choice_at, continue_choice_at, failure_choice_at,
    CompileSuccessChoice, ContinueChoice, FailureChoice, SkippedFilesChoice,
};

#[test]
fn test_compile_success_choice_variants() {
    assert_eq!(CompileSuccessChoice::Accept, CompileSuccessChoice::Accept);
    assert_eq!(CompileSuccessChoice::AutoAccept, CompileSuccessChoice::AutoAccept);
    assert_eq!(CompileSuccessChoice::ManualFix, CompileSuccessChoice::ManualFix);
    assert_eq!(CompileSuccessChoice::Exit, CompileSuccessChoice::Exit);
    assert_ne!(CompileSuccessChoice::Accept, CompileSuccessChoice::Exit);
}

#[test]
fn test_failure_choice_variants() {
    assert_eq!(FailureChoice::RetryDirectly, FailureChoice::RetryDirectly);
    assert_eq!(FailureChoice::AddSuggestion, FailureChoice::AddSuggestion);
    assert_eq!(FailureChoice::ManualFix, FailureChoice::ManualFix);
    assert_eq!(FailureChoice::Skip, FailureChoice::Skip);
    assert_eq!(FailureChoice::Exit, FailureChoice::Exit);
    assert_ne!(FailureChoice::RetryDirectly, FailureChoice::Exit);
    assert_ne!(FailureChoice::AddSuggestion, FailureChoice::Exit);
    assert_ne!(FailureChoice::Skip, FailureChoice::Exit);
}

#[test]
fn test_continue_choice_variants() {
    assert_eq!(ContinueChoice::Continue, ContinueChoice::Continue);
    assert_eq!(ContinueChoice::Restart, ContinueChoice::Restart);
    assert_ne!(ContinueChoice::Continue, ContinueChoice::Restart);
}

#[test]
fn offered_options_map_to_choices() {
    assert_eq!(compile_success_choice_at(1), CompileSuccessChoice::AutoAccept);
    assert_eq!(failure_choice_at(0), FailureChoice::ManualFix);
    assert_eq!(compile_failure_choice_at(3), FailureChoice::Skip);
    assert_eq!(continue_choice_at(2), ContinueChoice::FixSkippedFiles);
    assert_ne!(SkippedFilesChoice::ProcessNow, SkippedFilesChoice::ExitForLater);
}

#[test]
fn manual_fix_answers_lead_to_their_steps() {
    assert_eq!(manual_fix_next_step(FailureChoice::ManualFix), ManualFixStep::EditAgain);
    assert_eq!(manual_fix_next_step(FailureChoice::Skip), ManualFixStep::Rebuild);
    assert_eq!(manual_fix_next_step(FailureChoice::FixOtherFile), ManualFixStep::SkipFile);
    assert_eq!(manual_fix_next_step(FailureChoice::Exit), ManualFixStep::Exit);
    assert_eq!(manual_fix_next_step(FailureChoice::RetryDirectly), ManualFixStep::Unexpected);
}
