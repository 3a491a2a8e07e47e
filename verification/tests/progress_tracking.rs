use c2rust_translate::progress::ProgressState;

#[test]
fn progress_test_progress_state_default() {
    let state = ProgressState::default();
    assert_eq!(state.processed_count, 0);
    assert_eq!(state.total_count, 0);
}

#[test]
fn progress_test_progress_state_new() {
    let state = ProgressState::new(10);
    assert_eq!(state.processed_count, 0);
    assert_eq!(state.total_count, 10);
}

#[test]
fn progress_test_mark_processed() {
    let mut state = ProgressState::new(5);
    assert_eq!(state.processed_count, 0);
    state.mark_processed();
    assert_eq!(state.processed_count, 1);
    state.mark_processed();
    assert_eq!(state.processed_count, 2);
}

#[test]
fn progress_test_get_current_position() {
    let mut state = ProgressState::new(10);
    assert_eq!(state.get_current_position(), 1);
    state.mark_processed();
    assert_eq!(state.get_current_position(), 2);
    state.mark_processed();
    assert_eq!(state.get_current_position(), 3);
}

#[test]
fn progress_test_get_total_count() {
    let state = ProgressState::new(25);
    assert_eq!(state.get_total_count(), 25);
}

#[test]
fn progress_test_with_initial_progress() {
    let state = ProgressState::with_initial_progress(10, 3);
    assert_eq!(state.processed_count, 3);
    assert_eq!(state.total_count, 10);
    assert_eq!(state.get_current_position(), 4);
}

#[test]
fn progress_test_with_initial_progress_continuation() {
    let mut state = ProgressState::with_initial_progress(10, 5);
    assert_eq!(state.get_current_position(), 6);
    state.mark_processed();
    assert_eq!(state.get_current_position(), 7);
    assert_eq!(state.processed_count, 6);
}

#[test]
fn progress_test_with_initial_progress_clamping() {
    let state = ProgressState::with_initial_progress(10, 15);
    assert_eq!(state.processed_count, 10);
    assert_eq!(state.total_count, 10);
    assert_eq!(state.get_current_position(), 11);
    let state2 = ProgressState::with_initial_progress(10, 10);
    assert_eq!(state2.processed_count, 10);
    assert_eq!(state2.get_current_position(), 11);
}

#[test]
fn progress_test_refresh_updates_counts() {
    let mut state = ProgressState::new(10);
    state.refresh(20, 15);
    assert_eq!(state.total_count, 20);
    assert_eq!(state.processed_count, 15);
}

#[test]
fn progress_test_refresh_clamps_processed_to_total() {
    let mut state = ProgressState::new(10);
    state.refresh(5, 8);
    assert_eq!(state.total_count, 5);
    assert_eq!(state.processed_count, 5);
}

#[test]
fn progress_test_refresh_processed_equals_total() {
    let mut state = ProgressState::new(3);
    state.refresh(3, 3);
    assert_eq!(state.total_count, 3);
    assert_eq!(state.processed_count, 3);
}

#[test]
fn progress_test_mark_processed_caps_at_total_count() {
    let mut state = ProgressState::new(2);
    state.mark_processed();
    state.mark_processed();
    assert_eq!(state.processed_count, 2);
    state.mark_processed();
    assert_eq!(state.processed_count, 2);
}
