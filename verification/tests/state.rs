use sway_tab::state::State;

/// Helper: creates a State and adds the given con_ids in order.
/// The *first* element in `ids` ends up at the front (most recent).
/// e.g. make_state(&[10, 20, 30]) -> history = [10, 20, 30]
fn make_state(ids: &[i64]) -> State {
    let mut state = State::default();
    // Add in reverse so that the first element of `ids` ends up at front.
    for &id in ids.iter().rev() {
        state.add(id);
    }
    state
}

// history primitive tests

#[test]
fn history_add_front_and_dedup() {
    let mut s = State::default();
    s.add(1);
    s.add(2);
    s.add(3);
    // Order should be [3, 2, 1]
    assert_eq!(s.history, vec![3, 2, 1]);

    // Re-adding 1 should move it to front: [1, 3, 2]
    s.add(1);
    assert_eq!(s.history, vec![1, 3, 2]);
}

#[test]
fn history_remove_existing() {
    let mut s = State::default();
    s.add(1);
    s.add(2);
    s.add(3);
    // [3, 2, 1]
    s.remove_id(2);
    assert_eq!(s.history, vec![3, 1]);
}

#[test]
fn history_remove_nonexistent_is_noop() {
    let mut s = State::default();
    s.add(1);
    s.add(2);
    s.remove_id(99);
    assert_eq!(s.history, vec![2, 1]);
}

#[test]
fn history_get_returns_correct_items() {
    let mut s = State::default();
    s.add(100);
    s.add(200);
    s.add(300);
    // [300, 200, 100]
    assert_eq!(s.history.get(0).copied(), Some(300));
    assert_eq!(s.history.get(1).copied(), Some(200));
    assert_eq!(s.history.get(2).copied(), Some(100));
    assert_eq!(s.history.get(3).copied(), None);
}

#[test]
fn history_promote_moves_to_front() {
    let mut s = State::default();
    s.add(1);
    s.add(2);
    s.add(3);
    // [3, 2, 1]
    s.promote(2); // promote item at index 2 (which is 1)
    // Now: [1, 3, 2]
    assert_eq!(s.history, vec![1, 3, 2]);
}

#[test]
fn history_promote_out_of_bounds_is_noop() {
    let mut s = State::default();
    s.add(1);
    s.add(2);
    // [2, 1]
    s.promote(5); // out of bounds - should do nothing
    assert_eq!(s.history, vec![2, 1]);
}

// State::advance_cycle tests

#[test]
fn advance_cycle_empty_history_returns_none() {
    let mut state = State::default();
    assert_eq!(state.advance_cycle(), None);
}

#[test]
fn advance_cycle_single_item_returns_none() {
    let mut state = make_state(&[42]);
    assert_eq!(state.advance_cycle(), None);
}

#[test]
fn advance_cycle_two_items_first_press() {
    let mut state = make_state(&[10, 20]);
    // history = [10, 20]
    let result = state.advance_cycle();
    assert_eq!(result, Some(20)); // pos 1 = second item
    assert_eq!(state.cycle_pos, Some(1));
    assert_eq!(state.last_preview, Some(20));
}

#[test]
fn advance_cycle_three_items_circular() {
    let mut state = make_state(&[10, 20, 30]);
    // history = [10, 20, 30]

    // First press -> pos 1 -> 20
    assert_eq!(state.advance_cycle(), Some(20));
    assert_eq!(state.cycle_pos, Some(1));

    // Second press -> pos 2 -> 30
    assert_eq!(state.advance_cycle(), Some(30));
    assert_eq!(state.cycle_pos, Some(2));

    // Third press -> pos 0 (wraps) -> 10
    assert_eq!(state.advance_cycle(), Some(10));
    assert_eq!(state.cycle_pos, Some(0));

    // Fourth press -> pos 1 again -> 20
    assert_eq!(state.advance_cycle(), Some(20));
    assert_eq!(state.cycle_pos, Some(1));
}

#[test]
fn advance_cycle_frozen_during_cycling() {
    let mut state = make_state(&[10, 20, 30]);
    assert_eq!(state.cycle_pos, None);

    state.advance_cycle();
    assert!(state.cycle_pos.is_some());

    state.advance_cycle();
    assert!(state.cycle_pos.is_some());
}

// State::commit_cycle tests

#[test]
fn commit_cycle_promotes_and_unfreezes() {
    let mut state = make_state(&[10, 20, 30]);
    // history = [10, 20, 30]

    // Advance twice: pos 1 -> pos 2, targeting 30
    state.advance_cycle(); // pos 1, target=20
    state.advance_cycle(); // pos 2, target=30

    state.commit_cycle();

    // 30 should be promoted to front: [30, 10, 20]
    assert_eq!(state.history, vec![30, 10, 20]);
    assert_eq!(state.last_preview, None);
    assert_eq!(state.cycle_pos, None);
}

#[test]
fn commit_cycle_no_active_cycle_is_noop() {
    let mut state = make_state(&[10, 20]);
    // No cycle active
    state.commit_cycle(); // should not panic
    assert_eq!(state.history, vec![10, 20]);
    assert_eq!(state.cycle_pos, None);
}

// State::handle_focus_event tests

#[test]
fn handle_focus_not_frozen_tracks() {
    let mut state = make_state(&[10, 20]);
    state.handle_focus_event(30);
    // 30 should be at front now
    assert_eq!(state.history, vec![30, 10, 20]);
}

#[test]
fn handle_focus_frozen_matching_preview_ignored() {
    let mut state = make_state(&[10, 20, 30]);
    // Start cycling
    state.advance_cycle(); // pos 1, target=20, cycling
    assert!(state.cycle_pos.is_some());

    // Sway sends focus event for our own preview (20)
    state.handle_focus_event(20);

    // History should be unchanged: [10, 20, 30]
    assert_eq!(state.history, vec![10, 20, 30]);
    assert!(state.cycle_pos.is_some()); // still cycling
}

#[test]
fn handle_focus_frozen_external_auto_committed() {
    let mut state = make_state(&[10, 20, 30]);
    // Start cycling
    state.advance_cycle(); // pos 1, target=20, frozen=true

    // External focus to a window we did NOT preview
    state.handle_focus_event(99);

    // 20 (at cycle_pos=1) should have been promoted, then 99 added to front.
    // Before auto-commit promote: history = [10, 20, 30], promote pos 1 -> [20, 10, 30]
    // Then add 99: [99, 20, 10, 30]
    assert_eq!(state.history, vec![99, 20, 10, 30]);

    assert_eq!(state.last_preview, None);
    assert_eq!(state.cycle_pos, None);
}

// Integration / multi-step scenarios

#[test]
fn full_alt_tab_cycle() {
    // Add windows A=1, B=2, C=3. History = [3, 2, 1] (C most recent)
    let mut state = make_state(&[3, 2, 1]);

    // Advance twice: first press -> pos 1 (2), second press -> pos 2 (1)
    assert_eq!(state.advance_cycle(), Some(2));
    assert_eq!(state.advance_cycle(), Some(1));

    // Commit - promotes pos 2 (value 1) to front
    state.commit_cycle();

    // History should be [1, 3, 2]
    assert_eq!(state.history, vec![1, 3, 2]);
    assert_eq!(state.cycle_pos, None);
}

#[test]
fn lazy_commit_scenario() {
    // History: [A=10, B=20, C=30]
    let mut state = make_state(&[10, 20, 30]);

    // Advance once -> previews B=20 at pos 1
    assert_eq!(state.advance_cycle(), Some(20));
    assert!(state.cycle_pos.is_some());

    // External focus event to D=40 (user clicked a different window)
    state.handle_focus_event(40);

    // B=20 promoted (from pos 1), then D=40 added to front
    // Promote pos 1: [10, 20, 30] -> [20, 10, 30]
    // Add 40: [40, 20, 10, 30]
    assert_eq!(state.history, vec![40, 20, 10, 30]);
    assert_eq!(state.cycle_pos, None);
}

#[test]
fn multiple_cycles_second_uses_updated_history() {
    // History: [A=10, B=20, C=30]
    let mut state = make_state(&[10, 20, 30]);

    // First cycle: advance once (pos 1 = B=20), commit
    state.advance_cycle();
    state.commit_cycle();
    // After commit: [20, 10, 30] (B promoted to front)

    assert_eq!(state.history, vec![20, 10, 30]);

    // Second cycle: should start from updated history
    assert_eq!(state.advance_cycle(), Some(10)); // pos 1 = A=10
    assert_eq!(state.cycle_pos, Some(1));

    // Advance again
    assert_eq!(state.advance_cycle(), Some(30)); // pos 2 = C=30

    // Commit C=30 to front
    state.commit_cycle();
    assert_eq!(state.history, vec![30, 20, 10]);
}

// State::seed tests

#[test]
fn seed_populates_history() {
    let mut state = State::default();
    state.seed(&[1, 2, 3]);
    // seed adds in order, so 3 is most recent (last added = front)
    assert_eq!(state.history, vec![3, 2, 1]);
}

#[test]
fn seed_deduplicates() {
    let mut state = State::default();
    state.seed(&[1, 2, 1, 3]);
    assert_eq!(state.history, vec![3, 1, 2]);
}

// State::handle_close_event tests

#[test]
fn close_removes_from_history() {
    let mut state = make_state(&[10, 20, 30]);
    state.handle_close_event(20);
    assert_eq!(state.history, vec![10, 30]);
}

#[test]
fn close_nonexistent_is_noop() {
    let mut state = make_state(&[10, 20]);
    state.handle_close_event(99);
    assert_eq!(state.history.len(), 2);
}

#[test]
fn close_preview_target_cancels_cycle() {
    let mut state = make_state(&[10, 20, 30]);
    state.advance_cycle(); // pos 1, target=20, cycling
    assert!(state.cycle_pos.is_some());
    assert_eq!(state.last_preview, Some(20));

    // Close the previewed window
    state.handle_close_event(20);
    assert_eq!(state.cycle_pos, None);
    assert_eq!(state.last_preview, None);
    assert_eq!(state.history.len(), 2);
}

#[test]
fn close_non_preview_during_cycle_clamps_pos() {
    let mut state = make_state(&[10, 20, 30]);
    // Advance twice: pos=2, target=30
    state.advance_cycle(); // pos 1
    state.advance_cycle(); // pos 2, target=30
    assert_eq!(state.cycle_pos, Some(2));

    // Close window 10 (at pos 0 in frozen history [10, 20, 30])
    // After removal: [20, 30], cycle_pos=2 is out of bounds -> clamped to 1
    state.handle_close_event(10);
    assert!(state.cycle_pos.is_some());
    assert_eq!(state.history.len(), 2);
    assert_eq!(state.cycle_pos, Some(1));
}

#[test]
fn close_during_cycle_too_few_remaining_cancels() {
    let mut state = make_state(&[10, 20]);
    state.advance_cycle(); // pos 1, target=20, cycling
    assert!(state.cycle_pos.is_some());

    // Close one of the two - only 1 left, cannot cycle
    state.handle_close_event(10);
    assert_eq!(state.cycle_pos, None);
}
