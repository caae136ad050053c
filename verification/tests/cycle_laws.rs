use sway_tab::state::State;

fn state_of(ids: &[i64]) -> State {
    let mut state = State::default();
    for &id in ids.iter().rev() {
        state.handle_focus_event(id);
    }
    state
}

#[test]
fn first_press_returns_to_previous_window() {
    let mut state = state_of(&[5, 6, 7]);
    state.handle_focus_event(7);
    state.handle_focus_event(6);
    assert_eq!(state.advance_cycle(), Some(7));
}

#[test]
fn full_round_ends_where_it_started() {
    let mut state = state_of(&[1, 2, 3, 4]);
    let mut seen = Vec::new();
    for _ in 0..4 {
        seen.push(state.advance_cycle().unwrap());
    }
    assert_eq!(seen, vec![2, 3, 4, 1]);
    assert_eq!(state.history, vec![1, 2, 3, 4]);
}

#[test]
fn five_presses_over_three_windows_settle_on_the_third() {
    let mut state = state_of(&[1, 2, 3]);
    for _ in 0..5 {
        let target = state.advance_cycle().unwrap();
        state.handle_focus_event(target);
    }
    state.commit_cycle();
    assert_eq!(state.history, vec![3, 1, 2]);
}

#[test]
fn switching_twice_restores_the_order() {
    let mut state = state_of(&[1, 2, 3]);
    for _ in 0..2 {
        state.advance_cycle();
        state.commit_cycle();
    }
    assert_eq!(state.history, vec![1, 2, 3]);
    assert_eq!(state.cycle_pos, None);
    assert_eq!(state.last_preview, None);
}

#[test]
fn commit_twice_is_commit_once() {
    let mut state = state_of(&[1, 2, 3]);
    state.advance_cycle();
    state.commit_cycle();
    state.commit_cycle();
    assert_eq!(state.history, vec![2, 1, 3]);
}

#[test]
fn refocus_changes_nothing() {
    let mut state = state_of(&[1, 2]);
    state.handle_focus_event(1);
    assert_eq!(state.history, vec![1, 2]);
}

#[test]
fn closing_a_new_window_undoes_its_focus() {
    let mut state = state_of(&[1, 2]);
    state.handle_focus_event(9);
    state.handle_close_event(9);
    assert_eq!(state.history, vec![1, 2]);
}

#[test]
fn closing_a_more_recent_window_keeps_the_cycle_on_its_preview() {
    let mut state = state_of(&[10, 20, 30]);
    assert_eq!(state.advance_cycle(), Some(20));
    state.handle_close_event(10);
    assert_eq!(state.history, vec![20, 30]);
    assert_eq!(state.cycle_pos, Some(0));
    assert_eq!(state.last_preview, Some(20));
    state.commit_cycle();
    assert_eq!(state.history, vec![20, 30]);
}

#[test]
fn commit_after_a_close_promotes_the_preview() {
    let mut state = State { history: vec![10, 20, 30, 40], cycle_pos: None, last_preview: None };
    assert_eq!(state.advance_cycle(), Some(20));
    state.handle_close_event(10);
    state.commit_cycle();
    assert_eq!(state.history, vec![20, 30, 40]);
    assert_eq!(state.cycle_pos, None);
    assert_eq!(state.last_preview, None);
}

#[test]
fn press_after_a_close_goes_to_the_next_window() {
    let mut state = state_of(&[10, 20, 30, 40]);
    assert_eq!(state.advance_cycle(), Some(20));
    state.handle_close_event(10);
    assert_eq!(state.advance_cycle(), Some(30));
    state.handle_close_event(20);
    assert_eq!(state.advance_cycle(), Some(40));
    assert_eq!(state.advance_cycle(), Some(30));
}

#[test]
fn a_position_past_the_end_becomes_the_last() {
    let mut state =
        State { history: vec![1, 2, 3], cycle_pos: Some(7), last_preview: Some(3) };
    state.handle_close_event(1);
    assert_eq!(state.history, vec![2, 3]);
    assert_eq!(state.cycle_pos, Some(1));
}

#[test]
fn focus_events_order_by_recency() {
    let mut focused = State::default();
    for id in [4, 7, 4, 5, 7, 6] {
        focused.handle_focus_event(id);
    }
    assert_eq!(focused.history, vec![6, 7, 5, 4]);
}

#[test]
fn closing_an_older_window_keeps_the_cycle_on_its_preview() {
    let mut state = state_of(&[10, 20, 30]);
    assert_eq!(state.advance_cycle(), Some(20));
    state.handle_close_event(30);
    assert_eq!(state.cycle_pos, Some(1));
    state.commit_cycle();
    assert_eq!(state.history, vec![20, 10]);
}

#[test]
fn refocusing_a_remembered_window_during_a_cycle_commits_first() {
    let mut state = state_of(&[10, 20, 30]);
    state.advance_cycle();
    state.handle_focus_event(30);
    assert_eq!(state.history, vec![30, 20, 10]);
    assert!(!state.cycling());
}

#[test]
fn seeding_orders_by_last_mention() {
    let mut state = State::default();
    state.seed(&[4, 7, 4, 5, 7, 6]);
    assert_eq!(state.history, vec![6, 7, 5, 4]);
}

#[test]
fn seeding_adds_to_what_is_there() {
    let mut state = state_of(&[1, 2]);
    state.seed(&[]);
    assert_eq!(state.history, vec![1, 2]);
    state.seed(&[2, 3]);
    assert_eq!(state.history, vec![3, 2, 1]);
}

#[test]
fn promote_of_the_front_changes_nothing() {
    let mut state = state_of(&[1, 2]);
    state.promote(0);
    assert_eq!(state.history, vec![1, 2]);
}
