use sway_tab::alttab::{
    focus_con_id, focus_con_id_reply, handle_sigusr1, handle_window_event, preview,
    preview_reply, remove_binding, remove_binding_reply, setup_binding, setup_binding_reply, State, WindowHistory, COMMIT_TIMEOUT_MS, MAX_WINDOWS,
};
use sway_tab::commands::Reply;
use sway_tab::daemon::WindowChange;

fn contents(history: &WindowHistory) -> Vec<i64> {
    history.history.iter().copied().collect()
}

fn state_of(ids: &[i64]) -> State {
    let mut state = State::default();
    for &id in ids.iter().rev() {
        state.handle_focus_event(id);
    }
    state
}

#[test]
fn bounded_history_moves_and_drops() {
    let mut history = WindowHistory::new(3);
    for id in [1, 2, 3, 1, 4] {
        history.add(id);
    }
    assert_eq!(contents(&history), vec![4, 1, 3]);
    assert_eq!(history.len(), 3);
    assert_eq!(history.get(0), Some(4));
    assert_eq!(history.get(2), Some(3));
    assert_eq!(history.get(3), None);
}

#[test]
fn history_without_room_stays_empty() {
    let mut history = WindowHistory::default();
    history.add(1);
    assert_eq!(history.len(), 0);
    assert_eq!(history.max_len, 0);
}

#[test]
fn bounded_history_promotes() {
    let mut history = WindowHistory::new(4);
    for id in [1, 2, 3] {
        history.add(id);
    }
    history.promote(2);
    assert_eq!(contents(&history), vec![1, 3, 2]);
    history.promote(3);
    assert_eq!(contents(&history), vec![1, 3, 2]);
}

#[test]
fn limits() {
    assert_eq!(COMMIT_TIMEOUT_MS, 300);
    assert_eq!(MAX_WINDOWS, 15);
    let mut state = State::default();
    for id in 0..20 {
        state.handle_focus_event(id);
    }
    assert_eq!(state.history.len(), 15);
    assert_eq!(state.history.get(14), Some(5));
}

#[test]
fn press_needs_two_windows() {
    let mut state = state_of(&[1]);
    state.schedule_commit(8);
    assert!(handle_sigusr1(&mut state).is_none());
    assert_eq!(state.pending_commit, Some(8));
    assert!(!state.history.frozen);
}

#[test]
fn presses_freeze_advance_and_cancel() {
    let mut state = state_of(&[1, 2, 3]);
    let preview = handle_sigusr1(&mut state).unwrap();
    assert_eq!(preview.target, 2);
    assert_eq!(preview.cancel, None);
    assert!(state.history.frozen);
    state.schedule_commit(1);
    let preview = handle_sigusr1(&mut state).unwrap();
    assert_eq!(preview.target, 3);
    assert_eq!(preview.cancel, Some(1));
    assert_eq!(state.pending_commit, None);
    state.schedule_commit(2);
    assert_eq!(handle_sigusr1(&mut state).unwrap().target, 1);
}

#[test]
fn frozen_history_ignores_focus() {
    let mut state = state_of(&[1, 2, 3]);
    handle_sigusr1(&mut state);
    state.handle_focus_event(2);
    state.handle_focus_event(99);
    assert_eq!(contents(&state.history), vec![1, 2, 3]);
}

#[test]
fn minimal_daemon_tracks_focus_only() {
    let mut state = state_of(&[1, 2]);
    handle_window_event(&mut state, WindowChange::Close, 1);
    handle_window_event(&mut state, WindowChange::New, 3);
    assert_eq!(contents(&state.history), vec![1, 2]);
    handle_window_event(&mut state, WindowChange::Focus, 2);
    assert_eq!(contents(&state.history), vec![2, 1]);
}

#[test]
fn scheduled_commit_promotes_and_unfreezes() {
    let mut state = state_of(&[1, 2, 3]);
    handle_sigusr1(&mut state);
    handle_sigusr1(&mut state);
    state.schedule_commit(4);
    state.commit();
    assert_eq!(contents(&state.history), vec![3, 1, 2]);
    assert!(!state.history.frozen);
    assert_eq!(state.cycle_pos, None);
    assert_eq!(state.pending_commit, None);
    state.handle_focus_event(9);
    assert_eq!(contents(&state.history), vec![9, 3, 1, 2]);
}

#[test]
fn presses_with_scheduled_commits_settle() {
    let mut state = state_of(&[1, 2, 3]);
    for task in 0..5 {
        let preview = handle_sigusr1(&mut state).unwrap();
        assert_eq!(preview.cancel, if task == 0 { None } else { Some(task - 1) });
        state.schedule_commit(task);
    }
    assert_eq!(state.cycle_pos, Some(2));
    assert_eq!(state.pending_commit, Some(4));
    state.commit();
    assert_eq!(contents(&state.history), vec![3, 1, 2]);
    assert_eq!(state.cycle_pos, None);
    assert_eq!(state.pending_commit, None);
    assert!(!state.history.frozen);
}

#[test]
fn two_switches_restore_the_bounded_history() {
    let mut state = state_of(&[1, 2, 3]);
    for _ in 0..2 {
        handle_sigusr1(&mut state);
        state.commit();
    }
    assert_eq!(contents(&state.history), vec![1, 2, 3]);
}

#[test]
fn minimal_daemon_requests() {
    assert_eq!(focus_con_id(3), "[con_id=3] focus");
    assert_eq!(setup_binding(77), "bindsym Alt+Tab exec kill -USR1 77");
    assert_eq!(remove_binding(), "unbindsym Alt+Tab");
}

#[test]
fn failed_previews_are_reported() {
    assert_eq!(preview(3, Ok(())), Ok("[con_id=3] focus".to_string()));
    assert_eq!(
        preview(3, Err("no socket".to_string())),
        Err("Connection error: no socket".to_string())
    );
    assert_eq!(preview_reply(Reply::Answered(vec![false])), None);
    assert_eq!(
        preview_reply(Reply::Answered(vec![true])),
        Some("Preview focus error: focus command failed".to_string())
    );
    assert_eq!(
        preview_reply(Reply::Failed("gone".to_string())),
        Some("Preview focus error: gone".to_string())
    );
}

#[test]
fn minimal_daemon_replies() {
    let gone = || Reply::Failed("gone".to_string());
    assert_eq!(focus_con_id_reply(Reply::Answered(vec![false])), Ok(()));
    assert_eq!(
        focus_con_id_reply(Reply::Answered(vec![true])),
        Err("focus command failed".to_string())
    );
    assert_eq!(focus_con_id_reply(gone()), Err("gone".to_string()));
    assert_eq!(setup_binding_reply(Reply::Answered(vec![false])), Ok(()));
    assert_eq!(
        setup_binding_reply(Reply::Answered(vec![true])),
        Err("Failed to bind Alt+Tab".to_string())
    );
    assert_eq!(setup_binding_reply(gone()), Err("gone".to_string()));
    assert_eq!(remove_binding_reply(Reply::Answered(vec![false])), Ok(None));
    assert_eq!(
        remove_binding_reply(Reply::Answered(vec![true])),
        Ok(Some("Warning: failed to unbind Alt+Tab".to_string()))
    );
    assert_eq!(remove_binding_reply(gone()), Err("gone".to_string()));
}
