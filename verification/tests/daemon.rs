use sway_tab::daemon::{
    classify_signal, handle_signal, handle_window_event, Signal, SignalAction, SignalNumbers,
    WindowChange, SIGRTMIN,
};
use sway_tab::state::State;

const NUMBERS: SignalNumbers = SignalNumbers { user: 10, terminate: 15, interrupt: 2 };

#[test]
fn signals_by_number() {
    assert_eq!(SIGRTMIN, 34);
    assert!(matches!(classify_signal(10, &NUMBERS), Signal::Press));
    assert!(matches!(classify_signal(34, &NUMBERS), Signal::Release));
    assert!(matches!(classify_signal(15, &NUMBERS), Signal::Shutdown));
    assert!(matches!(classify_signal(2, &NUMBERS), Signal::Shutdown));
    assert!(matches!(classify_signal(1, &NUMBERS), Signal::Other));
}

#[test]
fn press_previews_once_there_are_two_windows() {
    let mut state = State::default();
    assert!(matches!(handle_signal(&mut state, Signal::Press), SignalAction::Ignore));
    state.seed(&[1, 2]);
    assert!(matches!(handle_signal(&mut state, Signal::Press), SignalAction::Preview(1)));
    assert_eq!(state.cycle_pos, Some(1));
}

#[test]
fn other_signals_leave_the_state() {
    let mut state = State::default();
    state.seed(&[1, 2]);
    assert!(matches!(handle_signal(&mut state, Signal::Release), SignalAction::ResetTimer));
    assert!(matches!(handle_signal(&mut state, Signal::Shutdown), SignalAction::Shutdown));
    assert!(matches!(handle_signal(&mut state, Signal::Other), SignalAction::Ignore));
    assert_eq!(state.history, vec![2, 1]);
    assert_eq!(state.cycle_pos, None);
}

#[test]
fn only_focus_and_close_change_the_history() {
    let mut state = State::default();
    handle_window_event(&mut state, WindowChange::Focus, 1);
    handle_window_event(&mut state, WindowChange::Focus, 2);
    handle_window_event(&mut state, WindowChange::New, 3);
    handle_window_event(&mut state, WindowChange::Title, 1);
    handle_window_event(&mut state, WindowChange::Urgent, 1);
    assert_eq!(state.history, vec![2, 1]);
    handle_window_event(&mut state, WindowChange::Close, 2);
    assert_eq!(state.history, vec![1]);
}
