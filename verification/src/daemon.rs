//! What the daemon does on a signal and on a window event.

use crate::state::State;
use vstd::prelude::*;

verus! {

/// The real-time signal that the key release sends.
pub const SIGRTMIN: i32 = 34;

/// The numbers that the platform gives to the other signals.
pub struct SignalNumbers {
    /// `SIGUSR1`.
    pub user: i32,
    /// `SIGTERM`.
    pub terminate: i32,
    /// `SIGINT`.
    pub interrupt: i32,
}

/// The signals that the daemon knows.
pub enum Signal {
    /// Alt+Tab was pressed.
    Press,
    /// Tab was released while Alt is held.
    Release,
    /// The daemon is to end.
    Shutdown,
    /// Anything else.
    Other,
}

/// What a signal asks the program to do.
pub enum SignalAction {
    /// Focus this window, then reset the commit timer.
    Preview(i64),
    /// Reset the commit timer.
    ResetTimer,
    /// Leave the signal loop.
    Shutdown,
    /// Nothing.
    Ignore,
}

/// The changes that sway reports of a window.
pub enum WindowChange {
    New,
    Close,
    Focus,
    Title,
    FullscreenMode,
    Move,
    Floating,
    Urgent,
    Mark,
    /// A change that this daemon does not know.
    Other,
}

/// What the signal number `sig` means.
pub fn classify_signal(sig: i32, numbers: &SignalNumbers) -> (signal: Signal)
    ensures
        signal is Press <==> sig == numbers.user,
        signal is Release <==> sig == SIGRTMIN && sig != numbers.user,
        signal is Shutdown <==> (sig == numbers.terminate || sig == numbers.interrupt) && sig
            != numbers.user && sig != SIGRTMIN,
{
    if sig == numbers.user {
        Signal::Press
    } else if sig == SIGRTMIN {
        Signal::Release
    } else if sig == numbers.terminate || sig == numbers.interrupt {
        Signal::Shutdown
    } else {
        Signal::Other
    }
}

/// Handles a signal. A press advances the cycle and previews its target, if
/// the history is long enough for one; a release only keeps the timer going.
pub fn handle_signal(state: &mut State, signal: Signal) -> (action: SignalAction)
    requires
        signal is Press && old(state).history.len() >= 2 ==> old(state).cycle_pos != Some(
            usize::MAX,
        ),
    ensures
        final(state)@ == (if signal is Press {
            old(state)@.advanced()
        } else {
            old(state)@
        }),
        action == (match signal {
            Signal::Press => match old(state)@.next_target() {
                Some(target) => SignalAction::Preview(target),
                None => SignalAction::Ignore,
            },
            Signal::Release => SignalAction::ResetTimer,
            Signal::Shutdown => SignalAction::Shutdown,
            Signal::Other => SignalAction::Ignore,
        }),
        old(state).wf() ==> final(state).wf(),
{
    match signal {
        Signal::Press => match state.advance_cycle() {
            Some(target) => SignalAction::Preview(target),
            None => SignalAction::Ignore,
        },
        Signal::Release => SignalAction::ResetTimer,
        Signal::Shutdown => SignalAction::Shutdown,
        Signal::Other => SignalAction::Ignore,
    }
}

/// Handles a window event: a window that gets the focus or closes changes the
/// history, any other change does not.
pub fn handle_window_event(state: &mut State, change: WindowChange, con_id: i64)
    ensures
        final(state)@ == (match change {
            WindowChange::Focus => old(state)@.focused(con_id),
            WindowChange::Close => old(state)@.closed(con_id),
            _ => old(state)@,
        }),
        old(state).wf() ==> final(state).wf(),
{
    match change {
        WindowChange::Focus => state.handle_focus_event(con_id),
        WindowChange::Close => state.handle_close_event(con_id),
        _ => {},
    }
}

} // verus!
