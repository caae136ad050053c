//! The minimal daemon: a history of bounded length, frozen during a cycle, and
//! a commit scheduled anew by every key press.

use crate::commands::{any_rejected, focus_command, focus_text, Binding, Reply};
use crate::daemon::WindowChange;
use crate::recency::{law_promotion_keeps_order, law_touching_keeps_order, stands_before};
use crate::recency::{lemma_promoted, lemma_touched, lemma_without_absent, lemma_without_at};
use crate::recency::{lemma_without_past_first, promoted, touched, without};
use crate::text::joined;
use std::collections::VecDeque;
use vstd::prelude::*;

verus! {

/// How long to wait after the last Alt+Tab press before committing.
pub const COMMIT_TIMEOUT_MS: u64 = 300;

/// How many windows the daemon remembers.
pub const MAX_WINDOWS: usize = 15;

/// Persistent history of recently focused windows, populated by focus events.
/// Deduplicates and maintains recency order so Alt+Tab cycles through windows
/// in the order the user last visited them.
pub struct WindowHistory {
    /// Ordered from most-recent (index 0) to least-recent.
    pub history: VecDeque<i64>,
    pub max_len: usize,
    /// True while the user is actively cycling: prevents preview focus events
    /// from polluting the history.
    pub frozen: bool,
}

/// What a [`WindowHistory`] stands for.
#[verifier::ext_equal]
pub struct HistoryView {
    pub history: Seq<i64>,
    pub max_len: nat,
    pub frozen: bool,
}

impl View for WindowHistory {
    type V = HistoryView;

    open spec fn view(&self) -> HistoryView {
        HistoryView {
            history: self.history@,
            max_len: self.max_len as nat,
            frozen: self.frozen,
        }
    }
}

/// The `max_len` most recent windows of `history`.
pub open spec fn most_recent(history: Seq<i64>, max_len: nat) -> Seq<i64> {
    if history.len() <= max_len {
        history
    } else {
        history.take(max_len as int)
    }
}

impl HistoryView {
    /// No window is remembered twice, and no more than `max_len` are.
    pub open spec fn wf(self) -> bool {
        &&& self.history.no_duplicates()
        &&& self.history.len() <= self.max_len
    }

    /// After `con_id` became the most recent window.
    pub open spec fn added(self, con_id: i64) -> HistoryView {
        HistoryView {
            history: most_recent(touched(self.history, con_id), self.max_len),
            ..self
        }
    }

    /// After the window at `pos` became the most recent one.
    pub open spec fn promoted(self, pos: int) -> HistoryView {
        HistoryView { history: promoted(self.history, pos), ..self }
    }

    proof fn lemma_added(self, con_id: i64)
        ensures
            self.wf() ==> self.added(con_id).wf(),
    {
        lemma_touched(self.history, con_id);
    }
}

impl Default for WindowHistory {
    fn default() -> (history: Self)
        ensures
            history@ == (HistoryView { history: Seq::empty(), max_len: 0, frozen: false }),
            history.wf(),
    {
        WindowHistory { history: VecDeque::new(), max_len: 0, frozen: false }
    }
}

impl WindowHistory {
    /// Well-formed: see [`HistoryView::wf`].
    pub open spec fn wf(&self) -> bool {
        self@.wf()
    }

    /// An empty history of at most `max_len` windows, with room for all of
    /// them: they must fit into memory.
    pub fn new(max_len: usize) -> (history: Self)
        requires
            max_len * 8 <= isize::MAX,
        ensures
            history@ == (HistoryView {
                history: Seq::empty(),
                max_len: max_len as nat,
                frozen: false,
            }),
            history.wf(),
    {
        WindowHistory { history: VecDeque::with_capacity(max_len), max_len, frozen: false }
    }

    /// Add con_id to front of history. If already present, move it. The oldest
    /// windows leave if there are more than `max_len`.
    pub fn add(&mut self, con_id: i64)
        ensures
            final(self)@ == old(self)@.added(con_id),
            old(self).wf() ==> final(self).wf(),
    {
        proof {
            self@.lemma_added(con_id);
        }
        self.retain_others(con_id);
        self.history.push_front(con_id);
        let ghost all = self.history@;
        assert(all == touched(old(self).history@, con_id));
        while self.history.len() > self.max_len
            invariant
                self.max_len == old(self).max_len,
                self.frozen == old(self).frozen,
                self.history@.len() <= all.len(),
                self.history@ == all.take(self.history@.len() as int),
                self.history@.len() < all.len() ==> self.history@.len() >= self.max_len,
            decreases self.history.len(),
        {
            let ghost before = self.history@;
            self.history.pop_back();
            assert(self.history@ =~= all.take(before.len() - 1));
        }
        assert(self.history@ =~= most_recent(all, self.max_len as nat));
        assert(self@ =~= old(self)@.added(con_id));
    }

    /// Drops every occurrence of `con_id`.
    fn retain_others(&mut self, con_id: i64)
        ensures
            final(self)@ == (HistoryView {
                history: without(old(self)@.history, con_id),
                ..old(self)@
            }),
    {
        let mut kept: VecDeque<i64> = VecDeque::new();
        let mut i: usize = 0;
        proof {
            reveal(Seq::filter);
            assert(self.history@.take(0) == Seq::<i64>::empty());
        }
        while i < self.history.len()
            invariant
                i <= self.history@.len(),
                *self == *old(self),
                kept@ == without(self.history@.take(i as int), con_id),
            decreases self.history.len() - i,
        {
            let id: i64 = self.history[i];
            proof {
                reveal(Seq::filter);
                assert(self.history@.take(i + 1).drop_last() == self.history@.take(i as int));
            }
            if id != con_id {
                kept.push_back(id);
            }
            i += 1;
        }
        proof {
            assert(self.history@.take(self.history@.len() as int) == self.history@);
        }
        self.history = kept;
    }

    /// The window at `pos`, if there is one.
    pub fn get(&self, pos: usize) -> (con_id: Option<i64>)
        ensures
            con_id == (if pos < self@.history.len() {
                Some(self@.history[pos as int])
            } else {
                None
            }),
    {
        if pos < self.history.len() {
            Some(self.history[pos])
        } else {
            None
        }
    }

    /// The number of windows.
    pub fn len(&self) -> (len: usize)
        ensures
            len == self@.history.len(),
    {
        self.history.len()
    }

    /// Move the item at `pos` to the front (used on commit).
    pub fn promote(&mut self, pos: usize)
        ensures
            final(self)@ == old(self)@.promoted(pos as int),
            old(self).wf() ==> final(self).wf(),
    {
        proof {
            lemma_promoted(self.history@, pos as int);
        }
        if let Some(con_id) = self.history.remove(pos) {
            self.history.push_front(con_id);
        }
        assert(self@ =~= old(self)@.promoted(pos as int));
    }
}

/// Shared state between the focus-event loop and the SIGUSR1 handler.
pub struct State {
    pub history: WindowHistory,
    /// `Some(_)` while the user is cycling: the position in `history`.
    pub cycle_pos: Option<usize>,
    /// The scheduled commit, cancelled when a new Tab press arrives.
    pub pending_commit: Option<u64>,
}

/// What a [`State`] stands for.
#[verifier::ext_equal]
pub struct StateView {
    pub history: HistoryView,
    pub cycle_pos: Option<int>,
    pub pending_commit: Option<u64>,
}

/// What can happen to a daemon that is up and running.
pub enum Event {
    /// Sway reports that a window has the focus.
    Focus(i64),
    /// Alt+Tab was pressed.
    Press,
    /// A commit was scheduled.
    Schedule(u64),
    /// A scheduled commit ran.
    Commit,
}

/// What a key press asks the program to do: cancel the scheduled commit, if
/// there is one, focus a window, and schedule a commit.
pub struct Preview {
    pub cancel: Option<u64>,
    pub target: i64,
}

impl View for State {
    type V = StateView;

    open spec fn view(&self) -> StateView {
        StateView {
            history: self.history@,
            cycle_pos: match self.cycle_pos {
                Some(pos) => Some(pos as int),
                None => None,
            },
            pending_commit: self.pending_commit,
        }
    }
}

impl StateView {
    /// No windows, no cycle, no scheduled commit.
    pub open spec fn initial() -> StateView {
        StateView {
            history: HistoryView {
                history: Seq::empty(),
                max_len: MAX_WINDOWS as nat,
                frozen: false,
            },
            cycle_pos: None,
            pending_commit: None,
        }
    }

    /// What every operation keeps: the history is well-formed, it is frozen
    /// exactly while cycling, and a cycle stands on one of at least two windows.
    pub open spec fn wf(self) -> bool {
        &&& self.history.wf()
        &&& self.history.frozen == self.cycle_pos is Some
        &&& self.cycle_pos matches Some(pos) ==> {
            &&& self.history.history.len() >= 2
            &&& 0 <= pos < self.history.history.len()
        }
    }

    /// Where the next key press takes the cycle.
    pub open spec fn next_pos(self) -> int {
        match self.cycle_pos {
            None => 1,
            Some(pos) => (pos + 1) % (self.history.history.len() as int),
        }
    }

    /// The window that the next key press previews: none if there are fewer
    /// than two.
    pub open spec fn next_target(self) -> Option<i64> {
        if self.history.history.len() < 2 {
            None
        } else {
            Some(self.history.history[self.next_pos()])
        }
    }

    /// After a key press: the scheduled commit is cancelled, and the history
    /// is frozen from the first press on.
    pub open spec fn pressed(self) -> StateView {
        if self.history.history.len() < 2 {
            self
        } else {
            StateView {
                history: HistoryView {
                    frozen: self.history.frozen || self.cycle_pos is None,
                    ..self.history
                },
                cycle_pos: Some(self.next_pos()),
                pending_commit: None,
            }
        }
    }

    /// After the scheduled commit ran.
    pub open spec fn committed(self) -> StateView {
        StateView {
            history: match self.cycle_pos {
                Some(pos) => HistoryView { frozen: false, ..self.history.promoted(pos) },
                None => self.history,
            },
            cycle_pos: None,
            pending_commit: None,
        }
    }

    /// After sway reported that `con_id` has the focus.
    pub open spec fn focused(self, con_id: i64) -> StateView {
        if self.history.frozen {
            self
        } else {
            StateView { history: self.history.added(con_id), ..self }
        }
    }

    /// After the commit `task` was scheduled.
    pub open spec fn scheduled(self, task: u64) -> StateView {
        StateView { pending_commit: Some(task), ..self }
    }

    /// After all of `events`, first to last.
    pub open spec fn run(self, events: Seq<Event>) -> StateView
        decreases events.len(),
    {
        if events.len() == 0 {
            self
        } else {
            let before = self.run(events.drop_last());
            match events.last() {
                Event::Focus(con_id) => before.focused(con_id),
                Event::Press => before.pressed(),
                Event::Schedule(task) => before.scheduled(task),
                Event::Commit => before.committed(),
            }
        }
    }

    /// After one key press for each of `tasks`, each followed by the scheduling
    /// of that commit.
    pub open spec fn previewed(self, tasks: Seq<u64>) -> StateView
        decreases tasks.len(),
    {
        if tasks.len() == 0 {
            self
        } else {
            self.previewed(tasks.drop_last()).pressed().scheduled(tasks.last())
        }
    }

    /// After `presses` key presses.
    pub open spec fn pressed_times(self, presses: nat) -> StateView
        decreases presses,
    {
        if presses == 0 {
            self
        } else {
            self.pressed_times((presses - 1) as nat).pressed()
        }
    }
}

impl Default for State {
    fn default() -> (state: Self)
        ensures
            state@ == StateView::initial(),
            state.wf(),
    {
        State { history: WindowHistory::new(MAX_WINDOWS), cycle_pos: None, pending_commit: None }
    }
}

impl State {
    /// Well-formed: see [`StateView::wf`].
    pub open spec fn wf(&self) -> bool {
        self@.wf()
    }

    /// Stores the commit that was scheduled after a key press, so that the
    /// next one can cancel it.
    pub fn schedule_commit(&mut self, task: u64)
        ensures
            final(self)@ == old(self)@.scheduled(task),
            old(self).wf() ==> final(self).wf(),
    {
        self.pending_commit = Some(task);
    }

    /// Runs the scheduled commit: promotes the window that the cycle stands
    /// on, and ends the cycle.
    pub fn commit(&mut self)
        ensures
            final(self)@ == old(self)@.committed(),
            old(self).wf() ==> final(self).wf(),
    {
        if let Some(pos) = self.cycle_pos.take() {
            self.history.promote(pos);
            self.history.frozen = false;
        }
        self.pending_commit = None;
        assert(self@ =~= old(self)@.committed());
    }

    /// Handles a focus event. During a cycle it is ignored: our own previews
    /// cause such events.
    pub fn handle_focus_event(&mut self, con_id: i64)
        ensures
            final(self)@ == old(self)@.focused(con_id),
            old(self).wf() ==> final(self).wf(),
    {
        if !self.history.frozen {
            self.history.add(con_id);
        }
        assert(self@ =~= old(self)@.focused(con_id));
    }
}

/// Handles a window event: only a window that gets the focus matters.
pub fn handle_window_event(state: &mut State, change: WindowChange, con_id: i64)
    ensures
        final(state)@ == (if change is Focus {
            old(state)@.focused(con_id)
        } else {
            old(state)@
        }),
        old(state).wf() ==> final(state).wf(),
{
    if let WindowChange::Focus = change {
        state.handle_focus_event(con_id);
    }
}

/// Advances the Alt+Tab cycle by one. Nothing happens, not even to the
/// scheduled commit, while there are fewer than two windows.
pub fn handle_sigusr1(state: &mut State) -> (preview: Option<Preview>)
    requires
        old(state)@.history.history.len() >= 2 ==> old(state).cycle_pos != Some(usize::MAX),
    ensures
        final(state)@ == old(state)@.pressed(),
        preview == (match old(state)@.next_target() {
            Some(target) => Some(Preview { cancel: old(state).pending_commit, target }),
            None => None,
        }),
        old(state).wf() ==> final(state).wf(),
{
    if state.history.len() < 2 {
        return None;
    }
    let cancel: Option<u64> = state.pending_commit.take();
    let pos: usize = match state.cycle_pos {
        None => {
            state.history.frozen = true;
            1
        },
        Some(pos) => (pos + 1) % state.history.len(),
    };
    state.cycle_pos = Some(pos);
    assert(state@ =~= old(state)@.pressed());
    match state.history.get(pos) {
        Some(target) => Some(Preview { cancel, target }),
        None => None,
    }
}

/// The command that focuses the given container.
pub fn focus_con_id(con_id: i64) -> (command: String)
    ensures
        command@ == focus_text(con_id),
{
    focus_command(con_id)
}

/// Whether the window got the focus, by the reply to the focus command.
pub fn focus_con_id_reply(reply: Reply) -> (outcome: Result<(), String>)
    ensures
        match reply {
            Reply::Failed(reason) => outcome matches Err(error) && error@ == reason@,
            Reply::Answered(results) => if results@.contains(true) {
                outcome matches Err(error) && error@ == "focus command failed"@
            } else {
                outcome is Ok
            },
        },
{
    match reply {
        Reply::Failed(reason) => Err(reason),
        Reply::Answered(results) => if any_rejected(&results) {
            Err("focus command failed".to_owned())
        } else {
            Ok(())
        },
    }
}

/// Starts to focus the target of a key press, once connecting to sway has
/// succeeded or failed: the command to run, or the error to print. Either way
/// a commit is to be scheduled.
pub fn preview(target: i64, connection: Result<(), String>) -> (step: Result<String, String>)
    ensures
        match connection {
            Ok(()) => step matches Ok(command) && command@ == focus_text(target),
            Err(reason) => step matches Err(line) && line@ == "Connection error: "@ + reason@,
        },
{
    match connection {
        Ok(()) => Ok(focus_con_id(target)),
        Err(reason) => Err(joined("Connection error: ", reason.as_str())),
    }
}

/// The error to print after the target's focus command, if any.
pub fn preview_reply(reply: Reply) -> (error: Option<String>)
    ensures
        match reply {
            Reply::Failed(reason) => error matches Some(line) && line@ == "Preview focus error: "@
                + reason@,
            Reply::Answered(results) => if results@.contains(true) {
                error matches Some(line) && line@ == "Preview focus error: "@
                    + "focus command failed"@
            } else {
                error is None
            },
        },
{
    match focus_con_id_reply(reply) {
        Ok(()) => None,
        Err(reason) => Some(joined("Preview focus error: ", reason.as_str())),
    }
}

/// The command that binds the key press.
pub fn setup_binding(pid: u32) -> (command: String)
    ensures
        command@ == Binding::Press.bind_text(pid),
{
    Binding::Press.bind_command(pid)
}

/// Whether the key press is bound, by the reply to the bind command.
pub fn setup_binding_reply(reply: Reply) -> (outcome: Result<(), String>)
    ensures
        match reply {
            Reply::Failed(reason) => outcome matches Err(error) && error@ == reason@,
            Reply::Answered(results) => if results@.contains(true) {
                outcome matches Err(error) && error@ == "Failed to bind Alt+Tab"@
            } else {
                outcome is Ok
            },
        },
{
    match reply {
        Reply::Failed(reason) => Err(reason),
        Reply::Answered(results) => if any_rejected(&results) {
            Err("Failed to bind Alt+Tab".to_owned())
        } else {
            Ok(())
        },
    }
}

/// The command that unbinds the key press.
pub fn remove_binding() -> (command: String)
    ensures
        command@ == Binding::Press.unbind_text(),
{
    Binding::Press.unbind_command()
}

/// What the reply to the unbind command means: an error, or the warning to
/// print, if there is one.
pub fn remove_binding_reply(reply: Reply) -> (outcome: Result<Option<String>, String>)
    ensures
        match reply {
            Reply::Failed(reason) => outcome matches Err(error) && error@ == reason@,
            Reply::Answered(results) => if results@.contains(true) {
                outcome matches Ok(Some(warning)) && warning@
                    == "Warning: failed to unbind Alt+Tab"@
            } else {
                outcome matches Ok(None)
            },
        },
{
    match reply {
        Reply::Failed(reason) => Err(reason),
        Reply::Answered(results) => if any_rejected(&results) {
            Ok(Some("Warning: failed to unbind Alt+Tab".to_owned()))
        } else {
            Ok(None)
        },
    }
}

/// Whatever happened since the start, at most [`MAX_WINDOWS`] windows are
/// remembered, none twice; the history is frozen exactly while cycling; and a
/// cycle stands on a remembered window.
pub proof fn law_reachable_states_are_valid(events: Seq<Event>)
    ensures
        StateView::initial().run(events).wf(),
        StateView::initial().run(events).history.max_len == MAX_WINDOWS,
    decreases events.len(),
{
    if events.len() > 0 {
        let before = StateView::initial().run(events.drop_last());
        law_reachable_states_are_valid(events.drop_last());
        match events.last() {
            Event::Focus(con_id) => before.history.lemma_added(con_id),
            Event::Commit => {
                if before.cycle_pos is Some {
                    lemma_promoted(before.history.history, before.cycle_pos->0);
                }
            },
            _ => {},
        }
    }
}

/// The history never holds more than its limit after a window was added.
pub proof fn law_history_is_bounded(history: HistoryView, con_id: i64)
    ensures
        history.added(con_id).history.len() <= history.max_len,
{
}

/// Adding a window makes it the most recent one, and drops none but the oldest.
pub proof fn law_added_window_is_most_recent(history: HistoryView, con_id: i64)
    requires
        history.max_len >= 1,
    ensures
        history.added(con_id).history.len() >= 1,
        history.added(con_id).history[0] == con_id,
        history.added(con_id).history.is_prefix_of(touched(history.history, con_id)),
{
    lemma_touched(history.history, con_id);
}

/// The first Alt+Tab goes to the window that had the focus before the current
/// one.
pub proof fn law_first_press_targets_previous_window(s: StateView, previous: i64, current: i64)
    requires
        s.wf(),
        !s.history.frozen,
        s.history.max_len >= 2,
        previous != current,
    ensures
        s.focused(previous).focused(current).next_target() == Some(previous),
{
    let once = s.focused(previous).history.history;
    lemma_touched(s.history.history, previous);
    let rest = once.drop_first();
    assert(once == seq![previous] + rest);
    lemma_without_past_first(previous, rest, current);
    let twice = touched(once, current);
    assert(twice == seq![current] + (seq![previous] + without(rest, current)));
    assert(twice[1] == previous);
    assert(s.focused(previous).focused(current).history.history[1] == previous);
}

/// Key presses go through the history one window at a time, starting from the
/// previously focused one, around its end, and leave its order as it is.
pub proof fn law_presses_go_round(s: StateView, presses: nat)
    requires
        s.cycle_pos is None,
        s.history.history.len() >= 2,
        presses >= 1,
    ensures
        s.pressed_times(presses) == (StateView {
            history: HistoryView { frozen: true, ..s.history },
            cycle_pos: Some((presses as int) % (s.history.history.len() as int)),
            pending_commit: None,
        }),
    decreases presses,
{
    let len = s.history.history.len() as int;
    vstd::arithmetic::div_mod::lemma_small_mod(1, len as nat);
    if presses == 1 {
        assert(s.pressed_times(0) == s);
    } else {
        law_presses_go_round(s, (presses - 1) as nat);
        vstd::arithmetic::div_mod::lemma_add_mod_noop(presses - 1, 1, len);
    }
}

/// Key presses, each followed by the commit that it schedules, go through the
/// history in the same way. When the last commit runs, the window that the
/// presses count to comes to the front, the cycle is over, the history goes on
/// and no commit is left.
pub proof fn law_settling_after_presses(s: StateView, tasks: Seq<u64>)
    requires
        s.cycle_pos is None,
        s.history.history.len() >= 2,
        tasks.len() >= 1,
    ensures
        ({
            let pos = (tasks.len() as int) % (s.history.history.len() as int);
            &&& s.previewed(tasks) == (StateView {
                history: HistoryView { frozen: true, ..s.history },
                cycle_pos: Some(pos),
                pending_commit: Some(tasks.last()),
            })
            &&& s.previewed(tasks).committed() == (StateView {
                history: HistoryView {
                    history: promoted(s.history.history, pos),
                    frozen: false,
                    ..s.history
                },
                cycle_pos: None,
                pending_commit: None,
            })
        }),
    decreases tasks.len(),
{
    let len = s.history.history.len() as int;
    vstd::arithmetic::div_mod::lemma_small_mod(1, len as nat);
    if tasks.len() == 1 {
        assert(s.previewed(tasks.drop_last()) == s);
    } else {
        law_settling_after_presses(s, tasks.drop_last());
        vstd::arithmetic::div_mod::lemma_add_mod_noop(tasks.len() - 1, 1, len);
    }
}

/// A commit makes the window that the last press previewed the most recent
/// one, ends the cycle and lets the history go on.
pub proof fn law_commit_promotes_preview(s: StateView)
    requires
        s.wf(),
        s.history.history.len() >= 2,
    ensures
        s.pressed().committed().history.history[0] == s.next_target()->0,
        s.pressed().committed().history.history.to_multiset()
            == s.history.history.to_multiset(),
        !s.pressed().committed().history.frozen,
        s.pressed().committed().cycle_pos is None,
{
    lemma_promoted(s.history.history, s.next_pos());
}

/// During a cycle no focus event changes anything, whatever window it names.
pub proof fn law_focus_is_ignored_while_cycling(s: StateView, con_id: i64)
    requires
        s.wf(),
        s.cycle_pos is Some,
    ensures
        s.focused(con_id) == s,
{
}

/// Alt+Tab switches back and forth: two committed single presses restore the
/// history.
pub proof fn law_switching_twice_returns(s: StateView)
    requires
        s.wf(),
        s.cycle_pos is None,
        s.history.history.len() >= 2,
    ensures
        s.pressed().committed().pressed().committed().history == s.history,
{
    let h = s.history.history;
    let once = s.pressed().committed();
    assert(once.history.history == promoted(h, 1));
    assert(promoted(promoted(h, 1), 1) =~= h);
    assert(once.pressed().committed().history =~= s.history);
}

/// Adding a window keeps as many windows as there is room for: all of the old
/// ones and the new one if they fit, and as many as the limit allows otherwise.
pub proof fn law_added_window_drops_none_while_there_is_room(history: HistoryView, con_id: i64)
    requires
        history.history.no_duplicates(),
    ensures
        ({
            let distinct = if history.history.contains(con_id) {
                history.history.len()
            } else {
                history.history.len() + 1
            };
            let after = history.added(con_id).history;
            &&& after.len() == if distinct <= history.max_len {
                distinct
            } else {
                history.max_len
            }
            &&& distinct <= history.max_len ==> forall|id: i64| #[trigger]
                after.contains(id) <==> history.history.contains(id) || id == con_id
        }),
        history.added(con_id).max_len == history.max_len,
        history.added(con_id).frozen == history.frozen,
{
    lemma_touched(history.history, con_id);
    if history.history.contains(con_id) {
        lemma_without_at(history.history, history.history.index_of(con_id));
    } else {
        lemma_without_absent(history.history, con_id);
    }
}

/// Adding a window brings in no other, keeps the order of those that stay, and
/// drops none that is more recent than one that stays.
pub proof fn law_added_window_drops_the_oldest(
    history: HistoryView,
    con_id: i64,
    a: i64,
    b: i64,
)
    requires
        history.history.no_duplicates(),
        a != con_id,
        b != con_id,
    ensures
        ({
            let before = history.history;
            let after = history.added(con_id).history;
            &&& after.contains(a) ==> before.contains(a)
            &&& after.no_duplicates()
            &&& after.contains(a) && after.contains(b) ==> (stands_before(after, a, b)
                <==> stands_before(before, a, b))
            &&& after.contains(b) && before.contains(a) && !after.contains(a) ==> stands_before(
                before,
                b,
                a,
            )
        }),
{
    let before = history.history;
    let all = touched(before, con_id);
    let after = history.added(con_id).history;
    lemma_touched(before, con_id);
    law_touching_keeps_order(before, con_id, a, b);
    law_touching_keeps_order(before, con_id, b, a);
    assert forall|i: int| 0 <= i < after.len() implies #[trigger] after[i] == all[i] by {}
    if after.contains(a) {
        assert(all[after.index_of(a)] == a);
        assert(all.contains(a));
    }
    if after.contains(a) && after.contains(b) {
        let i = after.index_of(a);
        let j = after.index_of(b);
        assert(after[i] == a && after[j] == b);
        assert(all[i] == a && all[j] == b);
        if stands_before(all, a, b) {
            let (k, l) = choose|k: int, l: int|
                #![trigger all[k], all[l]]
                0 <= k < l < all.len() && all[k] == a && all[l] == b;
            assert(k == i && l == j);
        }
        if stands_before(after, a, b) {
            let (k, l) = choose|k: int, l: int|
                #![trigger after[k], after[l]]
                0 <= k < l < after.len() && after[k] == a && after[l] == b;
            assert(all[k] == a && all[l] == b);
        }
    }
    if after.contains(b) && before.contains(a) && !after.contains(a) {
        let j = after.index_of(b);
        assert(all.contains(a));
        let i = all.index_of(a);
        if i < after.len() {
            assert(after[i] == a);
        }
        assert(all[j] == b && all[i] == a);
        assert(stands_before(all, b, a));
    }
}

/// Outside a cycle a focus event adds its window, and changes nothing else.
pub proof fn law_focus_outside_a_cycle_adds_the_window(s: StateView, con_id: i64)
    requires
        s.wf(),
        s.cycle_pos is None,
    ensures
        s.history.max_len >= 1 ==> s.focused(con_id).history.history[0] == con_id,
        s.focused(con_id).history == s.history.added(con_id),
        s.focused(con_id).cycle_pos is None,
        s.focused(con_id).pending_commit == s.pending_commit,
{
    lemma_touched(s.history.history, con_id);
}

/// A press during a cycle goes on to the next older window, or from the oldest
/// one to the most recent, leaves the order of the history and cancels the
/// scheduled commit.
pub proof fn law_press_goes_one_further(s: StateView)
    requires
        s.wf(),
        s.cycle_pos is Some,
    ensures
        s.next_target() == Some(
            if s.cycle_pos->0 + 1 < s.history.history.len() {
                s.history.history[s.cycle_pos->0 + 1]
            } else {
                s.history.history[0]
            },
        ),
        s.pressed() == (StateView {
            history: s.history,
            cycle_pos: Some(
                if s.cycle_pos->0 + 1 < s.history.history.len() {
                    s.cycle_pos->0 + 1
                } else {
                    0
                },
            ),
            pending_commit: None,
        }),
{
    let len = s.history.history.len();
    let pos = s.cycle_pos->0;
    if pos + 1 < len {
        vstd::arithmetic::div_mod::lemma_small_mod((pos + 1) as nat, len);
    } else {
        vstd::arithmetic::div_mod::lemma_mod_self_0(len as int);
    }
}

/// The first press previews the second window of the history.
pub proof fn law_first_press_previews_second_window(s: StateView)
    requires
        s.history.history.len() >= 2,
        s.cycle_pos is None,
    ensures
        s.next_target() == Some(s.history.history[1]),
        s.pressed().cycle_pos == Some(1int),
        s.pressed().history.frozen,
{
}

/// With fewer than two windows a press previews nothing and changes nothing,
/// not even the scheduled commit.
pub proof fn law_short_history_has_no_target(s: StateView)
    requires
        s.history.history.len() < 2,
    ensures
        s.next_target() is None,
        s.pressed() == s,
{
}

/// A commit brings the window that the cycle stands on to the front and keeps
/// the others, all of them and in their order.
pub proof fn law_commit_keeps_order(s: StateView, a: i64, b: i64)
    requires
        s.cycle_pos matches Some(pos) && 0 <= pos < s.history.history.len() && a
            != s.history.history[pos] && b != s.history.history[pos],
    ensures
        s.committed().history.history.len() == s.history.history.len(),
        s.committed().history.history[0] == s.history.history[s.cycle_pos->0],
        s.committed().history.history.contains(a) <==> s.history.history.contains(a),
        stands_before(s.committed().history.history, a, b) <==> stands_before(
            s.history.history,
            a,
            b,
        ),
        s.committed().history.max_len == s.history.max_len,
        !s.committed().history.frozen,
        s.committed().cycle_pos is None,
        s.committed().pending_commit is None,
{
    lemma_promoted(s.history.history, s.cycle_pos->0);
    law_promotion_keeps_order(s.history.history, s.cycle_pos->0, a, b);
}

/// Without a cycle a commit leaves the history as it is.
pub proof fn law_commit_without_cycle_keeps_history(s: StateView)
    requires
        s.cycle_pos is None,
    ensures
        s.committed().history == s.history,
        s.committed().cycle_pos is None,
        s.committed().pending_commit is None,
{
}

/// Scheduling a commit stores it, and changes nothing else; the next press then
/// takes it back.
pub proof fn law_press_takes_back_scheduled_commit(s: StateView, task: u64)
    ensures
        s.scheduled(task).pending_commit == Some(task),
        s.scheduled(task).history == s.history,
        s.scheduled(task).cycle_pos == s.cycle_pos,
        s.history.history.len() >= 2 ==> s.scheduled(task).pressed() == s.pressed(),
        s.history.history.len() >= 2 ==> s.scheduled(task).pressed().pending_commit is None,
{
}

/// A promotion in a history moves one entry and leaves the limit and the
/// freezing alone.
pub proof fn law_promotion_moves_one_entry(history: HistoryView, pos: int)
    requires
        0 <= pos,
    ensures
        ({
            let after = history.promoted(pos);
            &&& after.max_len == history.max_len
            &&& after.frozen == history.frozen
            &&& after.history.len() == history.history.len()
            &&& pos >= history.history.len() ==> after.history == history.history
            &&& pos < history.history.len() ==> {
                &&& after.history[0] == history.history[pos]
                &&& forall|i: int|
                    0 <= i < pos ==> after.history[i + 1] == #[trigger] history.history[i]
                &&& forall|i: int|
                    pos < i < history.history.len() ==> after.history[i]
                        == #[trigger] history.history[i]
            }
        }),
{
}

/// The daemon starts with an empty history, no cycle and no scheduled commit.
pub proof fn law_start_is_empty()
    ensures
        StateView::initial().history.history.len() == 0,
        StateView::initial().history.max_len == MAX_WINDOWS,
        !StateView::initial().history.frozen,
        StateView::initial().cycle_pos is None,
        StateView::initial().pending_commit is None,
{
}

/// A view holds what the fields hold.
pub proof fn law_views_hold_the_fields(history: WindowHistory, state: State)
    ensures
        history@.history == history.history@,
        history@.max_len == history.max_len,
        history@.frozen == history.frozen,
        state@.history == state.history@,
        state.cycle_pos is None <==> state@.cycle_pos is None,
        state.cycle_pos matches Some(pos) ==> state@.cycle_pos == Some(pos as int),
        state@.pending_commit == state.pending_commit,
{
}

} // verus!
