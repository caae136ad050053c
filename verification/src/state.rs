//! The window history and the Alt+Tab cycle through it.

use crate::recency::{count_others, pos_without, promoted, remove_all, touched, touched_all, without};
use crate::recency::{lemma_promoted, lemma_touched, lemma_without};
use vstd::prelude::*;

verus! {

/// Shared state between the focus-event loop and the signal handlers.
///
/// `history` is ordered from most-recent (index 0) to least-recent. Index 0 is
/// the current window, index 1 the previously focused one, and so on. The
/// state is "cycling" (see [`State::cycling`]) while `cycle_pos` is `Some(_)`.
/// While cycling, the focus events of our own previews are ignored so that
/// they do not pollute the history.
pub struct State {
    pub history: Vec<i64>,
    /// `Some(_)` while the user is cycling: the position in `history`.
    pub cycle_pos: Option<usize>,
    /// The con_id we most recently told sway to focus (our own preview).
    /// It tells our preview focus events from real user switches.
    pub last_preview: Option<i64>,
}

/// What a [`State`] stands for.
#[verifier::ext_equal]
pub struct StateView {
    pub history: Seq<i64>,
    pub cycle_pos: Option<int>,
    pub last_preview: Option<i64>,
}

impl View for State {
    type V = StateView;

    open spec fn view(&self) -> StateView {
        StateView {
            history: self.history@,
            cycle_pos: match self.cycle_pos {
                Some(pos) => Some(pos as int),
                None => None,
            },
            last_preview: self.last_preview,
        }
    }
}

impl StateView {
    /// No windows, no cycle.
    pub open spec fn initial() -> StateView {
        StateView { history: Seq::empty(), cycle_pos: None, last_preview: None }
    }

    pub open spec fn cycling(self) -> bool {
        self.cycle_pos is Some
    }

    /// What every operation keeps: no window is remembered twice, a cycle has
    /// at least two windows to go through and stands on one of them, and there
    /// is a previewed window, itself remembered, exactly while cycling.
    pub open spec fn wf(self) -> bool {
        &&& self.history.no_duplicates()
        &&& match self.cycle_pos {
            Some(pos) => {
                &&& self.history.len() >= 2
                &&& 0 <= pos < self.history.len()
                &&& self.last_preview matches Some(con_id) && self.history.contains(con_id)
            },
            None => self.last_preview is None,
        }
    }

    /// The cycle, if there is one, stands on the window that is previewed.
    pub open spec fn on_preview(self) -> bool {
        self.cycle_pos matches Some(pos) ==> {
            &&& 0 <= pos < self.history.len()
            &&& self.last_preview == Some(self.history[pos])
        }
    }

    /// `self` with no cycle under way.
    pub open spec fn idle(self) -> StateView {
        StateView { cycle_pos: None, last_preview: None, ..self }
    }

    /// After `con_id` became the most recent window.
    pub open spec fn added(self, con_id: i64) -> StateView {
        StateView { history: touched(self.history, con_id), ..self }
    }

    /// After the windows `con_ids` were recorded, oldest first.
    pub open spec fn seeded(self, con_ids: Seq<i64>) -> StateView {
        StateView { history: touched_all(self.history, con_ids), ..self }
    }

    /// After the window `con_id` closed. The cycle ends if that window was the
    /// preview or if fewer than two windows are left; otherwise it stays on the
    /// window it stood on.
    pub open spec fn closed(self, con_id: i64) -> StateView {
        let rest = without(self.history, con_id);
        let removed = StateView { history: rest, ..self };
        match self.cycle_pos {
            None => removed,
            Some(pos) => if self.last_preview == Some(con_id) || rest.len() < 2 {
                removed.idle()
            } else {
                StateView { cycle_pos: Some(pos_without(self.history, pos, con_id)), ..removed }
            },
        }
    }

    /// Where the next key press takes the cycle: to the previously focused
    /// window first, then one further at a time, around the end of the history.
    pub open spec fn next_pos(self) -> int {
        match self.cycle_pos {
            None => 1,
            Some(pos) => (pos + 1) % (self.history.len() as int),
        }
    }

    /// The window that the next key press previews: none if there are fewer
    /// than two.
    pub open spec fn next_target(self) -> Option<i64> {
        if self.history.len() < 2 {
            None
        } else {
            Some(self.history[self.next_pos()])
        }
    }

    /// After a key press.
    pub open spec fn advanced(self) -> StateView {
        if self.history.len() < 2 {
            self
        } else {
            StateView {
                cycle_pos: Some(self.next_pos()),
                last_preview: self.next_target(),
                ..self
            }
        }
    }

    /// After the cycle, if there is one, was committed.
    pub open spec fn committed(self) -> StateView {
        match self.cycle_pos {
            None => self,
            Some(pos) => StateView { history: promoted(self.history, pos), ..self }.idle(),
        }
    }

    /// After sway reported that `con_id` has the focus.
    pub open spec fn focused(self, con_id: i64) -> StateView {
        if !self.cycling() {
            self.added(con_id)
        } else if self.last_preview == Some(con_id) {
            self
        } else {
            self.committed().added(con_id)
        }
    }
}

impl Default for State {
    fn default() -> (state: Self)
        ensures
            state@ == StateView::initial(),
            state.wf(),
    {
        let state = State { history: Vec::new(), cycle_pos: None, last_preview: None };
        assert(state@ =~= StateView::initial());
        state
    }
}

impl State {
    /// Well-formed: see [`StateView::wf`].
    pub open spec fn wf(&self) -> bool {
        self@.wf()
    }

    /// True while the user is actively cycling.
    pub fn cycling(&self) -> (cycling: bool)
        ensures
            cycling == self@.cycling(),
    {
        self.cycle_pos.is_some()
    }

    /// Add con_id to front of history. If already present, move it.
    pub fn add(&mut self, con_id: i64)
        ensures
            final(self)@ == old(self)@.added(con_id),
            old(self).wf() ==> final(self).wf(),
    {
        remove_all(&mut self.history, con_id);
        self.history.insert(0, con_id);
        proof {
            lemma_touched(old(self)@.history, con_id);
            assert(self.history@ == touched(old(self).history@, con_id));
            assert(self@ =~= old(self)@.added(con_id));
        }
    }

    /// Remove a window from history (e.g. when it closes).
    pub fn remove_id(&mut self, con_id: i64)
        ensures
            final(self)@ == (StateView {
                history: without(old(self)@.history, con_id),
                ..old(self)@
            }),
    {
        remove_all(&mut self.history, con_id);
    }

    /// Move the item at `pos` to the front (used on commit).
    pub fn promote(&mut self, pos: usize)
        ensures
            final(self)@ == (StateView {
                history: promoted(old(self)@.history, pos as int),
                ..old(self)@
            }),
            old(self).wf() ==> final(self).wf(),
    {
        proof {
            lemma_promoted(self.history@, pos as int);
        }
        if pos < self.history.len() {
            let con_id: i64 = self.history.remove(pos);
            self.history.insert(0, con_id);
            assert(self.history@ == promoted(old(self).history@, pos as int));
        }
    }

    /// Seed the history with existing window con_ids (e.g. from sway get_tree).
    /// Added in order: the first id in the slice will be at the back (oldest),
    /// the last will be at the front (most recent). Typically called once at
    /// startup.
    pub fn seed(&mut self, con_ids: &[i64])
        ensures
            final(self)@ == old(self)@.seeded(con_ids@),
            old(self).wf() ==> final(self).wf(),
    {
        let mut i: usize = 0;
        assert(con_ids@.take(0) == Seq::<i64>::empty());
        while i < con_ids.len()
            invariant
                i <= con_ids.len(),
                self@ == old(self)@.seeded(con_ids@.take(i as int)),
                old(self).wf() ==> self.wf(),
            decreases con_ids.len() - i,
        {
            proof {
                assert(con_ids@.take(i + 1).drop_last() == con_ids@.take(i as int));
            }
            self.add(con_ids[i]);
            i += 1;
        }
        assert(con_ids@.take(con_ids.len() as int) == con_ids@);
    }

    /// Handle a window close event. Removes the window from history.
    /// If the closed window was the current cycle target, cancels the cycle.
    /// Otherwise the cycle position follows the window it stands on.
    pub fn handle_close_event(&mut self, con_id: i64)
        ensures
            final(self)@ == old(self)@.closed(con_id),
            old(self).wf() ==> final(self).wf(),
    {
        let kept_before: usize = match self.cycle_pos {
            Some(pos) => count_others(&self.history, pos, con_id),
            None => 0,
        };
        self.remove_id(con_id);
        proof {
            lemma_without(old(self)@.history, con_id);
        }
        if self.cycling() {
            let preview_closed: bool = match self.last_preview {
                Some(preview) => preview == con_id,
                None => false,
            };
            if preview_closed || self.history.len() < 2 {
                self.cycle_pos = None;
                self.last_preview = None;
            } else if kept_before < self.history.len() {
                self.cycle_pos = Some(kept_before);
            } else {
                self.cycle_pos = Some(self.history.len() - 1);
            }
        }
        assert(self@ =~= old(self)@.closed(con_id));
    }

    /// Advance cycle by one. Returns `Some(target_con_id)` to focus, or `None`
    /// if the history is too short. The first press freezes the history and
    /// goes to position 1; the following ones go on circularly.
    pub fn advance_cycle(&mut self) -> (target: Option<i64>)
        requires
            old(self).history.len() >= 2 ==> old(self).cycle_pos != Some(usize::MAX),
        ensures
            final(self)@ == old(self)@.advanced(),
            target == old(self)@.next_target(),
            old(self).wf() ==> final(self).wf(),
    {
        if self.history.len() < 2 {
            return None;
        }
        let pos: usize = match self.cycle_pos {
            None => 1,
            Some(pos) => (pos + 1) % self.history.len(),
        };
        self.cycle_pos = Some(pos);
        let target: i64 = self.history[pos];
        self.last_preview = Some(target);
        assert(self@ =~= old(self)@.advanced());
        Some(target)
    }

    /// Commit current cycle position: promote to front, unfreeze, clear
    /// last_preview. No-op if no active cycle.
    pub fn commit_cycle(&mut self)
        ensures
            final(self)@ == old(self)@.committed(),
            old(self).wf() ==> final(self).wf(),
    {
        if let Some(pos) = self.cycle_pos.take() {
            proof {
                lemma_promoted(old(self)@.history, pos as int);
            }
            self.promote(pos);
            self.last_preview = None;
        }
        assert(self@ =~= old(self)@.committed());
    }

    /// Handle an incoming focus event. Outside a cycle the window is tracked.
    /// During one, our own preview is ignored, and any other window commits
    /// the cycle before it is tracked.
    pub fn handle_focus_event(&mut self, con_id: i64)
        ensures
            final(self)@ == old(self)@.focused(con_id),
            old(self).wf() ==> final(self).wf(),
    {
        if !self.cycling() {
            self.add(con_id);
        } else {
            let own_preview: bool = match self.last_preview {
                Some(preview) => preview == con_id,
                None => false,
            };
            if !own_preview {
                self.commit_cycle();
                self.add(con_id);
            }
        }
    }
}

} // verus!
