//! What the window history and the cycle promise over several operations.

use crate::recency::{lemma_pos_without, lemma_promoted, lemma_promoted_is_touched, lemma_touched};
use crate::recency::{lemma_without, lemma_without_absent, lemma_without_at, lemma_without_first};
use crate::recency::{law_dropping_keeps_order, law_promotion_keeps_order, law_touching_keeps_order};
use crate::recency::{lemma_without_past_first, stands_before};
use crate::recency::{pos_without, promoted, touched, touched_all, without};
use crate::state::{State, StateView};
use vstd::prelude::*;

verus! {

/// What can happen to a daemon that is up and running.
pub enum Event {
    /// Sway reports that a window has the focus.
    Focus(i64),
    /// Sway reports that a window closed.
    Close(i64),
    /// Alt+Tab was pressed.
    Press,
    /// The commit timeout ran out.
    Timeout,
}

impl StateView {
    /// After one event.
    pub open spec fn step(self, event: Event) -> StateView {
        match event {
            Event::Focus(con_id) => self.focused(con_id),
            Event::Close(con_id) => self.closed(con_id),
            Event::Press => self.advanced(),
            Event::Timeout => self.committed(),
        }
    }

    /// After all of `events`, first to last.
    pub open spec fn run(self, events: Seq<Event>) -> StateView
        decreases events.len(),
    {
        if events.len() == 0 {
            self
        } else {
            self.run(events.drop_last()).step(events.last())
        }
    }

    /// After `presses` key presses.
    pub open spec fn pressed(self, presses: nat) -> StateView
        decreases presses,
    {
        if presses == 0 {
            self
        } else {
            self.pressed((presses - 1) as nat).advanced()
        }
    }
}

/// Every event keeps the state well-formed.
pub proof fn law_events_keep_state_valid(s: StateView, event: Event)
    requires
        s.wf(),
    ensures
        s.step(event).wf(),
{
    match event {
        Event::Focus(con_id) => {
            lemma_touched(s.history, con_id);
            if s.cycling() {
                lemma_promoted(s.history, s.cycle_pos->0);
                lemma_touched(s.committed().history, con_id);
            }
        },
        Event::Close(con_id) => {
            lemma_without(s.history, con_id);
        },
        Event::Press => {},
        Event::Timeout => {
            if s.cycling() {
                lemma_promoted(s.history, s.cycle_pos->0);
            }
        },
    }
}

/// Whatever windows the daemon started with and whatever happened since, no
/// window is remembered twice, and a cycle stands on a remembered window.
pub proof fn law_reachable_states_are_valid(con_ids: Seq<i64>, events: Seq<Event>)
    ensures
        StateView::initial().seeded(con_ids).run(events).wf(),
    decreases events.len(),
{
    if events.len() == 0 {
        law_seeding_records_exactly_the_windows(con_ids);
    } else {
        law_reachable_states_are_valid(con_ids, events.drop_last());
        law_events_keep_state_valid(
            StateView::initial().seeded(con_ids).run(events.drop_last()),
            events.last(),
        );
    }
}

/// Seeding an empty history records each window once, and nothing else.
pub proof fn law_seeding_records_exactly_the_windows(con_ids: Seq<i64>)
    ensures
        StateView::initial().seeded(con_ids).wf(),
        forall|id: i64| #[trigger]
            StateView::initial().seeded(con_ids).history.contains(id) <==> con_ids.contains(id),
    decreases con_ids.len(),
{
    let history = touched_all(Seq::empty(), con_ids);
    if con_ids.len() > 0 {
        let init = con_ids.drop_last();
        law_seeding_records_exactly_the_windows(init);
        let before = StateView::initial().seeded(init).history;
        lemma_touched(before, con_ids.last());
        assert(con_ids == init.push(con_ids.last()));
        assert forall|id: i64| #[trigger] history.contains(id) <==> con_ids.contains(id) by {
            assert(before.contains(id) <==> init.contains(id));
            if init.contains(id) {
                assert(con_ids[init.index_of(id)] == id);
            }
            if con_ids.contains(id) {
                let k = con_ids.index_of(id);
                if k < init.len() {
                    assert(init[k] == id);
                }
            }
            assert(con_ids[con_ids.len() - 1] == con_ids.last());
        }
    }
}

/// The last seeded window is the most recent one.
pub proof fn law_last_seeded_window_is_most_recent(s: StateView, con_ids: Seq<i64>)
    requires
        con_ids.len() > 0,
    ensures
        s.seeded(con_ids).history.len() > 0,
        s.seeded(con_ids).history[0] == con_ids.last(),
{
    lemma_touched(touched_all(s.history, con_ids.drop_last()), con_ids.last());
}

/// Seeding an empty history with distinct windows reverses their order: the
/// first is the oldest, the last the most recent.
pub proof fn law_seeding_reverses_distinct_windows(con_ids: Seq<i64>)
    requires
        con_ids.no_duplicates(),
    ensures
        StateView::initial().seeded(con_ids).history == con_ids.reverse(),
    decreases con_ids.len(),
{
    if con_ids.len() > 0 {
        let init = con_ids.drop_last();
        law_seeding_reverses_distinct_windows(init);
        law_seeding_records_exactly_the_windows(init);
        let before = StateView::initial().seeded(init).history;
        assert(!init.contains(con_ids.last())) by {
            if init.contains(con_ids.last()) {
                let k = init.index_of(con_ids.last());
                assert(con_ids[k] == con_ids[con_ids.len() - 1]);
            }
        }
        assert(!before.contains(con_ids.last()));
        lemma_without_absent(before, con_ids.last());
    }
    assert(touched_all(Seq::empty(), con_ids) =~= con_ids.reverse());
}

/// Seeding orders windows by their last mention: after `earlier`, then a
/// window, then `later`, in which it does not occur, exactly the windows of
/// `later` are more recent than that window.
pub proof fn law_seeding_orders_by_last_mention(
    s: StateView,
    earlier: Seq<i64>,
    con_id: i64,
    later: Seq<i64>,
)
    requires
        !later.contains(con_id),
    ensures
        ({
            let history = s.seeded(earlier.push(con_id) + later).history;
            exists|pos: int|
                #![trigger history[pos]]
                0 <= pos < history.len() && history[pos] == con_id && forall|id: i64|
                    #[trigger] later.contains(id) <==> history.take(pos).contains(id)
        }),
    decreases later.len(),
{
    let all = earlier.push(con_id) + later;
    let history = s.seeded(all).history;
    if later.len() == 0 {
        assert(all == earlier.push(con_id));
        assert(all.last() == con_id);
        assert(history[0] == con_id);
        assert(history.take(0).len() == 0);
    } else {
        let last = later.last();
        let init = later.drop_last();
        assert(later == init.push(last));
        assert(all.drop_last() == earlier.push(con_id) + init);
        assert(all.last() == last);
        assert(!init.contains(con_id)) by {
            if init.contains(con_id) {
                assert(later[init.index_of(con_id)] == con_id);
            }
        }
        law_seeding_orders_by_last_mention(s, earlier, con_id, init);
        let before = s.seeded(earlier.push(con_id) + init).history;
        let p = choose|pos: int|
            #![trigger before[pos]]
            0 <= pos < before.len() && before[pos] == con_id && forall|id: i64|
                #[trigger] init.contains(id) <==> before.take(pos).contains(id);
        assert(later[later.len() - 1] == last);
        // Dropping `last` from `before` drops it on both sides of `con_id`.
        let head = before.take(p);
        let tail = before.skip(p + 1);
        assert(before == head + (seq![con_id] + tail));
        let other = |id: i64| id != last;
        Seq::filter_distributes_over_add(head, seq![con_id] + tail, other);
        lemma_without_past_first(con_id, tail, last);
        lemma_without(head, last);
        let new_head = seq![last] + without(head, last);
        assert(history == new_head + (seq![con_id] + without(tail, last)));
        let q = new_head.len() as int;
        assert(history[q] == con_id);
        assert(history.take(q) == new_head);
        lemma_touched(head, last);
        assert forall|id: i64| #[trigger] later.contains(id) <==> history.take(q).contains(id) by {
            assert(init.contains(id) <==> head.contains(id));
            assert(touched(head, last) == new_head);
            if init.contains(id) {
                assert(later[init.index_of(id)] == id);
            }
            if later.contains(id) {
                let k = later.index_of(id);
                if k < init.len() {
                    assert(init[k] == id);
                }
            }
        }
    }
}

/// Outside a cycle, focus events order the history by recency: they record
/// their windows as seeding does, oldest first.
pub proof fn law_focus_events_record_by_recency(s: StateView, con_ids: Seq<i64>)
    requires
        !s.cycling(),
    ensures
        s.run(con_ids.map_values(|con_id: i64| Event::Focus(con_id))) == s.seeded(con_ids),
    decreases con_ids.len(),
{
    let events = con_ids.map_values(|con_id: i64| Event::Focus(con_id));
    if con_ids.len() > 0 {
        let init = con_ids.drop_last();
        law_focus_events_record_by_recency(s, init);
        assert(events.drop_last() =~= init.map_values(|con_id: i64| Event::Focus(con_id)));
        assert(events.last() == Event::Focus(con_ids.last()));
    }
}

/// The first Alt+Tab goes to the window that had the focus before the current
/// one.
pub proof fn law_first_press_targets_previous_window(s: StateView, previous: i64, current: i64)
    requires
        !s.cycling(),
        previous != current,
    ensures
        s.focused(previous).focused(current).next_target() == Some(previous),
{
    let kept = without(s.history, previous);
    let before = touched(s.history, previous);
    assert(s.focused(previous).history == before);
    lemma_without_past_first(previous, kept, current);
    let after = touched(before, current);
    assert(after == seq![current] + (seq![previous] + without(kept, current)));
    assert(after[1] == previous);
}

/// Key presses go through the history one window at a time, starting from the
/// previously focused one, around its end, and leave it as it is.
pub proof fn law_presses_go_round(s: StateView, presses: nat)
    requires
        !s.cycling(),
        s.history.len() >= 2,
        presses >= 1,
    ensures
        s.pressed(presses) == (StateView {
            history: s.history,
            cycle_pos: Some((presses as int) % (s.history.len() as int)),
            last_preview: Some(s.history[(presses as int) % (s.history.len() as int)]),
        }),
    decreases presses,
{
    let len = s.history.len() as int;
    if presses == 1 {
        assert(s.pressed(0) == s);
        vstd::arithmetic::div_mod::lemma_small_mod(1, len as nat);
    } else {
        law_presses_go_round(s, (presses - 1) as nat);
        vstd::arithmetic::div_mod::lemma_add_mod_noop(presses - 1, 1, len);
        vstd::arithmetic::div_mod::lemma_small_mod(1, len as nat);
    }
}

/// A full round of key presses previews every window of the history, and ends
/// on the one it started from.
pub proof fn law_full_round_previews_every_window(s: StateView)
    requires
        !s.cycling(),
        s.history.len() >= 2,
    ensures
        forall|i: int|
            #![trigger s.history[i]]
            0 <= i < s.history.len() ==> exists|presses: nat|
                #![trigger s.pressed(presses)]
                1 <= presses <= s.history.len() && s.pressed(presses).last_preview == Some(
                    s.history[i],
                ),
        s.pressed(s.history.len()).last_preview == Some(s.history[0]),
        s.pressed(s.history.len()).history == s.history,
{
    let len = s.history.len();
    law_presses_go_round(s, len);
    vstd::arithmetic::div_mod::lemma_mod_self_0(len as int);
    assert forall|i: int| #![trigger s.history[i]] 0 <= i < len implies exists|presses: nat|
        #![trigger s.pressed(presses)]
        1 <= presses <= len && s.pressed(presses).last_preview == Some(s.history[i]) by {
        let presses: nat = if i == 0 {
            len
        } else {
            i as nat
        };
        law_presses_go_round(s, presses);
        if i > 0 {
            vstd::arithmetic::div_mod::lemma_small_mod(i as nat, len);
        }
        assert(s.pressed(presses).last_preview == Some(s.history[i]));
    }
}

/// The focus event that our own preview causes changes nothing.
pub proof fn law_own_preview_is_ignored(s: StateView)
    requires
        s.next_target() is Some,
    ensures
        s.advanced().focused(s.next_target()->0) == s.advanced(),
{
}

/// At any time during a cycle, a focus event of the previewed window changes
/// nothing, neither the history nor the cycle.
pub proof fn law_preview_focus_changes_nothing(s: StateView, con_id: i64)
    requires
        s.cycling(),
        s.last_preview == Some(con_id),
    ensures
        s.focused(con_id) == s,
{
}

/// While cycling, neither key presses nor the focus events of their previews
/// change the history.
pub proof fn law_history_is_frozen_while_cycling(s: StateView, con_id: i64)
    requires
        s.cycling(),
    ensures
        s.advanced().history == s.history,
        s.last_preview == Some(con_id) ==> s.focused(con_id).history == s.history,
{
}

/// Closing a window leaves the cycle, if it goes on, on the previewed window.
pub proof fn law_close_and_preview(s: StateView, con_id: i64)
    requires
        s.wf(),
        s.on_preview(),
    ensures
        s.closed(con_id).on_preview(),
{
    if s.cycling() && s.last_preview != Some(con_id) {
        lemma_pos_without(s.history, s.cycle_pos->0, con_id);
    }
}

/// Closing a window other than the previewed one and the next one to be
/// previewed does not change which window the next key press previews.
pub proof fn law_close_keeps_next_target(s: StateView, con_id: i64)
    requires
        s.wf(),
        s.on_preview(),
        s.cycling(),
        s.last_preview != Some(con_id),
        s.next_target() != Some(con_id),
    ensures
        s.closed(con_id).next_target() == s.next_target(),
        s.closed(con_id).last_preview == s.last_preview,
{
    let pos = s.cycle_pos->0;
    let len = s.history.len() as int;
    let next = s.next_pos();
    let rest = without(s.history, con_id);
    lemma_pos_without(s.history, pos, con_id);
    lemma_pos_without(s.history, next, con_id);
    if pos + 1 < len {
        vstd::arithmetic::div_mod::lemma_small_mod((pos + 1) as nat, len as nat);
    } else {
        vstd::arithmetic::div_mod::lemma_mod_self_0(len);
    }
    assert(next == if pos + 1 < len {
        pos + 1
    } else {
        0
    });
    let new_pos = pos_without(s.history, pos, con_id);
    let new_next = pos_without(s.history, next, con_id);
    if s.history.contains(con_id) {
        lemma_without_at(s.history, s.history.index_of(con_id));
    } else {
        lemma_without_absent(s.history, con_id);
    }
    assert(s.history[pos] != s.history[next]);
    assert(rest.len() >= 2);
    assert(new_next == if new_pos + 1 < rest.len() {
        new_pos + 1
    } else {
        0
    });
    if new_pos + 1 < rest.len() {
        vstd::arithmetic::div_mod::lemma_small_mod((new_pos + 1) as nat, rest.len());
    } else {
        vstd::arithmetic::div_mod::lemma_mod_self_0(rest.len() as int);
    }
}

/// Every event keeps the cycle, if it goes on, on the previewed window.
pub proof fn law_events_keep_cycle_on_preview(s: StateView, event: Event)
    requires
        s.wf(),
        s.on_preview(),
    ensures
        s.step(event).on_preview(),
{
    if let Event::Close(con_id) = event {
        law_close_and_preview(s, con_id);
    }
}

/// Whatever windows the daemon started with and whatever happened since, a
/// cycle stands on the previewed window.
pub proof fn law_runs_keep_cycle_on_preview(con_ids: Seq<i64>, events: Seq<Event>)
    ensures
        StateView::initial().seeded(con_ids).run(events).on_preview(),
    decreases events.len(),
{
    if events.len() > 0 {
        let before = StateView::initial().seeded(con_ids).run(events.drop_last());
        law_runs_keep_cycle_on_preview(con_ids, events.drop_last());
        law_reachable_states_are_valid(con_ids, events.drop_last());
        law_events_keep_cycle_on_preview(before, events.last());
    }
}

/// The previewed window is the one that is committed, whatever happened since
/// the start: a commit brings it to the front, ahead of the others in their
/// order.
pub proof fn law_previewed_window_is_committed(con_ids: Seq<i64>, events: Seq<Event>)
    requires
        StateView::initial().seeded(con_ids).run(events).cycling(),
    ensures
        ({
            let s = StateView::initial().seeded(con_ids).run(events);
            &&& s.last_preview is Some
            &&& s.committed().history == touched(s.history, s.last_preview->0)
        }),
{
    let s = StateView::initial().seeded(con_ids).run(events);
    law_reachable_states_are_valid(con_ids, events);
    law_runs_keep_cycle_on_preview(con_ids, events);
    law_commit_promotes_preview(s);
}

/// A commit makes the previewed window the most recent one, keeps the order of
/// the others and ends the cycle, as if the user had focused that window.
pub proof fn law_commit_promotes_preview(s: StateView)
    requires
        s.wf(),
        s.on_preview(),
        s.cycling(),
    ensures
        s.committed() == s.idle().focused(s.last_preview->0),
        s.committed().history[0] == s.last_preview->0,
        s.committed().history.drop_first() == without(s.history, s.last_preview->0),
        !s.committed().cycling(),
{
    let pos = s.cycle_pos->0;
    lemma_promoted_is_touched(s.history, pos);
    assert(s.committed() =~= s.idle().focused(s.last_preview->0));
    assert(s.committed().history.drop_first() =~= without(s.history, s.last_preview->0));
}

/// Pressing Alt+Tab any number of times and settling brings the window that the
/// presses count to, around the history, to the front, and keeps the order of
/// the others.
pub proof fn law_settling_after_presses(s: StateView, presses: nat)
    requires
        s.wf(),
        !s.cycling(),
        s.history.len() >= 2,
        presses >= 1,
    ensures
        s.pressed(presses).committed() == s.focused(
            s.history[(presses as int) % (s.history.len() as int)],
        ),
{
    let pos = (presses as int) % (s.history.len() as int);
    law_presses_go_round(s, presses);
    assert(s.history.contains(s.history[pos]));
    law_commit_promotes_preview(s.pressed(presses));
    assert(s.pressed(presses).idle() =~= s);
}

/// Focusing another window during a cycle commits the preview first: the new
/// window comes to the front and the previewed one right behind it.
pub proof fn law_other_focus_commits_preview(s: StateView, con_id: i64)
    requires
        s.wf(),
        s.on_preview(),
        s.cycling(),
        s.last_preview != Some(con_id),
    ensures
        s.focused(con_id) == s.committed().focused(con_id),
        s.focused(con_id).history[0] == con_id,
        s.focused(con_id).history[1] == s.last_preview->0,
        !s.focused(con_id).cycling(),
{
    let preview = s.last_preview->0;
    law_commit_promotes_preview(s);
    let kept = without(s.history, preview);
    let committed = s.committed().history;
    assert(committed =~= seq![preview] + kept);
    lemma_without_past_first(preview, kept, con_id);
    assert(touched(committed, con_id) == seq![con_id] + (seq![preview] + without(kept, con_id)));
}

/// A commit reorders the history and neither adds nor drops a window.
pub proof fn law_commit_keeps_windows(s: StateView)
    ensures
        s.committed().history.to_multiset() == s.history.to_multiset(),
{
    if s.cycling() {
        lemma_promoted(s.history, s.cycle_pos->0);
    }
}

/// Committing twice is committing once.
pub proof fn law_commit_is_idempotent(s: StateView)
    ensures
        s.committed().committed() == s.committed(),
{
}

/// Alt+Tab switches back and forth: two committed single presses restore the
/// state.
pub proof fn law_switching_twice_returns(s: StateView)
    requires
        !s.cycling(),
        s.last_preview is None,
        s.history.len() >= 2,
    ensures
        s.advanced().committed().advanced().committed() == s,
{
    let h = s.history;
    let once = s.advanced().committed();
    assert(once.history == promoted(h, 1));
    assert(promoted(h, 1)[1] == h[0]);
    assert(promoted(promoted(h, 1), 1) =~= h);
    assert(once.advanced().committed() =~= s);
}

/// Focusing a window that is already the most recent one changes nothing.
pub proof fn law_refocus_changes_nothing(s: StateView, con_id: i64)
    requires
        !s.cycling(),
    ensures
        s.focused(con_id).focused(con_id) == s.focused(con_id),
{
    let kept = without(s.history, con_id);
    lemma_without(s.history, con_id);
    lemma_without_absent(kept, con_id);
    lemma_without_first(con_id, kept);
}

/// A closed window is forgotten, and every other window stays.
pub proof fn law_close_forgets_exactly_the_window(s: StateView, con_id: i64)
    ensures
        forall|id: i64| #[trigger]
            s.closed(con_id).history.contains(id) <==> s.history.contains(id) && id != con_id,
{
    lemma_without(s.history, con_id);
}

/// Closing the previewed window ends the cycle.
pub proof fn law_closing_preview_cancels_cycle(s: StateView, con_id: i64)
    requires
        s.cycling(),
        s.last_preview == Some(con_id),
    ensures
        s.closed(con_id).cycle_pos is None,
        s.closed(con_id).last_preview is None,
{
}

/// A window that opens, takes the focus and closes again leaves no trace.
pub proof fn law_close_undoes_focus_of_new_window(s: StateView, con_id: i64)
    requires
        !s.cycling(),
        !s.history.contains(con_id),
    ensures
        s.focused(con_id).closed(con_id) == s,
{
    lemma_without_absent(s.history, con_id);
    lemma_without_first(con_id, s.history);
    assert(s.focused(con_id).closed(con_id) =~= s);
}

/// Closing a window keeps the order of all others, in a cycle and outside one.
pub proof fn law_close_keeps_order(s: StateView, con_id: i64, a: i64, b: i64)
    requires
        a != con_id,
        b != con_id,
    ensures
        stands_before(s.closed(con_id).history, a, b) <==> stands_before(s.history, a, b),
{
    law_dropping_keeps_order(s.history, con_id, a, b);
}

/// A close ends the cycle if the closed window was the preview or fewer than
/// two windows are left, and in no other case; a cycle that goes on keeps its
/// preview, and outside a cycle none begins.
pub proof fn law_close_decides_cycle(s: StateView, con_id: i64)
    ensures
        s.closed(con_id).cycling() <==> s.cycling() && s.last_preview != Some(con_id) && s.closed(
            con_id,
        ).history.len() >= 2,
        s.closed(con_id).cycling() ==> s.closed(con_id).last_preview == s.last_preview,
        s.cycling() && !s.closed(con_id).cycling() ==> s.closed(con_id).last_preview is None,
        !s.cycling() ==> s.closed(con_id).last_preview == s.last_preview,
{
}

/// Closing a window that is not remembered forgets none.
pub proof fn law_close_of_unknown_window_keeps_history(s: StateView, con_id: i64)
    requires
        !s.history.contains(con_id),
    ensures
        s.closed(con_id).history == s.history,
{
    lemma_without_absent(s.history, con_id);
}

/// Recording a window puts it first, keeps the others, all of them and in their
/// order, and leaves the cycle alone.
pub proof fn law_added_window_comes_first(s: StateView, con_id: i64, a: i64, b: i64)
    requires
        a != con_id,
        b != con_id,
    ensures
        s.added(con_id).history.len() > 0,
        s.added(con_id).history[0] == con_id,
        s.added(con_id).history.contains(a) <==> s.history.contains(a),
        stands_before(s.added(con_id).history, a, b) <==> stands_before(s.history, a, b),
        !stands_before(s.added(con_id).history, a, con_id),
        !stands_before(s.added(con_id).history, con_id, con_id),
        s.added(con_id).cycle_pos == s.cycle_pos,
        s.added(con_id).last_preview == s.last_preview,
{
    lemma_touched(s.history, con_id);
    law_touching_keeps_order(s.history, con_id, a, b);
}

/// Outside a cycle, a window that gets the focus comes first, and the others
/// stay, all of them and in their order.
pub proof fn law_focused_window_comes_first(s: StateView, con_id: i64, a: i64, b: i64)
    requires
        !s.cycling(),
        a != con_id,
        b != con_id,
    ensures
        s.focused(con_id).history.len() > 0,
        s.focused(con_id).history[0] == con_id,
        s.focused(con_id).history.contains(a) <==> s.history.contains(a),
        stands_before(s.focused(con_id).history, a, b) <==> stands_before(s.history, a, b),
        !stands_before(s.focused(con_id).history, a, con_id),
        !stands_before(s.focused(con_id).history, con_id, con_id),
        !s.focused(con_id).cycling(),
        s.focused(con_id).last_preview == s.last_preview,
{
    law_added_window_comes_first(s, con_id, a, b);
}

/// Focusing another window during a cycle keeps all windows, and the order of
/// those that are neither that window nor the previewed one.
pub proof fn law_other_focus_keeps_order(s: StateView, con_id: i64, a: i64, b: i64)
    requires
        s.wf(),
        s.on_preview(),
        s.cycling(),
        s.last_preview != Some(con_id),
        a != con_id && Some(a) != s.last_preview,
        b != con_id && Some(b) != s.last_preview,
    ensures
        s.focused(con_id).history.contains(a) <==> s.history.contains(a),
        stands_before(s.focused(con_id).history, a, b) <==> stands_before(s.history, a, b),
        s.focused(con_id).history.no_duplicates(),
        s.focused(con_id).last_preview is None,
{
    law_commit_keeps_order(s, a, b);
    lemma_promoted(s.history, s.cycle_pos->0);
    law_added_window_comes_first(s.committed(), con_id, a, b);
    lemma_touched(s.committed().history, con_id);
}

/// A commit brings the window that the cycle stands on to the front, keeps the
/// others, all of them and in their order, and ends the cycle.
pub proof fn law_commit_keeps_order(s: StateView, a: i64, b: i64)
    requires
        s.cycle_pos matches Some(pos) && 0 <= pos < s.history.len() && a != s.history[pos] && b
            != s.history[pos],
    ensures
        s.committed().history.len() == s.history.len(),
        s.committed().history[0] == s.history[s.cycle_pos->0],
        s.committed().history.contains(a) <==> s.history.contains(a),
        stands_before(s.committed().history, a, b) <==> stands_before(s.history, a, b),
        s.committed().cycle_pos is None,
        s.committed().last_preview is None,
{
    let pos = s.cycle_pos->0;
    lemma_promoted(s.history, pos);
    law_promotion_keeps_order(s.history, pos, a, b);
}

/// Without a cycle a commit changes nothing.
pub proof fn law_commit_without_cycle_changes_nothing(s: StateView)
    requires
        !s.cycling(),
    ensures
        s.committed() == s,
{
}

/// A press during a cycle goes on to the next older window, or from the oldest
/// one to the most recent, and leaves the history as it is.
pub proof fn law_press_goes_one_further(s: StateView)
    requires
        s.history.len() >= 2,
        s.cycle_pos matches Some(pos) && 0 <= pos < s.history.len(),
    ensures
        s.next_target() == Some(
            if s.cycle_pos->0 + 1 < s.history.len() {
                s.history[s.cycle_pos->0 + 1]
            } else {
                s.history[0]
            },
        ),
        s.advanced().cycle_pos == Some(
            if s.cycle_pos->0 + 1 < s.history.len() {
                s.cycle_pos->0 + 1
            } else {
                0
            },
        ),
        s.advanced().last_preview == s.next_target(),
        s.advanced().history == s.history,
{
    let pos = s.cycle_pos->0;
    if pos + 1 < s.history.len() {
        vstd::arithmetic::div_mod::lemma_small_mod((pos + 1) as nat, s.history.len());
    } else {
        vstd::arithmetic::div_mod::lemma_mod_self_0(s.history.len() as int);
    }
}

/// The first press previews the second window of the history.
pub proof fn law_first_press_previews_second_window(s: StateView)
    requires
        s.history.len() >= 2,
        !s.cycling(),
    ensures
        s.next_target() == Some(s.history[1]),
        s.advanced() == (StateView {
            history: s.history,
            cycle_pos: Some(1),
            last_preview: Some(s.history[1]),
        }),
{
}

/// With fewer than two windows there is nothing to switch to: a press previews
/// nothing and changes nothing.
pub proof fn law_short_history_has_no_target(s: StateView)
    requires
        s.history.len() < 2,
    ensures
        s.next_target() is None,
        s.advanced() == s,
{
}

/// Seeding keeps what was remembered, in its order, behind every seeded window,
/// and leaves the cycle alone.
pub proof fn law_seeding_keeps_earlier_windows(
    s: StateView,
    con_ids: Seq<i64>,
    a: i64,
    b: i64,
    id: i64,
)
    requires
        !con_ids.contains(a),
        !con_ids.contains(b),
    ensures
        s.seeded(con_ids).history.contains(id) <==> s.history.contains(id) || con_ids.contains(id),
        stands_before(s.seeded(con_ids).history, a, b) <==> stands_before(s.history, a, b),
        con_ids.contains(id) ==> !stands_before(s.seeded(con_ids).history, a, id),
        s.seeded(con_ids).cycle_pos == s.cycle_pos,
        s.seeded(con_ids).last_preview == s.last_preview,
    decreases con_ids.len(),
{
    if con_ids.len() > 0 {
        let init = con_ids.drop_last();
        let last = con_ids.last();
        assert(con_ids[con_ids.len() - 1] == last);
        assert forall|x: i64| init.contains(x) implies con_ids.contains(x) by {
            assert(con_ids[init.index_of(x)] == x);
        }
        if con_ids.contains(id) && id != last {
            assert(init[con_ids.index_of(id)] == id);
        }
        law_seeding_keeps_earlier_windows(s, init, a, b, id);
        let before = s.seeded(init).history;
        lemma_touched(before, last);
        law_touching_keeps_order(before, last, a, b);
        if id != last {
            law_touching_keeps_order(before, last, a, id);
        }
    }
}

/// The daemon starts with an empty history and no cycle.
pub proof fn law_start_is_empty()
    ensures
        StateView::initial().history.len() == 0,
        StateView::initial().cycle_pos is None,
        StateView::initial().last_preview is None,
{
}

/// A view holds what the fields hold.
pub proof fn law_view_holds_the_fields(state: State)
    ensures
        state@.history == state.history@,
        state.cycle_pos is None <==> state@.cycle_pos is None,
        state.cycle_pos matches Some(pos) ==> state@.cycle_pos == Some(pos as int),
        state@.last_preview == state.last_preview,
        state@.cycling() <==> state.cycle_pos is Some,
{
}

} // verus!
