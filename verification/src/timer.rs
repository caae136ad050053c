//! The commit timer.
//!
//! Instants and durations are whole nanoseconds, instants from a fixed start.
//! Between wakes the timer thread sleeps as [`Timer::wait`] says; whatever
//! wakes it, it then calls [`Timer::wake`].

use vstd::prelude::*;

verus! {

/// The timer of a cycle: pressing or releasing Alt+Tab sets `reset`, and the
/// timer thread turns that into a new deadline.
pub struct Timer {
    /// Set by [`reset_timer`], cleared by the next wake.
    pub reset: bool,
    /// When to commit; `None` while idle.
    pub deadline: Option<u128>,
}

/// What a [`Timer`] stands for.
pub struct TimerView {
    pub reset: bool,
    pub deadline: Option<int>,
}

/// How long the timer thread sleeps.
pub enum Wait {
    /// Until it is woken.
    Forever,
    /// Until it is woken, but no longer than this.
    AtMost(u128),
    /// Not at all: there is a reset to see, or the deadline has passed.
    No,
}

/// What a [`Wait`] stands for.
pub enum WaitView {
    Forever,
    AtMost(int),
    No,
}

impl View for Wait {
    type V = WaitView;

    open spec fn view(&self) -> WaitView {
        match self {
            Wait::Forever => WaitView::Forever,
            Wait::AtMost(rest) => WaitView::AtMost(*rest as int),
            Wait::No => WaitView::No,
        }
    }
}

impl View for Timer {
    type V = TimerView;

    open spec fn view(&self) -> TimerView {
        TimerView {
            reset: self.reset,
            deadline: match self.deadline {
                Some(d) => Some(d as int),
                None => None,
            },
        }
    }
}

impl TimerView {
    pub open spec fn idle() -> TimerView {
        TimerView { reset: false, deadline: None }
    }

    /// After Alt+Tab was pressed or released.
    pub open spec fn after_reset(self) -> TimerView {
        TimerView { reset: true, ..self }
    }

    /// How long the timer thread sleeps from `now` on: not at all while a reset
    /// waits to be seen, to the deadline if there is one, or until it is woken.
    pub open spec fn waits(self, now: int) -> WaitView {
        if self.reset {
            WaitView::No
        } else {
            match self.deadline {
                None => WaitView::Forever,
                Some(d) => if now <= d {
                    WaitView::AtMost(d - now)
                } else {
                    WaitView::No
                },
            }
        }
    }

    /// Whether a wake at `now` commits the cycle: the deadline has come, and
    /// nothing has reset the timer.
    pub open spec fn commits(self, now: int) -> bool {
        &&& !self.reset
        &&& self.deadline matches Some(d)
        &&& now >= d
    }

    /// After a wake at `now`: a reset has become a new deadline, and a commit
    /// leaves the timer idle.
    pub open spec fn woken(self, now: int, timeout: int) -> TimerView {
        if self.reset {
            TimerView { reset: false, deadline: Some(now + timeout) }
        } else if self.commits(now) {
            TimerView::idle()
        } else {
            self
        }
    }
}

impl Default for Timer {
    fn default() -> (timer: Self)
        ensures
            timer@ == TimerView::idle(),
    {
        Timer { reset: false, deadline: None }
    }
}

impl Timer {
    /// How long to sleep from `now` on. A reset that came while the thread was
    /// not asleep, and whose wake-up is lost, is not slept through.
    pub fn wait(&self, now: u128) -> (wait: Wait)
        ensures
            wait@ == self@.waits(now as int),
    {
        if self.reset {
            return Wait::No;
        }
        match self.deadline {
            None => Wait::Forever,
            Some(d) => if now <= d {
                Wait::AtMost(d - now)
            } else {
                Wait::No
            },
        }
    }

    /// What the timer thread does once awake at `now`. True if the cycle is to
    /// be committed.
    pub fn wake(&mut self, now: u128, commit_timeout: u128) -> (commit: bool)
        requires
            old(self).reset ==> now + commit_timeout <= u128::MAX,
        ensures
            final(self)@ == old(self)@.woken(now as int, commit_timeout as int),
            commit == old(self)@.commits(now as int),
    {
        if self.reset {
            self.reset = false;
            self.deadline = Some(now + commit_timeout);
            return false;
        }
        if let Some(d) = self.deadline {
            if now >= d {
                self.deadline = None;
                return true;
            }
        }
        false
    }
}

/// Set the timer's reset flag so that the timer thread pushes its deadline
/// forward when it is woken.
pub fn reset_timer(timer: &mut Timer)
    ensures
        final(timer)@ == old(timer)@.after_reset(),
        final(timer).deadline == old(timer).deadline,
{
    timer.reset = true;
}

/// What can happen to the timer.
pub enum TimerEvent {
    /// Alt+Tab was pressed or released.
    Reset,
    /// The timer thread woke at this instant.
    Wake(int),
}

impl TimerView {
    /// After all of `events`, first to last, with the commit timeout `timeout`.
    pub open spec fn run(self, events: Seq<TimerEvent>, timeout: int) -> TimerView
        decreases events.len(),
    {
        if events.len() == 0 {
            self
        } else {
            let before = self.run(events.drop_last(), timeout);
            match events.last() {
                TimerEvent::Reset => before.after_reset(),
                TimerEvent::Wake(now) => before.woken(now, timeout),
            }
        }
    }
}

/// `events[at]` is a reset that no wake has seen before the event at `end`.
pub open spec fn pending_reset(events: Seq<TimerEvent>, at: int, end: int) -> bool {
    &&& 0 <= at < end <= events.len()
    &&& events[at] is Reset
    &&& forall|i: int| at < i < end ==> !(#[trigger] events[i] is Wake)
}

/// `events[at]` is a wake at the instant `time` that has seen a reset, and no
/// reset follows.
pub open spec fn last_reset_seen(events: Seq<TimerEvent>, at: int, time: int) -> bool {
    &&& 0 <= at < events.len()
    &&& events[at] == TimerEvent::Wake(time)
    &&& exists|reset: int| pending_reset(events, reset, at)
    &&& forall|i: int| at < i < events.len() ==> !(#[trigger] events[i] is Reset)
}

/// Where the timer of a run stands: a raised flag is a reset that no wake has
/// seen, and a deadline is the timeout counted from the last reset seen.
proof fn lemma_timer_run(events: Seq<TimerEvent>, timeout: int)
    ensures
        ({
            let timer = TimerView::idle().run(events, timeout);
            &&& timer.reset ==> exists|reset: int|
                pending_reset(events, reset, events.len() as int)
            &&& !timer.reset && timer.deadline is Some ==> exists|at: int, time: int|
                last_reset_seen(events, at, time) && timer.deadline == Some(time + timeout)
        }),
    decreases events.len(),
{
    if events.len() > 0 {
        let init = events.drop_last();
        let n = init.len() as int;
        lemma_timer_run(init, timeout);
        let before = TimerView::idle().run(init, timeout);
        let after = TimerView::idle().run(events, timeout);
        assert forall|i: int| 0 <= i < n implies #[trigger] events[i] == init[i] by {}
        match events.last() {
            TimerEvent::Reset => {
                assert(events[n] is Reset);
                assert(pending_reset(events, n, n + 1));
            },
            TimerEvent::Wake(now) => {
                if before.reset {
                    let reset = choose|reset: int| pending_reset(init, reset, n);
                    assert(pending_reset(events, reset, n)) by {
                        assert(events[reset] == init[reset]);
                        assert forall|i: int| reset < i < n implies !(
                        #[trigger] events[i] is Wake) by {
                            assert(!(init[i] is Wake));
                        }
                    }
                    assert(events[n] == TimerEvent::Wake(now));
                    assert(last_reset_seen(events, n, now));
                } else if after.deadline is Some {
                    let (at, time) = choose|at: int, time: int|
                        last_reset_seen(init, at, time) && before.deadline == Some(time + timeout);
                    let reset = choose|reset: int| pending_reset(init, reset, at);
                    assert(pending_reset(events, reset, at)) by {
                        assert(events[reset] == init[reset]);
                        assert forall|i: int| reset < i < at implies !(
                        #[trigger] events[i] is Wake) by {
                            assert(!(init[i] is Wake));
                        }
                    }
                    assert(last_reset_seen(events, at, time)) by {
                        assert(events[at] == init[at]);
                        assert forall|i: int| at < i < events.len() implies !(
                        #[trigger] events[i] is Reset) by {
                            if i < n {
                                assert(!(init[i] is Reset));
                            }
                        }
                    }
                }
            },
        }
    }
}

/// A cycle is committed only after a press or release that the timer thread
/// has seen, at least the commit timeout after it saw it, and with no press or
/// release since.
pub proof fn law_commit_follows_quiet_timeout(events: Seq<TimerEvent>, timeout: int, now: int)
    requires
        TimerView::idle().run(events, timeout).commits(now),
    ensures
        exists|at: int, time: int|
            last_reset_seen(events, at, time) && time + timeout <= now,
{
    lemma_timer_run(events, timeout);
    let timer = TimerView::idle().run(events, timeout);
    let (at, time) = choose|at: int, time: int|
        last_reset_seen(events, at, time) && timer.deadline == Some(time + timeout);
    assert(last_reset_seen(events, at, time) && time + timeout <= now);
}

/// Once a reset was seen at `time`, the next wake commits if and only if the
/// timeout has run out by then, and an earlier wake changes nothing.
pub proof fn law_timeout_decides_commit(timer: TimerView, time: int, timeout: int, now: int)
    requires
        timer.reset,
    ensures
        timer.woken(time, timeout).commits(now) <==> now >= time + timeout,
        now < time + timeout ==> timer.woken(time, timeout).woken(now, timeout) == timer.woken(
            time,
            timeout,
        ),
{
}

/// A press or release is never slept through, whenever it came.
pub proof fn law_reset_is_not_slept_through(timer: TimerView, now: int)
    ensures
        timer.after_reset().waits(now) is No,
{
}

/// The timer thread sleeps without limit only while there is nothing to commit.
pub proof fn law_only_an_idle_timer_sleeps_forever(timer: TimerView, now: int)
    ensures
        timer.waits(now) is Forever <==> timer == TimerView::idle(),
{
}

/// A quiet timeout commits: once a press or release was seen at `time`, no
/// sleep that starts at `now` goes past the end of the timeout, and the wake
/// at its end commits.
pub proof fn law_quiet_timeout_commits(timer: TimerView, time: int, timeout: int, now: int)
    ensures
        ({
            let seen = timer.after_reset().woken(time, timeout);
            &&& match seen.waits(now) {
                WaitView::Forever => false,
                WaitView::AtMost(rest) => now + rest == time + timeout && seen.commits(now + rest),
                WaitView::No => seen.commits(now),
            }
            &&& forall|wake: int| wake < time + timeout ==> #[trigger] seen.woken(wake, timeout)
                == seen
        }),
{
}

/// A press or release holds off the commit, however late the wake.
pub proof fn law_reset_holds_off_commit(timer: TimerView, now: int)
    ensures
        !timer.after_reset().commits(now),
{
}

/// After a commit nothing is committed until the next press or release.
pub proof fn law_commit_happens_once(timer: TimerView, now: int, timeout: int, later: int)
    requires
        timer.commits(now),
    ensures
        timer.woken(now, timeout) == TimerView::idle(),
        !timer.woken(now, timeout).commits(later),
        timer.woken(now, timeout).woken(later, timeout) == TimerView::idle(),
{
}

/// A timer that starts is idle, and sleeps until it is woken; while idle it
/// commits nothing and a wake changes nothing.
pub proof fn law_idle_timer_stays_idle(now: int, timeout: int)
    ensures
        !TimerView::idle().reset,
        TimerView::idle().deadline is None,
        !TimerView::idle().commits(now),
        TimerView::idle().woken(now, timeout) == TimerView::idle(),
        TimerView::idle().waits(now) is Forever,
{
}

/// A wake that sees a reset takes the flag down and sets the deadline to the
/// end of the timeout, whatever deadline there was.
pub proof fn law_seen_reset_sets_deadline(timer: TimerView, now: int, timeout: int)
    ensures
        timer.after_reset().reset,
        timer.after_reset().deadline == timer.deadline,
        !timer.after_reset().woken(now, timeout).reset,
        timer.after_reset().woken(now, timeout).deadline == Some(now + timeout),
{
}

/// A view holds what the fields hold.
pub proof fn law_views_hold_the_fields(timer: Timer, wait: Wait)
    ensures
        timer@.reset == timer.reset,
        timer.deadline is None <==> timer@.deadline is None,
        timer.deadline matches Some(d) ==> timer@.deadline == Some(d as int),
        wait is Forever <==> wait@ is Forever,
        wait is No <==> wait@ is No,
        wait matches Wait::AtMost(rest) ==> wait@ == WaitView::AtMost(rest as int),
{
}

} // verus!
