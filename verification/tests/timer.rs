use sway_tab::timer::{reset_timer, Timer, Wait};

#[test]
fn idle_timer_waits_forever_and_commits_nothing() {
    let mut timer = Timer::default();
    assert!(matches!(timer.wait(5), Wait::Forever));
    assert!(!timer.wake(5, 10));
    assert!(timer.deadline.is_none());
}

#[test]
fn reset_sets_the_deadline_at_the_next_wake() {
    let mut timer = Timer::default();
    reset_timer(&mut timer);
    assert!(timer.reset);
    assert!(!timer.wake(100, 40));
    assert!(!timer.reset);
    assert_eq!(timer.deadline, Some(140));
    assert!(matches!(timer.wait(110), Wait::AtMost(30)));
    assert!(matches!(timer.wait(140), Wait::AtMost(0)));
    assert!(matches!(timer.wait(141), Wait::No));
}

#[test]
fn timeout_commits_once() {
    let mut timer = Timer::default();
    reset_timer(&mut timer);
    timer.wake(100, 40);
    assert!(!timer.wake(139, 40));
    assert_eq!(timer.deadline, Some(140));
    assert!(timer.wake(140, 40));
    assert!(!timer.wake(200, 40));
    assert_eq!(timer.deadline, None);
}

#[test]
fn reset_pushes_the_deadline_forward() {
    let mut timer = Timer::default();
    reset_timer(&mut timer);
    timer.wake(100, 40);
    reset_timer(&mut timer);
    assert_eq!(timer.deadline, Some(140));
    assert!(!timer.wake(500, 40));
    assert_eq!(timer.deadline, Some(540));
    assert!(timer.wake(540, 40));
}

#[test]
fn raised_flag_is_not_slept_through() {
    let mut timer = Timer::default();
    reset_timer(&mut timer);
    assert!(matches!(timer.wait(5), Wait::No));
    assert!(!timer.wake(5, 10));
    assert!(matches!(timer.wait(5), Wait::AtMost(10)));
    reset_timer(&mut timer);
    assert!(matches!(timer.wait(6), Wait::No));
    assert!(!timer.wake(6, 10));
    assert!(matches!(timer.wait(16), Wait::AtMost(0)));
    assert!(timer.wake(16, 10));
    assert!(matches!(timer.wait(17), Wait::Forever));
}
