//! Tests the behaviour of timers for each merge mode.

use bevy_alchemy::timer::{Delay, Lifetime, Timer, TimerMergeMode};

#[test]
fn merge_replace() {
    let first = Lifetime::from_millis(1000).with_mode(TimerMergeMode::Replace);
    let second = Lifetime::from_millis(2000).with_mode(TimerMergeMode::Replace);
    let mut result = second.clone();
    result.merge(&first);

    assert_eq!(result, second);
}

#[test]
fn merge_inherit() {
    let first = Lifetime::from_millis(1000).with_mode(TimerMergeMode::Keep);
    let second = Lifetime::from_millis(2000).with_mode(TimerMergeMode::Keep);
    let mut result = second.clone();
    result.merge(&first);

    assert_eq!(result, first);
}

#[test]
fn merge_fraction() {
    let first = Lifetime::from_millis(1000).with_mode(TimerMergeMode::Fraction);
    let second = Lifetime::from_millis(2000).with_mode(TimerMergeMode::Fraction);
    let mut result = second.clone();
    result.merge(&first);

    assert_eq!(result, second);
}

#[test]
fn merge_max() {
    let first = Lifetime::from_millis(1000).with_mode(TimerMergeMode::Max);
    let mut second = Lifetime::from_millis(3000).with_mode(TimerMergeMode::Max);
    second.merge(&first);
    let third = Lifetime::from_millis(2000).with_mode(TimerMergeMode::Max);

    let mut result = third.clone();
    result.merge(&second);

    assert_eq!(result, second);
}

#[test]
fn merge_sum() {
    let first = Lifetime::from_millis(1000).with_mode(TimerMergeMode::Sum);
    let mut second = Lifetime::from_millis(3000).with_mode(TimerMergeMode::Sum);
    second.merge(&first);

    let mut result = Lifetime::from_millis(2000).with_mode(TimerMergeMode::Sum);
    result.merge(&second);

    assert_eq!(result.timer.duration_ms, 6000);
}

#[test]
fn merge_fraction_halfway() {
    // A fresh two-second timer merged with an old timer at 50% elapsed ends
    // up at one second elapsed: the old elapsed fraction carries over.
    let mut old = Lifetime::from_millis(1000).with_mode(TimerMergeMode::Fraction);
    old.timer.tick(500);
    assert_eq!(old.timer.elapsed_ms, 500);

    let mut result = Lifetime::from_millis(2000).with_mode(TimerMergeMode::Fraction);
    result.merge(&old);

    assert_eq!(result.timer.elapsed_ms, 1000);
    assert_eq!(result.timer.duration_ms, 2000);
}

#[test]
fn merge_max_remaining_wins() {
    // The timer with the greater remaining time survives in full, even
    // when its total duration is smaller.
    let mut old = Lifetime::from_millis(5000).with_mode(TimerMergeMode::Max);
    old.timer.tick(4500);

    let incoming = Lifetime::from_millis(1000).with_mode(TimerMergeMode::Max);
    let mut result = incoming.clone();
    result.merge(&old);

    // incoming has 1000 remaining, old only 500: incoming survives
    assert_eq!(result, incoming);

    let mut short = Lifetime::from_millis(200).with_mode(TimerMergeMode::Max);
    short.merge(&old);
    // old has 500 remaining, incoming only 200: old's timer survives
    assert_eq!(short.timer, old.timer);
}

#[test]
fn once_timer_saturates() {
    let mut t = Timer::new(1000, false);
    t.tick(400);
    assert_eq!(t.elapsed_ms, 400);
    assert!(!t.is_finished());
    assert_eq!(t.remaining_ms(), 600);
    t.tick(5000);
    assert_eq!(t.elapsed_ms, 1000);
    assert!(t.is_finished());
}

#[test]
fn repeating_timer_wraps() {
    let mut t = Timer::new(1000, true);
    t.tick(2500);
    assert_eq!(t.elapsed_ms, 500);
    t.tick(500);
    assert_eq!(t.elapsed_ms, 0);
}

#[test]
fn delay_defaults_to_fraction() {
    let d = Delay::from_millis(250);
    assert_eq!(d.mode, TimerMergeMode::Fraction);
    assert!(d.timer.repeating);
    let l = Lifetime::from_millis(250);
    assert_eq!(l.mode, TimerMergeMode::Max);
    assert!(!l.timer.repeating);
}

#[test]
fn sum_saturates_at_bound() {
    let mut a = Lifetime::from_millis(u64::MAX - 5).with_mode(TimerMergeMode::Sum);
    let b = Lifetime::from_millis(100).with_mode(TimerMergeMode::Sum);
    a.merge(&b);
    assert_eq!(a.timer.duration_ms, u64::MAX);
}

#[test]
fn fraction_permille_is_exact() {
    let mut t = Timer::new(4000, false);
    assert_eq!(t.fraction_permille(), 0);
    t.tick(1000);
    assert_eq!(t.fraction_permille(), 250);
    t.tick(9999);
    assert_eq!(t.fraction_permille(), 1000);
    let z = Timer::new(0, false);
    assert_eq!(z.fraction_permille(), 1000);
}

#[test]
fn sum_keeps_incoming_elapsed() {
    // Under Sum, only the durations combine: the elapsed time and the
    // repeat flag stay those of the incoming timer.
    let mut old = Lifetime::from_millis(1000).with_mode(TimerMergeMode::Sum);
    old.timer.tick(700);

    let mut result = Lifetime::from_millis(2000).with_mode(TimerMergeMode::Sum);
    result.timer.tick(100);
    result.merge(&old);

    assert_eq!(result.timer.duration_ms, 3000);
    assert_eq!(result.timer.elapsed_ms, 100);
}
