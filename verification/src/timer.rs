//! Duration-based countdown timers and the merge arithmetic that combines two
//! timers of the same role when their effects collide.
//!
//! All times are whole milliseconds, so every derived quantity is exact
//! integer arithmetic.

use vstd::prelude::*;
use vstd::arithmetic::div_mod::{lemma_div_is_ordered, lemma_div_multiples_vanish};
use vstd::arithmetic::mul::lemma_mul_inequality;

verus! {

/// Controls the merge behaviour of a timer when its effect is merged.
///
/// In a merge, `self` is the incoming timer (the one that will persist) and
/// the other operand is the timer already on the matched effect instance.
#[derive(Copy, Clone, PartialEq, Eq, Structural, Debug)]
pub enum TimerMergeMode {
    /// The incoming timer is used as it is; the old one is ignored.
    Replace,
    /// The old timer survives in full; the incoming one is discarded.
    Keep,
    /// The incoming timer is used, but its elapsed time is set so that its
    /// elapsed fraction equals the old timer's elapsed fraction.
    Fraction,
    /// The timer with the larger remaining time survives in full; ties go to
    /// the incoming timer.
    Max,
    /// The two durations are added (saturating); elapsed time and repeat
    /// flag stay those of the incoming timer.
    Sum,
}

/// A countdown/repeat primitive: elapsed and total duration in milliseconds.
///
/// A once-timer saturates at its duration when ticked; a repeating timer
/// wraps around. Well-formed timers keep `elapsed_ms <= duration_ms`.
#[derive(Copy, Clone, PartialEq, Eq, Structural, Debug)]
pub struct Timer {
    /// Time elapsed so far, in milliseconds.
    pub elapsed_ms: u64,
    /// Total duration, in milliseconds.
    pub duration_ms: u64,
    /// Whether the timer wraps around (repeats) instead of finishing once.
    pub repeating: bool,
}

impl Timer {
    /// Elapsed time never exceeds the duration.
    pub open spec fn wf(self) -> bool {
        self.elapsed_ms <= self.duration_ms
    }

    /// The value of a timer after advancing it by `delta` milliseconds:
    /// saturating at the duration for a once-timer, wrapping for a repeating
    /// one (a repeating timer of zero duration stays at zero).
    pub open spec fn ticked(self, delta: u64) -> Timer {
        if self.repeating {
            if self.duration_ms == 0 {
                Timer { elapsed_ms: 0, ..self }
            } else {
                Timer {
                    elapsed_ms: ((self.elapsed_ms + delta) % (self.duration_ms as int)) as u64,
                    ..self
                }
            }
        } else {
            if self.elapsed_ms + delta >= self.duration_ms {
                Timer { elapsed_ms: self.duration_ms, ..self }
            } else {
                Timer { elapsed_ms: (self.elapsed_ms + delta) as u64, ..self }
            }
        }
    }

    /// Creates a fresh timer with nothing elapsed.
    pub fn new(duration_ms: u64, repeating: bool) -> (t: Timer)
        ensures
            t == (Timer { elapsed_ms: 0, duration_ms, repeating }),
    {
        Timer { elapsed_ms: 0, duration_ms, repeating }
    }

    /// Advances the timer by `delta` milliseconds.
    pub fn tick(&mut self, delta: u64)
        ensures
            *final(self) == old(self).ticked(delta),
            old(self).wf() ==> final(self).wf(),
    {
        if self.repeating {
            if self.duration_ms == 0 {
                self.elapsed_ms = 0;
            } else {
                let wide: u128 = self.elapsed_ms as u128 + delta as u128;
                self.elapsed_ms = (wide % (self.duration_ms as u128)) as u64;
            }
        } else {
            if delta >= self.duration_ms || self.elapsed_ms >= self.duration_ms - delta {
                self.elapsed_ms = self.duration_ms;
            } else {
                self.elapsed_ms = self.elapsed_ms + delta;
            }
        }
    }

    /// Whether a once-timer has run to completion.
    pub fn is_finished(&self) -> (r: bool)
        ensures
            r == (self.elapsed_ms >= self.duration_ms),
    {
        self.elapsed_ms >= self.duration_ms
    }

    /// Time left until the timer finishes (or wraps).
    pub fn remaining_ms(&self) -> (r: u64)
        requires
            self.wf(),
        ensures
            r == self.duration_ms - self.elapsed_ms,
    {
        self.duration_ms - self.elapsed_ms
    }

    /// The elapsed fraction in thousandths, between 0 and 1000; a
    /// zero-duration timer counts as fully elapsed.
    pub fn fraction_permille(&self) -> (r: u64)
        requires
            self.wf(),
        ensures
            r == scaled_elapsed(*self, 1000),
            r <= 1000,
    {
        proof {
            lemma_scaled_elapsed_bound(*self, 1000);
        }
        if self.duration_ms == 0 {
            1000
        } else {
            let e: u128 = self.elapsed_ms as u128;
            proof {
                assert(e * 1000 <= u64::MAX as u128 * 1000) by (nonlinear_arith)
                    requires
                        e <= u64::MAX as u128,
                ;
            }
            let wide: u128 = (e * 1000) / (self.duration_ms as u128);
            wide as u64
        }
    }
}

/// The timer after a whole sequence of ticks, one per simulated frame.
pub open spec fn ticked_many(t: Timer, deltas: Seq<u64>) -> Timer
    decreases deltas.len(),
{
    if deltas.len() == 0 {
        t
    } else {
        ticked_many(t.ticked(deltas[0]), deltas.drop_first())
    }
}

/// The total of a sequence of frame deltas.
pub open spec fn sum_of(deltas: Seq<u64>) -> int
    decreases deltas.len(),
{
    if deltas.len() == 0 {
        0
    } else {
        deltas[0] + sum_of(deltas.drop_first())
    }
}

/// A once-timer accumulates exactly the total of its ticks, however the
/// time is partitioned into frames, saturating at its duration. In
/// particular it is finished after any frame sequence whose deltas sum to
/// at least its remaining time — the expiry of a lifetime does not depend
/// on the frame boundaries.
pub proof fn lemma_once_ticks_accumulate(t: Timer, deltas: Seq<u64>)
    requires
        t.wf(),
        !t.repeating,
    ensures
        ticked_many(t, deltas).duration_ms == t.duration_ms,
        !ticked_many(t, deltas).repeating,
        ticked_many(t, deltas).elapsed_ms == (if t.elapsed_ms + sum_of(deltas) >= t.duration_ms {
            t.duration_ms as int
        } else {
            t.elapsed_ms + sum_of(deltas)
        }),
    decreases deltas.len(),
{
    if deltas.len() > 0 {
        let t1 = t.ticked(deltas[0]);
        assert(t1.wf());
        lemma_sum_of_nonneg(deltas.drop_first());
        lemma_once_ticks_accumulate(t1, deltas.drop_first());
    }
}

/// Frame deltas never total a negative time.
proof fn lemma_sum_of_nonneg(deltas: Seq<u64>)
    ensures
        sum_of(deltas) >= 0,
    decreases deltas.len(),
{
    if deltas.len() > 0 {
        lemma_sum_of_nonneg(deltas.drop_first());
    }
}

/// The elapsed time that gives a timer of duration `duration_ms` the same
/// elapsed fraction as `other`. A zero-duration `other` counts as fully
/// elapsed.
pub open spec fn scaled_elapsed(other: Timer, duration_ms: u64) -> int {
    if other.duration_ms == 0 {
        duration_ms as int
    } else {
        other.elapsed_ms * duration_ms / (other.duration_ms as int)
    }
}

/// The elapsed fraction of a well-formed timer is at most one, so scaling it
/// onto another duration stays within that duration.
pub proof fn lemma_scaled_elapsed_bound(other: Timer, duration_ms: u64)
    requires
        other.wf(),
    ensures
        0 <= scaled_elapsed(other, duration_ms) <= duration_ms,
{
    if other.duration_ms != 0 {
        lemma_mul_inequality(
            other.elapsed_ms as int,
            other.duration_ms as int,
            duration_ms as int,
        );
        lemma_div_is_ordered(
            other.elapsed_ms * duration_ms,
            other.duration_ms * duration_ms,
            other.duration_ms as int,
        );
        lemma_div_multiples_vanish(duration_ms as int, other.duration_ms as int);
    }
}

/// The timer that results from merging the incoming timer `incoming` (whose
/// merge mode governs) with the timer `existing` already on the matched
/// effect.
pub open spec fn merged_timer(incoming: Timer, mode: TimerMergeMode, existing: Timer) -> Timer {
    match mode {
        TimerMergeMode::Replace => incoming,
        TimerMergeMode::Keep => existing,
        TimerMergeMode::Fraction => Timer {
            elapsed_ms: scaled_elapsed(existing, incoming.duration_ms) as u64,
            ..incoming
        },
        TimerMergeMode::Max => {
            if existing.duration_ms - existing.elapsed_ms > incoming.duration_ms
                - incoming.elapsed_ms {
                existing
            } else {
                incoming
            }
        },
        TimerMergeMode::Sum => Timer {
            duration_ms: if incoming.duration_ms + existing.duration_ms > u64::MAX {
                u64::MAX
            } else {
                (incoming.duration_ms + existing.duration_ms) as u64
            },
            ..incoming
        },
    }
}

/// Merging two well-formed timers yields a well-formed timer.
pub proof fn lemma_merged_timer_wf(incoming: Timer, mode: TimerMergeMode, existing: Timer)
    requires
        incoming.wf(),
        existing.wf(),
    ensures
        merged_timer(incoming, mode, existing).wf(),
{
    if mode == TimerMergeMode::Fraction {
        lemma_scaled_elapsed_bound(existing, incoming.duration_ms);
    }
}

/// Combines `t` (the incoming timer, whose `mode` governs) in place with the
/// timer already on the matched effect instance.
pub fn merge_timer(t: &mut Timer, mode: TimerMergeMode, existing: &Timer)
    requires
        old(t).wf(),
        existing.wf(),
    ensures
        *final(t) == merged_timer(*old(t), mode, *existing),
        final(t).wf(),
{
    proof {
        lemma_merged_timer_wf(*t, mode, *existing);
    }
    match mode {
        TimerMergeMode::Replace => {},
        TimerMergeMode::Keep => {
            *t = *existing;
        },
        TimerMergeMode::Fraction => {
            if existing.duration_ms == 0 {
                t.elapsed_ms = t.duration_ms;
            } else {
                let e: u128 = existing.elapsed_ms as u128;
                let d: u128 = t.duration_ms as u128;
                proof {
                    assert(e * d <= u64::MAX as u128 * u64::MAX as u128) by (nonlinear_arith)
                        requires
                            e <= u64::MAX as u128,
                            d <= u64::MAX as u128,
                    ;
                    lemma_scaled_elapsed_bound(*existing, t.duration_ms);
                }
                let wide: u128 = (e * d) / (existing.duration_ms as u128);
                t.elapsed_ms = wide as u64;
            }
        },
        TimerMergeMode::Max => {
            if existing.duration_ms - existing.elapsed_ms > t.duration_ms - t.elapsed_ms {
                *t = *existing;
            }
        },
        TimerMergeMode::Sum => {
            t.duration_ms = t.duration_ms.saturating_add(existing.duration_ms);
        },
    }
}

/// A one-shot timer that despawns the effect instance when it finishes.
#[derive(Copy, Clone, PartialEq, Eq, Structural, Debug)]
pub struct Lifetime {
    /// Tracks the elapsed time. Once the timer is finished, the effect
    /// instance is despawned by the per-frame maintenance step.
    pub timer: Timer,
    /// Controls the merge behaviour when the owning effect is merged.
    pub mode: TimerMergeMode,
}

impl Lifetime {
    /// The inner timer is well-formed and runs once.
    pub open spec fn wf(self) -> bool {
        self.timer.wf() && !self.timer.repeating
    }

    /// A fresh lifetime of `duration_ms` milliseconds, with the default
    /// merge mode `Max`.
    pub fn from_millis(duration_ms: u64) -> (r: Lifetime)
        ensures
            r.timer == (Timer { elapsed_ms: 0, duration_ms, repeating: false }),
            r.mode == TimerMergeMode::Max,
            r.wf(),
    {
        Lifetime { timer: Timer::new(duration_ms, false), mode: TimerMergeMode::Max }
    }

    /// Overwrites the merge mode, builder style.
    pub fn with_mode(self, mode: TimerMergeMode) -> (r: Lifetime)
        ensures
            r == (Lifetime { mode, ..self }),
    {
        Lifetime { mode, ..self }
    }

    /// Merges this incoming lifetime with the one already on the matched
    /// effect instance; `self.mode` governs the arithmetic.
    pub fn merge(&mut self, existing: &Lifetime)
        requires
            old(self).timer.wf(),
            existing.timer.wf(),
        ensures
            *final(self) == merged_lifetime(*old(self), *existing),
            final(self).timer.wf(),
    {
        merge_timer(&mut self.timer, self.mode, &existing.timer)
    }
}

impl Default for Lifetime {
    /// A zero-duration lifetime (already finished) with the default merge
    /// mode `Max`.
    fn default() -> (r: Lifetime)
        ensures
            r.timer == (Timer { elapsed_ms: 0, duration_ms: 0, repeating: false }),
            r.mode == TimerMergeMode::Max,
            r.wf(),
    {
        Lifetime::from_millis(0)
    }
}

/// The lifetime that results from merging `incoming` with `existing`; the
/// incoming side's mode governs and survives.
pub open spec fn merged_lifetime(incoming: Lifetime, existing: Lifetime) -> Lifetime {
    Lifetime {
        timer: merged_timer(incoming.timer, incoming.mode, existing.timer),
        mode: incoming.mode,
    }
}

/// A repeating timer used for the delay between effect ticks. It never
/// despawns its effect; game logic reads it to gate a repeated action.
#[derive(Copy, Clone, PartialEq, Eq, Structural, Debug)]
pub struct Delay {
    /// Tracks the elapsed time, wrapping at the duration.
    pub timer: Timer,
    /// Controls the merge behaviour when the owning effect is merged.
    pub mode: TimerMergeMode,
}

impl Delay {
    /// The inner timer is well-formed and repeats.
    pub open spec fn wf(self) -> bool {
        self.timer.wf() && self.timer.repeating
    }

    /// A fresh delay of `duration_ms` milliseconds, with the default merge
    /// mode `Fraction`.
    pub fn from_millis(duration_ms: u64) -> (r: Delay)
        ensures
            r.timer == (Timer { elapsed_ms: 0, duration_ms, repeating: true }),
            r.mode == TimerMergeMode::Fraction,
            r.wf(),
    {
        Delay { timer: Timer::new(duration_ms, true), mode: TimerMergeMode::Fraction }
    }

    /// Overwrites the merge mode, builder style.
    pub fn with_mode(self, mode: TimerMergeMode) -> (r: Delay)
        ensures
            r == (Delay { mode, ..self }),
    {
        Delay { mode, ..self }
    }

    /// Merges this incoming delay with the one already on the matched effect
    /// instance; `self.mode` governs the arithmetic.
    pub fn merge(&mut self, existing: &Delay)
        requires
            old(self).timer.wf(),
            existing.timer.wf(),
        ensures
            *final(self) == merged_delay(*old(self), *existing),
            final(self).timer.wf(),
    {
        merge_timer(&mut self.timer, self.mode, &existing.timer)
    }
}

impl Default for Delay {
    /// A zero-duration delay with the default merge mode `Fraction`.
    fn default() -> (r: Delay)
        ensures
            r.timer == (Timer { elapsed_ms: 0, duration_ms: 0, repeating: true }),
            r.mode == TimerMergeMode::Fraction,
            r.wf(),
    {
        Delay::from_millis(0)
    }
}

/// The delay that results from merging `incoming` with `existing`; the
/// incoming side's mode governs and survives.
pub open spec fn merged_delay(incoming: Delay, existing: Delay) -> Delay {
    Delay {
        timer: merged_timer(incoming.timer, incoming.mode, existing.timer),
        mode: incoming.mode,
    }
}

} // verus!
