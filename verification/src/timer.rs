//! Countdown timers: a generic accumulator that ticks by elapsed time and
//! reports completion.  Used for the enemy spawn cadence, the damage-flash
//! duration and the melee-swing duration.

use vstd::prelude::*;

verus! {

/// A countdown over milliseconds.
///
/// `tick` advances the accumulated time; `finished` reports whether the
/// accumulation reached the duration during the most recent tick (and, for a
/// non-repeating timer, stays true from then on).  A repeating timer resets
/// its accumulation at each interval boundary, keeping the remainder.
#[derive(Clone, Copy, Debug)]
pub struct Timer {
    pub duration_ms: u32,
    pub elapsed_ms: u32,
    pub repeating: bool,
    pub done: bool,
}

impl Timer {
    /// A timer is well formed when its duration is positive and its
    /// accumulation never exceeds the duration.
    pub open spec fn wf(self) -> bool {
        1 <= self.duration_ms && self.elapsed_ms <= self.duration_ms
    }

    /// What `tick(dt_ms)` leaves behind: the accumulation grows by `dt_ms`;
    /// a repeating timer reports completion exactly when an interval boundary
    /// was crossed and keeps the remainder, a one-shot timer saturates at its
    /// duration and stays complete.
    pub open spec fn ticked(self, dt_ms: u32) -> Timer {
        let total = self.elapsed_ms + dt_ms;
        if self.repeating {
            Timer {
                elapsed_ms: (total % (self.duration_ms as int)) as u32,
                done: total >= self.duration_ms,
                ..self
            }
        } else {
            Timer {
                elapsed_ms: if total <= self.duration_ms {
                    total as u32
                } else {
                    self.duration_ms
                },
                done: self.done || total >= self.duration_ms,
                ..self
            }
        }
    }

    pub fn new(duration_ms: u32, repeating: bool) -> (t: Timer)
        requires
            1 <= duration_ms,
        ensures
            t.wf(),
            t.duration_ms == duration_ms,
            t.repeating == repeating,
            t.elapsed_ms == 0,
            !t.done,
    {
        Timer { duration_ms, elapsed_ms: 0, repeating, done: false }
    }

    /// Advance the accumulated time by `dt_ms` milliseconds.
    pub fn tick(&mut self, dt_ms: u32)
        requires
            old(self).wf(),
        ensures
            final(self).wf(),
            *final(self) == old(self).ticked(dt_ms),
    {
        let total: u64 = self.elapsed_ms as u64 + dt_ms as u64;
        if self.repeating {
            if total >= self.duration_ms as u64 {
                self.done = true;
                self.elapsed_ms = (total % self.duration_ms as u64) as u32;
            } else {
                proof {
                    vstd::arithmetic::div_mod::lemma_small_mod(
                        total as nat,
                        self.duration_ms as nat,
                    );
                }
                self.done = false;
                self.elapsed_ms = total as u32;
            }
        } else {
            if total >= self.duration_ms as u64 {
                self.done = true;
                self.elapsed_ms = self.duration_ms;
            } else {
                self.elapsed_ms = total as u32;
            }
        }
    }

    /// Whether the accumulation reached the duration during the last tick.
    pub fn finished(&self) -> (r: bool)
        ensures
            r == self.done,
    {
        self.done
    }

    /// The timer after `n` ticks of `dt_ms` milliseconds each.
    pub open spec fn ticked_n(self, dt_ms: u32, n: nat) -> Timer
        decreases n,
    {
        if n == 0 {
            self
        } else {
            self.ticked_n(dt_ms, (n - 1) as nat).ticked(dt_ms)
        }
    }
}

/// Law: the cadence of a repeating timer is exact.  Starting fresh and
/// ticked in equal steps that divide the duration, after `n` ticks its
/// accumulation is the total elapsed time modulo the duration, and it
/// reports completion on precisely those ticks at which the total reaches a
/// multiple of the duration: one firing per interval, none skipped, none
/// doubled.
pub proof fn lemma_repeating_cadence(t: Timer, dt_ms: u32, n: nat)
    requires
        t.wf(),
        t.repeating,
        t.elapsed_ms == 0,
        !t.done,
        1 <= dt_ms,
        (t.duration_ms as int) % (dt_ms as int) == 0,
    ensures
        t.ticked_n(dt_ms, n).wf(),
        t.ticked_n(dt_ms, n).duration_ms == t.duration_ms,
        t.ticked_n(dt_ms, n).repeating,
        t.ticked_n(dt_ms, n).elapsed_ms == (n * dt_ms) % (t.duration_ms as int),
        n >= 1 ==> (t.ticked_n(dt_ms, n).done <==> (n * dt_ms) % (t.duration_ms as int) == 0),
    decreases n,
{
    let dur = t.duration_ms as int;
    let dt = dt_ms as int;
    if n == 0 {
        vstd::arithmetic::div_mod::lemma_small_mod(0nat, t.duration_ms as nat);
    } else {
        lemma_repeating_cadence(t, dt_ms, (n - 1) as nat);
        let tp = t.ticked_n(dt_ms, (n - 1) as nat);
        let x = (n - 1) * dt;
        assert(x >= 0 && x + dt == n * dt_ms) by (nonlinear_arith)
            requires
                n >= 1,
                dt == dt_ms,
                dt >= 1,
                x == (n - 1) * dt,
        ;
        assert(tp.elapsed_ms == x % dur);
        let q = dur / dt;
        assert(dur == dt * q) by {
            vstd::arithmetic::div_mod::lemma_fundamental_div_mod(dur, dt);
        }
        assert(q >= 1) by (nonlinear_arith)
            requires
                dur == dt * q,
                dur >= 1,
                dt >= 1,
        ;
        vstd::arithmetic::div_mod::lemma_breakdown(x, dt, q);
        vstd::arithmetic::div_mod::lemma_mod_multiples_basic(n - 1, dt);
        assert(x % dt == 0);
        let k = (x / dt) % q;
        vstd::arithmetic::div_mod::lemma_mod_division_less_than_divisor(x / dt, q);
        assert(x % dur == dt * k);
        assert(dt * k <= dur - dt) by (nonlinear_arith)
            requires
                0 <= k <= q - 1,
                dt >= 1,
                dur == dt * q,
        ;
        let total = (x % dur) + dt;
        assert(total <= dur);
        vstd::arithmetic::div_mod::lemma_add_mod_noop_right(dt, x, dur);
        assert((dt + x % dur) % dur == (dt + x) % dur);
        if total >= dur {
            vstd::arithmetic::div_mod::lemma_mod_self_0(dur);
            assert(total % dur == 0);
        } else {
            vstd::arithmetic::div_mod::lemma_small_mod(total as nat, t.duration_ms as nat);
            assert(total % dur == total);
        }
        vstd::arithmetic::div_mod::lemma_mod_division_less_than_divisor(total, dur);
    }
}

} // verus!
