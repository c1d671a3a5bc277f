//! Exponential backoff between connection attempts: every failure is
//! answered with a delay, the delays grow by a constant factor up to a
//! maximum, and there is no attempt after which the policy gives up.

use vstd::arithmetic::power::pow;
use vstd::math::min;
use vstd::prelude::*;

verus! {

/// The value of a policy. Intervals are in milliseconds.
pub struct Backoff {
    /// The interval that the next failure is answered with.
    pub current: nat,
    /// The interval after a reset.
    pub initial: nat,
    /// The factor by which the interval grows with each failure.
    pub multiplier: nat,
    /// The interval that no delay exceeds.
    pub max: nat,
}

impl Backoff {
    /// The policy after a successful connection.
    pub open spec fn reset(self) -> Backoff {
        Backoff { current: self.initial, ..self }
    }

    /// The delay that answers the next failure.
    pub open spec fn delay(self) -> nat {
        min(self.current as int, self.max as int) as nat
    }

    /// The policy after one failure.
    pub open spec fn advance(self) -> Backoff {
        Backoff {
            current: min((self.current * self.multiplier) as int, self.max as int) as nat,
            ..self
        }
    }

    /// The policy after a number of failures in a row.
    pub open spec fn after(self, failures: nat) -> Backoff
        decreases failures,
    {
        if failures == 0 {
            self
        } else {
            self.after((failures - 1) as nat).advance()
        }
    }
}

/// An exponential backoff policy without a limit on the number of attempts
/// or on the time that has passed.
pub struct BackoffPolicy {
    current_interval: u64,
    initial_interval: u64,
    multiplier: u64,
    max_interval: u64,
}

impl View for BackoffPolicy {
    type V = Backoff;

    closed spec fn view(&self) -> Backoff {
        Backoff {
            current: self.current_interval as nat,
            initial: self.initial_interval as nat,
            multiplier: self.multiplier as nat,
            max: self.max_interval as nat,
        }
    }
}

impl BackoffPolicy {
    /// A policy that starts at `initial_interval` milliseconds, multiplies
    /// the interval by `multiplier` with each failure and never waits longer
    /// than `max_interval` milliseconds.
    pub fn new(initial_interval: u64, multiplier: u64, max_interval: u64) -> (policy: BackoffPolicy)
        ensures
            policy@ == (Backoff {
                current: initial_interval as nat,
                initial: initial_interval as nat,
                multiplier: multiplier as nat,
                max: max_interval as nat,
            }),
    {
        BackoffPolicy {
            current_interval: initial_interval,
            initial_interval,
            multiplier,
            max_interval,
        }
    }

    /// Restores the interval to its initial value.
    pub fn reset(&mut self)
        ensures
            final(self)@ == old(self)@.reset(),
    {
        self.current_interval = self.initial_interval;
    }

    /// Returns the delay in milliseconds to wait before the next attempt,
    /// and grows the interval for the failure after this one.
    pub fn next_backoff(&mut self) -> (delay: u64)
        ensures
            delay == old(self)@.delay(),
            final(self)@ == old(self)@.advance(),
    {
        let delay = if self.current_interval <= self.max_interval {
            self.current_interval
        } else {
            self.max_interval
        };
        self.current_interval =
        match self.current_interval.checked_mul(self.multiplier) {
            Some(grown) => if grown <= self.max_interval {
                grown
            } else {
                self.max_interval
            },
            None => self.max_interval,
        };
        delay
    }

    /// The interval, in milliseconds, that the next failure is answered
    /// with, before it is held to the maximum.
    pub fn current_interval(&self) -> (interval: u64)
        ensures
            interval == self@.current,
    {
        self.current_interval
    }

    /// The interval after a reset, in milliseconds.
    pub fn initial_interval(&self) -> (interval: u64)
        ensures
            interval == self@.initial,
    {
        self.initial_interval
    }

    /// The factor by which the interval grows.
    pub fn multiplier(&self) -> (factor: u64)
        ensures
            factor == self@.multiplier,
    {
        self.multiplier
    }

    /// The longest delay, in milliseconds.
    pub fn max_interval(&self) -> (interval: u64)
        ensures
            interval == self@.max,
    {
        self.max_interval
    }
}

/// A failure before a run of failures is a failure behind it.
pub proof fn lemma_after_advance(policy: Backoff, failures: nat)
    ensures
        policy.advance().after(failures) == policy.after(failures + 1),
    decreases failures,
{
    if failures == 0 {
        assert(policy.after(1) == policy.after(0).advance());
    } else {
        lemma_after_advance(policy, (failures - 1) as nat);
    }
}

proof fn lemma_interval_after(policy: Backoff, failures: nat)
    requires
        failures >= 1,
    ensures
        policy.reset().after(failures).current == min(
            policy.initial * pow(policy.multiplier as int, failures),
            policy.max as int,
        ),
        policy.reset().after(failures).max == policy.max,
        policy.reset().after(failures).multiplier == policy.multiplier,
    decreases failures,
{
    let m = policy.multiplier as int;
    let start = policy.reset();
    reveal(pow);
    if failures == 1 {
        assert(start.after(0) == start);
        assert(pow(m, 1) == m * pow(m, 0));
        assert(pow(m, 0) == 1);
        assert(policy.initial * (m * 1) == policy.initial * m) by (nonlinear_arith);
    } else {
        let before = (failures - 1) as nat;
        lemma_interval_after(policy, before);
        let grown = policy.initial * pow(m, before);
        let held = start.after(before).current as int;
        assert(pow(m, failures) == m * pow(m, before));
        assert(policy.initial * (m * pow(m, before)) == grown * m) by (nonlinear_arith)
            requires
                grown == policy.initial * pow(m, before),
        ;
        if grown <= policy.max {
            assert(held == grown);
        } else {
            assert(held == policy.max);
            assert(m >= 1) by {
                if m == 0 {
                    assert(pow(m, before) == m * pow(m, (before - 1) as nat));
                    assert(policy.initial * (0 * pow(m, (before - 1) as nat)) == 0)
                        by (nonlinear_arith);
                }
            }
            assert(grown * m >= grown) by (nonlinear_arith)
                requires
                    grown >= 0,
                    m >= 1,
            ;
            assert(held * m >= held) by (nonlinear_arith)
                requires
                    held >= 0,
                    m >= 1,
            ;
        }
    }
}

/// After a reset, the delay that answers the `n`th failure in a row is the
/// initial interval times the multiplier to the power of `n - 1`, held to
/// the maximum.
pub proof fn lemma_nth_delay(policy: Backoff, n: nat)
    requires
        n >= 1,
    ensures
        policy.reset().after((n - 1) as nat).delay() == min(
            policy.initial * pow(policy.multiplier as int, (n - 1) as nat),
            policy.max as int,
        ),
{
    if n == 1 {
        reveal(pow);
        assert(policy.reset().after(0) == policy.reset());
        assert(pow(policy.multiplier as int, 0) == 1);
    } else {
        lemma_interval_after(policy, (n - 1) as nat);
    }
}

/// The delay that answers the first failure after a reset is the initial
/// interval, wherever the initial interval is within the maximum.
pub proof fn lemma_first_delay_after_reset(policy: Backoff)
    requires
        policy.initial <= policy.max,
    ensures
        policy.reset().delay() == policy.initial,
{
}

} // verus!
