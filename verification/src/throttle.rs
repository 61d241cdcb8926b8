//! The pace of requests.

use vstd::prelude::*;
use vstd::arithmetic::power2::{
    lemma2_to64, lemma_pow2_pos, lemma_pow2_strictly_increases, lemma_pow2_unfold, pow2,
};

verus! {

/// The delay that every request for a listing waits out. It grows when the server
/// asks for less and shrinks after sustained success.
#[derive(Debug, PartialEq)]
pub struct Throttle {
    pub delay_ms: u64,
    pub max_ms: u64,
    pub ok_streak: u64,
}

/// The delay after a refusal: half as much again, at most `max_ms`. Where the ceiling
/// allows it, the delay is at least 50.
pub open spec fn penalized(delay_ms: u64, max_ms: u64) -> int {
    let more = delay_ms * 3 / 2;
    if more > max_ms {
        max_ms as int
    } else if more < 50 && 50 <= max_ms {
        50
    } else {
        more
    }
}

/// The delay after a run of successes: a tenth less, but not below 50.
pub open spec fn relaxed(delay_ms: int) -> int {
    let less = delay_ms * 9 / 10;
    if less < 50 {
        50
    } else {
        less
    }
}

/// The delay and the count of successes in a row after one success more: the fiftieth
/// shortens the delay and starts the count again.
pub open spec fn after_success(delay_ms: int, streak: int) -> (int, int) {
    if streak + 1 < 50 {
        (delay_ms, streak + 1)
    } else {
        (relaxed(delay_ms), 0)
    }
}

/// The delay with which the sweep number `pass` starts: doubled `pass` times, at most
/// `max_ms`.
pub open spec fn slowed(delay_ms: u64, max_ms: u64, pass: u32) -> int {
    let more = delay_ms * pow2(pass as nat);
    if more > max_ms {
        max_ms as int
    } else {
        more
    }
}

impl Throttle {
    /// No operation overflows, now or later.
    pub open spec fn in_range(self) -> bool {
        &&& self.delay_ms <= u64::MAX / 9
        &&& self.max_ms <= u64::MAX / 9
        &&& self.ok_streak < 50
    }

    pub fn new(start_ms: u64, max_ms: u64) -> (r: Self)
        ensures
            r == (Throttle { delay_ms: start_ms, max_ms, ok_streak: 0 }),
    {
        Throttle { delay_ms: start_ms, max_ms, ok_streak: 0 }
    }

    pub fn current(&self) -> (r: u64)
        ensures
            r == self.delay_ms,
    {
        self.delay_ms
    }

    /// The server refused a request: back off.
    pub fn penalize(&mut self)
        requires
            old(self).delay_ms * 3 <= u64::MAX,
        ensures
            final(self).delay_ms == penalized(old(self).delay_ms, old(self).max_ms),
            final(self).max_ms == old(self).max_ms,
            final(self).ok_streak == 0,
            old(self).in_range() ==> final(self).in_range(),
    {
        self.ok_streak = 0;
        let more = (self.delay_ms * 3) / 2;
        if more > self.max_ms {
            self.delay_ms = self.max_ms;
        } else if more < 50 && 50 <= self.max_ms {
            self.delay_ms = 50;
        } else {
            self.delay_ms = more;
        }
    }

    /// Starts a sweep over failed listings at a slower pace than the one that failed.
    pub fn slow_start(&mut self, pass: u32)
        ensures
            final(self).delay_ms == slowed(old(self).delay_ms, old(self).max_ms, pass),
            final(self).max_ms == old(self).max_ms,
            final(self).ok_streak == 0,
            old(self).in_range() ==> final(self).in_range(),
    {
        let start = self.delay_ms;
        let most = self.max_ms;
        let mut delay = start;
        let mut left = pass;
        while left > 0 && delay > 0 && delay <= most / 2
            invariant
                delay * pow2(left as nat) == start * pow2(pass as nat),
            decreases left,
        {
            proof {
                lemma_pow2_unfold(left as nat);
                let half = pow2((left - 1) as nat) as int;
                assert(delay * (2 * half) == (delay * 2) * half) by (nonlinear_arith);
            }
            delay = delay * 2;
            left = left - 1;
        }
        proof {
            lemma_pow2_pos(left as nat);
            let factor = pow2(left as nat) as int;
            if left == 0 {
                lemma2_to64();
                assert(delay * 1 == delay);
            } else if delay > 0 {
                lemma_pow2_unfold(left as nat);
                lemma_pow2_pos((left - 1) as nat);
                assert(delay * factor >= delay * 2) by (nonlinear_arith)
                    requires
                        delay > 0,
                        factor >= 2,
                ;
            } else {
                assert(delay * factor == 0) by (nonlinear_arith)
                    requires
                        delay == 0,
                ;
            }
        }
        self.delay_ms = if delay > most || (left > 0 && delay > 0) {
            most
        } else {
            delay
        };
        self.ok_streak = 0;
    }

    /// A request succeeded. The fiftieth in a row shortens the delay, and the count
    /// starts again.
    pub fn relax(&mut self)
        requires
            old(self).ok_streak < u64::MAX,
            old(self).ok_streak + 1 >= 50 ==> old(self).delay_ms * 9 <= u64::MAX,
        ensures
            final(self).max_ms == old(self).max_ms,
            (final(self).delay_ms as int, final(self).ok_streak as int) == after_success(
                old(self).delay_ms as int,
                old(self).ok_streak as int,
            ),
            old(self).in_range() ==> final(self).in_range(),
    {
        if self.ok_streak + 1 < 50 {
            self.ok_streak = self.ok_streak + 1;
            return;
        }
        self.ok_streak = 0;
        let less = (self.delay_ms * 9) / 10;
        self.delay_ms = if less < 50 {
            50
        } else {
            less
        };
    }
}

/// A refusal never speeds the run up, keeps the delay under the ceiling, and slows the
/// run unless the ceiling is reached (or so low that the delay is at most 1).
pub proof fn law_penalty_slows(delay_ms: u64, max_ms: u64)
    requires
        delay_ms <= max_ms,
    ensures
        delay_ms <= penalized(delay_ms, max_ms) <= max_ms,
        penalized(delay_ms, max_ms) == delay_ms <==> delay_ms == max_ms || (max_ms < 50 && delay_ms <= 1),
{
}

/// A later sweep starts no faster than an earlier one, never faster than the current
/// pace unless the ceiling says so, and never above the ceiling. Below the ceiling each
/// sweep more doubles the delay.
pub proof fn law_sweeps_start_slower(delay_ms: u64, max_ms: u64, pass: u32, later: u32)
    requires
        pass <= later,
    ensures
        slowed(delay_ms, max_ms, pass) <= slowed(delay_ms, max_ms, later) <= max_ms,
        delay_ms <= max_ms ==> delay_ms <= slowed(delay_ms, max_ms, pass),
        pass >= 1 && 0 < delay_ms < max_ms ==> delay_ms < slowed(delay_ms, max_ms, pass),
        later == pass + 1 && slowed(delay_ms, max_ms, pass) * 2 <= max_ms ==> slowed(delay_ms, max_ms, later)
            == slowed(delay_ms, max_ms, pass) * 2,
{
    let a = pow2(pass as nat) as int;
    let b = pow2(later as nat) as int;
    lemma_pow2_pos(pass as nat);
    if pass < later {
        lemma_pow2_strictly_increases(pass as nat, later as nat);
    }
    assert(delay_ms * a <= delay_ms * b) by (nonlinear_arith)
        requires
            0 <= delay_ms,
            a <= b,
    ;
    assert(delay_ms * 1 <= delay_ms * a) by (nonlinear_arith)
        requires
            0 <= delay_ms,
            1 <= a,
    ;
    if pass >= 1 {
        lemma_pow2_unfold(pass as nat);
        lemma_pow2_pos((pass - 1) as nat);
        assert(delay_ms * 2 <= delay_ms * a) by (nonlinear_arith)
            requires
                0 <= delay_ms,
                2 <= a,
        ;
    }
    if later == pass + 1 {
        lemma_pow2_unfold(later as nat);
        assert(delay_ms * (2 * a) == delay_ms * a * 2) by (nonlinear_arith);
    }
}

/// The delay and the count of successes after `n` successes more.
pub open spec fn succeeded(delay_ms: int, streak: int, n: nat) -> (int, int)
    decreases n,
{
    if n == 0 {
        (delay_ms, streak)
    } else {
        let (delay, count) = succeeded(delay_ms, streak, (n - 1) as nat);
        after_success(delay, count)
    }
}

/// Fifty successes in a row shorten the delay once, at the last of them.
pub proof fn law_fifty_successes(delay_ms: int, n: nat)
    ensures
        n < 50 ==> succeeded(delay_ms, 0, n) == (delay_ms, n as int),
        n == 50 ==> succeeded(delay_ms, 0, n) == (relaxed(delay_ms), 0int),
    decreases n,
{
    if n > 0 {
        law_fifty_successes(delay_ms, (n - 1) as nat);
    }
}

/// Success never slows a run that waits at least 50, and never goes below 50.
pub proof fn law_success_speeds_up(delay_ms: int)
    ensures
        relaxed(delay_ms) >= 50,
        delay_ms >= 50 ==> relaxed(delay_ms) <= delay_ms,
        delay_ms > 50 ==> relaxed(delay_ms) < delay_ms,
{
}

} // verus!
