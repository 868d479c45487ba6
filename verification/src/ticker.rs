//! Fixed-rate ticks from elapsed time, in whole nanoseconds.

use vstd::arithmetic::div_mod::{lemma_fundamental_div_mod, lemma_fundamental_div_mod_converse};
use vstd::prelude::*;

verus! {

/// Nanoseconds in one second.
pub const SECOND: u64 = 1_000_000_000;

/// Turns elapsed time into ticks of a fixed period and keeps what is left
/// over for the next call.
#[derive(PartialEq, Eq, Structural, Clone, Copy, Debug)]
pub struct Ticker {
    /// Length of one tick, in nanoseconds.
    pub period: u64,
    /// Time that has passed since the last tick, in nanoseconds.
    pub behind: u64,
}

impl Ticker {
    /// The period is positive and less than one period is left over.
    pub open spec fn wf(&self) -> bool {
        0 < self.period && self.behind < self.period
    }

    /// A ticker of `rate` ticks per second, or `None` where `rate` is zero
    /// or more than one tick per nanosecond.
    pub fn from_tick_rate(rate: u32) -> (r: Option<Ticker>)
        ensures
            r.is_some() <==> 0 < rate <= SECOND,
            r.is_some() ==> r.unwrap().wf() && r.unwrap().behind == 0 && r.unwrap().period == SECOND
                / (rate as u64),
    {
        if rate == 0 || rate as u64 > SECOND {
            return None;
        }
        let period: u64 = SECOND / (rate as u64);
        assert(period > 0) by (nonlinear_arith)
            requires
                0 < rate as u64 <= SECOND,
                period == SECOND / (rate as u64),
        ;
        Some(Ticker { period, behind: 0 })
    }

    /// Lets `elapsed` nanoseconds pass. The result is the number of ticks
    /// that are due: the time left over before plus `elapsed`, divided by
    /// the period; the remainder is left over.
    pub fn advance(&mut self, elapsed: u64) -> (ticks: u64)
        requires
            old(self).wf(),
        ensures
            final(self).wf(),
            final(self).period == old(self).period,
            ticks == (old(self).behind + elapsed) / (old(self).period as int),
            final(self).behind == (old(self).behind + elapsed) % (old(self).period as int),
    {
        let whole: u64 = elapsed / self.period;
        let part: u64 = elapsed % self.period;
        let sum: u128 = self.behind as u128 + part as u128;
        let carry: bool = sum >= self.period as u128;
        let rest: u128 = if carry {
            sum - self.period as u128
        } else {
            sum
        };
        proof {
            let p = self.period as int;
            let x = self.behind + elapsed;
            let q = whole + if carry {
                1int
            } else {
                0int
            };
            lemma_fundamental_div_mod(elapsed as int, p);
            assert(q * p == whole * p + (if carry {
                p
            } else {
                0int
            })) by (nonlinear_arith)
                requires
                    q == whole + if carry {
                        1int
                    } else {
                        0int
                    },
            ;
            assert(p * whole == whole * p) by (nonlinear_arith);
            lemma_fundamental_div_mod_converse(x, p, q, rest as int);
            if carry {
                assert(whole < u64::MAX) by (nonlinear_arith)
                    requires
                        p * whole + part == elapsed,
                        p >= 2,
                        part >= 0,
                        elapsed <= u64::MAX,
                        whole >= 0,
                ;
            }
        }
        self.behind = rest as u64;
        if carry {
            whole + 1
        } else {
            whole
        }
    }
}

} // verus!
