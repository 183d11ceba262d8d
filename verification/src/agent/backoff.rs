//! How long the agent waits before it connects again.

use vstd::arithmetic::power2::{lemma2_to64, lemma_pow2_unfold, pow2};
use vstd::prelude::*;

verus! {

/// The first wait, in seconds.
pub const FIRST_WAIT: u64 = 1;

/// The longest wait, in seconds.
pub const LONGEST_WAIT: u64 = 60;

/// The wait that follows a wait: twice as long, up to the longest.
pub open spec fn longer(secs: nat) -> nat {
    if 2 * secs < LONGEST_WAIT {
        2 * secs
    } else {
        LONGEST_WAIT as nat
    }
}

/// The waits of an agent that connects again and again.
#[derive(Debug)]
pub struct Backoff {
    secs: u64,
}

impl Backoff {
    /// The wait that comes next, in seconds.
    pub closed spec fn secs(&self) -> nat {
        self.secs as nat
    }

    /// The wait is within its bounds.
    pub closed spec fn wf(&self) -> bool {
        FIRST_WAIT <= self.secs <= LONGEST_WAIT
    }

    /// The waits from the first on.
    pub fn new() -> (res: Self)
        ensures
            res.wf(),
            res.secs() == FIRST_WAIT,
    {
        Backoff { secs: FIRST_WAIT }
    }

    /// The next wait, in seconds.
    pub fn next_wait(&mut self) -> (res: u64)
        requires
            old(self).wf(),
        ensures
            final(self).wf(),
            res == old(self).secs(),
            final(self).secs() == longer(old(self).secs()),
    {
        let secs = self.secs;
        let twice = secs * 2;
        self.secs = if twice < LONGEST_WAIT {
            twice
        } else {
            LONGEST_WAIT
        };
        secs
    }
}

impl Default for Backoff {
    fn default() -> (res: Self)
        ensures
            res.wf(),
            res.secs() == FIRST_WAIT,
    {
        Backoff::new()
    }
}

/// The wait with this number, counted from zero.
pub open spec fn wait(n: nat) -> nat
    decreases n,
{
    if n == 0 {
        FIRST_WAIT as nat
    } else {
        longer(wait((n - 1) as nat))
    }
}

/// The waits are one second, two, four and so on, up to a minute.
pub proof fn law_waits_double_up_to_the_longest(n: nat)
    ensures
        wait(n) == (if pow2(n) < LONGEST_WAIT {
            pow2(n)
        } else {
            LONGEST_WAIT as nat
        }),
        wait(n) == (if n < 6 {
            pow2(n)
        } else {
            60
        }),
    decreases n,
{
    lemma2_to64();
    if n > 0 {
        law_waits_double_up_to_the_longest((n - 1) as nat);
        lemma_pow2_unfold(n);
    }
}

} // verus!
