//! The watchdog that guards each station check. A check may hang in a
//! socket read that nothing can interrupt; the watchdog, polled once a
//! second, stands down when the check finishes and otherwise fires at its
//! deadline, upon which the process ends with `HANG_EXIT_CODE` so that a
//! supervisor restarts it.

use vstd::prelude::*;

verus! {

/// The exit status of a process ended by the watchdog.
pub const HANG_EXIT_CODE: i32 = 2;

/// What a poll of the watchdog decides.
#[derive(Clone, Copy, PartialEq, Eq, Debug, Structural)]
pub enum Verdict {
    /// The check is still running and within its deadline.
    Wait,
    /// The check finished: the watchdog ends quietly.
    StandDown,
    /// The deadline has passed: the process must end.
    Fire,
}

/// Seconds a check may take: `retries × timeout × 2`.
pub open spec fn deadline_of(retries: u8, timeout: u32) -> nat {
    retries as nat * timeout as nat * 2
}

/// One poll: the seconds counted after it, and its verdict.
pub open spec fn poll_result(elapsed: nat, deadline: nat, finished: bool) -> (nat, Verdict) {
    if finished {
        (elapsed, Verdict::StandDown)
    } else {
        let e = if elapsed < deadline { elapsed + 1 } else { elapsed };
        (e, if e >= deadline { Verdict::Fire } else { Verdict::Wait })
    }
}

pub struct Watchdog {
    elapsed: u64,
    deadline: u64,
}

impl Watchdog {
    pub closed spec fn elapsed_spec(&self) -> nat {
        self.elapsed as nat
    }

    pub closed spec fn deadline_spec(&self) -> nat {
        self.deadline as nat
    }

    pub open spec fn wf(&self) -> bool {
        self.elapsed_spec() <= self.deadline_spec()
    }

    /// A watchdog for a check with `retries` attempts of `timeout` seconds.
    pub fn new(retries: u8, timeout: u32) -> (r: Watchdog)
        ensures
            r.wf(),
            r.elapsed_spec() == 0,
            r.deadline_spec() == deadline_of(retries, timeout),
    {
        assert((retries as u64) * (timeout as u64) <= 255 * 0xffff_ffffu64) by (nonlinear_arith)
            requires
                retries <= 255,
                timeout <= 0xffff_ffffu64,
        ;
        let d = (retries as u64) * (timeout as u64);
        Watchdog { elapsed: 0, deadline: d * 2 }
    }

    pub fn deadline(&self) -> (r: u64)
        ensures
            r == self.deadline_spec(),
    {
        self.deadline
    }

    /// One second has passed; `finished` tells whether the check is done.
    pub fn poll(&mut self, finished: bool) -> (r: Verdict)
        requires
            old(self).wf(),
        ensures
            final(self).wf(),
            final(self).deadline_spec() == old(self).deadline_spec(),
            (final(self).elapsed_spec(), r) == poll_result(old(self).elapsed_spec(), old(self).deadline_spec(), finished),
    {
        if finished {
            return Verdict::StandDown;
        }
        if self.elapsed < self.deadline {
            self.elapsed = self.elapsed + 1;
        }
        if self.elapsed >= self.deadline {
            Verdict::Fire
        } else {
            Verdict::Wait
        }
    }
}

/// `k` polls of a check that never finishes, from a fresh watchdog.
pub open spec fn hung_polls(deadline: nat, k: nat) -> (nat, Verdict)
    decreases k,
{
    if k == 0 {
        (0, Verdict::Wait)
    } else {
        poll_result(hung_polls(deadline, (k - 1) as nat).0, deadline, false)
    }
}

/// A check that never finishes is let be until its deadline and then
/// fired on: the poll numbered `k` fires exactly when `k` has reached the
/// deadline.
pub proof fn lemma_hang_fires_at_deadline(deadline: nat, k: nat)
    requires
        k >= 1,
    ensures
        hung_polls(deadline, k).0 == if k < deadline { k } else { deadline },
        hung_polls(deadline, k).1 == if k >= deadline { Verdict::Fire } else { Verdict::Wait },
    decreases k,
{
    let prev = hung_polls(deadline, (k - 1) as nat);
    assert(hung_polls(deadline, k) == poll_result(prev.0, deadline, false));
    if k > 1 {
        lemma_hang_fires_at_deadline(deadline, (k - 1) as nat);
    } else {
        assert(prev == (0nat, Verdict::Wait));
    }
}

} // verus!
