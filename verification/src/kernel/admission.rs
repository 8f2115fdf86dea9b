//! CPU reservations and the ledger they are admitted against.

use vstd::prelude::*;

verus! {

/// All of a CPU, in parts per million.
pub const FULL_PPM: u64 = 1_000_000;

/// A share of a CPU that was admitted.
#[derive(Copy, Clone, PartialEq, Eq, Debug, Structural)]
pub struct Reservation {
    pub ppm: u64,
}

/// Why a reservation was refused.
#[derive(Copy, Clone, PartialEq, Eq, Debug, Structural)]
pub enum AdmitError {
    BadParams,
    Overcommit,
}

/// The share of a CPU that `budget` in every `period` takes, in parts per million.
pub open spec fn share_ppm(budget: u64, period: u64) -> int {
    (budget * FULL_PPM) / (period as int)
}

/// Whether a request makes sense: work to do, a period to do it in, and a budget
/// that fits both in the period and before the deadline.
pub open spec fn sensible(budget: u64, period: u64, deadline: u64) -> bool {
    0 < budget <= period && budget <= deadline
}

/// What is admitted so far.
#[derive(Copy, Clone, PartialEq, Eq, Debug, Structural)]
pub struct Admission {
    pub committed: u64,
}

impl Admission {
    /// No more is admitted than there is.
    pub open spec fn wf(&self) -> bool {
        self.committed <= FULL_PPM
    }

    pub fn new() -> (a: Admission)
        ensures
            a.wf(),
            a.committed == 0,
    {
        Admission { committed: 0 }
    }

    /// The share that is admitted, in parts per million.
    pub fn committed_ppm(&self) -> (ppm: u64)
        ensures
            ppm == self.committed,
    {
        self.committed
    }

    /// Admit `budget` in every `period`, if the ledger has room for it.
    pub fn try_admit(&mut self, budget: u64, period: u64, deadline: u64) -> (r: Result<
        Reservation,
        AdmitError,
    >)
        requires
            old(self).wf(),
        ensures
            final(self).wf(),
            r == (if !sensible(budget, period, deadline) {
                Err::<Reservation, AdmitError>(AdmitError::BadParams)
            } else if old(self).committed + share_ppm(budget, period) > FULL_PPM {
                Err(AdmitError::Overcommit)
            } else {
                Ok(Reservation { ppm: share_ppm(budget, period) as u64 })
            }),
            final(self).committed == old(self).committed + (if r is Ok {
                share_ppm(budget, period)
            } else {
                0
            }),
    {
        if budget == 0 || budget > period || budget > deadline {
            return Err(AdmitError::BadParams);
        }
        let share: u128 = (budget as u128 * 1_000_000u128) / period as u128;
        proof {
            assert(budget * FULL_PPM / (period as int) <= FULL_PPM) by (nonlinear_arith)
                requires
                    0 < budget <= period,
            ;
        }
        let ppm: u64 = share as u64;
        if self.committed + ppm > FULL_PPM {
            return Err(AdmitError::Overcommit);
        }
        self.committed = self.committed + ppm;
        Ok(Reservation { ppm })
    }

    /// Give a reservation back.
    pub fn release(&mut self, r: &Reservation)
        requires
            old(self).wf(),
        ensures
            final(self).wf(),
            final(self).committed == (if old(self).committed >= r.ppm {
                old(self).committed - r.ppm
            } else {
                0
            }),
    {
        self.committed = self.committed.saturating_sub(r.ppm);
    }
}

/// Releasing what was admitted leaves the ledger as it was.
pub proof fn law_release_undoes_admit(before: Admission, during: Admission, after: Admission, r: Reservation)
    requires
        during.committed == before.committed + r.ppm,
        after.committed == (if during.committed >= r.ppm {
            during.committed - r.ppm
        } else {
            0
        }),
    ensures
        after.committed == before.committed,
{
}

/// A share is the whole number of millionths of the machine that `budget` out of `period`
/// comes to: the greatest that does not exceed it. Only a request for some time, no more
/// than its period and due no earlier than it can be done, is sensible, so no sensible
/// request is for more than the whole.
pub proof fn law_share_is_in_millionths(budget: u64, period: u64, deadline: u64)
    requires
        period > 0,
    ensures
        share_ppm(budget, period) * period <= budget * 1_000_000,
        budget * 1_000_000 < (share_ppm(budget, period) + 1) * period,
        sensible(budget, period, deadline) <==> 1 <= budget && budget <= period && budget <= deadline,
        sensible(budget, period, deadline) ==> 0 <= share_ppm(budget, period) <= 1_000_000,
        share_ppm(period, period) == 1_000_000,
{
    let x = budget * 1_000_000;
    let d = period as int;
    vstd::arithmetic::div_mod::lemma_fundamental_div_mod(x, d);
    vstd::arithmetic::div_mod::lemma_mod_bound(x, d);
    assert((x / d) * d == d * (x / d)) by (nonlinear_arith);
    assert((x / d + 1) * d == d * (x / d) + d) by (nonlinear_arith);
    assert(period * 1_000_000 == 1_000_000 * d);
    vstd::arithmetic::div_mod::lemma_div_multiples_vanish(1_000_000, d);
    assert(d * 1_000_000 == 1_000_000 * d);
    if sensible(budget, period, deadline) {
        assert(x / d <= 1_000_000) by (nonlinear_arith)
            requires
                x <= d * 1_000_000,
                d > 0,
        ;
        assert(x / d >= 0) by (nonlinear_arith)
            requires
                x >= 0,
                d > 0,
        ;
    }
}

} // verus!
