//! Governance arithmetic: the vote the proposal gauges cast, and the
//! voting power curve of the voting escrow (lock coefficient and linear
//! decay).
use vstd::prelude::*;
use crate::decimal::{frac, max_u128, ratio, lemma_ratio_floor, lemma_ratio_monotone, BasicPoints, Decimal};
use crate::error::{generic_msg, StdError};

verus! {

/// Seconds in a week, the length of a governance period.
pub const WEEK: u64 = 604800;

/// The longest lock: two years.
pub const MAX_LOCK_TIME: u64 = 63072000;

/// The number of whole periods in `interval` seconds.
pub fn get_periods_count(interval: u64) -> (r: u64)
    ensures
        r == interval / WEEK,
{
    interval / WEEK
}

/// The lock coefficient of a lock of `interval` periods: 2 for none, 10 for
/// the longest lock (104 periods), linear in between and beyond.
pub open spec fn spec_coefficient(interval: int) -> int {
    2 * frac() + ratio(80 * interval, frac(), 1040)
}

/// The coefficient a lock of `interval` periods is boosted by.
pub fn calc_coefficient(interval: u64) -> (r: Decimal)
    requires
        80 * interval <= 18446744073709551615,
    ensures
        r.val() == spec_coefficient(interval as int),
{
    let periods = get_periods_count(MAX_LOCK_TIME);
    assert(periods == 104);
    let scaled = 80u64 * interval;
    proof {
        lemma_ratio_monotone(scaled as int, 18446744073709551615, frac(), frac(), 1040);
        assert(ratio(18446744073709551615, frac(), 1040) <= 18446744073709551615 * frac());
    }
    let base = Decimal::from_ratio(2, 1);
    base.add(Decimal::from_ratio(scaled as u128, (periods * 10) as u128))
}

/// The coefficient grows with the lock, from 2 without a lock to 10 at the
/// longest lock.
pub proof fn law_coefficient_range(a: u64, b: u64)
    requires
        a <= b,
    ensures
        spec_coefficient(0) == 2 * frac(),
        spec_coefficient(104) == 10 * frac(),
        spec_coefficient(a as int) <= spec_coefficient(b as int),
{
    lemma_ratio_monotone(80 * a, 80 * b, frac(), frac(), 1040);
    assert(ratio(0, frac(), 1040) == 0);
    assert(80 * 104 * frac() == 8 * frac() * 1040);
    vstd::arithmetic::div_mod::lemma_div_multiples_vanish(8 * frac(), 1040);
    assert(8 * frac() * 1040 == 1040 * (8 * frac()));
}

/// Rounds a decaying voting power down to a whole slope: the slope is the
/// loss per second over `dt` seconds down to `end_vp`, and the voting power
/// becomes `slope * dt + end_vp`. Fails where the end lies above the voting
/// power, or where `dt` is zero.
pub fn adjust_vp_and_slope(vp: &mut u128, dt: u64, end_vp: u128) -> (r: Result<u128, StdError>)
    ensures
        end_vp > *old(vp) ==> r == Err::<u128, StdError>(StdError::Overflow) && *final(vp) == *old(vp),
        end_vp <= *old(vp) && dt == 0 ==> r == Err::<u128, StdError>(StdError::DivideByZero) && *final(vp) == *old(vp),
        end_vp <= *old(vp) && dt > 0 ==> (r matches Ok(slope) && slope == (*old(vp) - end_vp) / (dt as int) && *final(vp) == slope * dt + end_vp),
{
    if end_vp > *vp {
        return Err(StdError::Overflow);
    }
    if dt == 0 {
        return Err(StdError::DivideByZero);
    }
    let diff = *vp - end_vp;
    let slope = diff / (dt as u128);
    proof {
        lemma_ratio_floor(diff as int, 1, dt as int);
    }
    *vp = slope * (dt as u128) + end_vp;
    Ok(slope)
}

/// Rounding to the slope never raises the voting power and loses less than
/// one unit per second of `dt`.
pub proof fn law_adjust_vp_loss(vp: u128, dt: u64, end_vp: u128)
    requires
        end_vp <= vp,
        dt > 0,
    ensures
        ({
            let slope = (vp - end_vp) / (dt as int);
            let new_vp = slope * dt + end_vp;
            &&& new_vp <= vp
            &&& vp - new_vp < dt
        }),
{
    let x = vp - end_vp;
    let d = dt as int;
    vstd::arithmetic::div_mod::lemma_fundamental_div_mod(x, d);
    vstd::arithmetic::div_mod::lemma_mod_bound(x, d);
    let q = x / d;
    assert(q * d <= x && x - q * d < d) by (nonlinear_arith)
        requires
            x == d * q + x % d,
            0 <= x % d < d,
    ;
}

/// A governance vote.
#[derive(Clone, Copy, Debug, PartialEq, Eq, Structural)]
pub enum VoteOption {
    Yes,
    No,
    Abstain,
    NoWithVeto,
}

/// A proposal as the gauges tracked it: the voting power on each option.
#[derive(Clone, Copy, Debug, PartialEq, Eq, Structural)]
pub struct PropInfo {
    pub period: u64,
    pub end_time_s: u64,
    pub yes_vp: u128,
    pub no_vp: u128,
    pub abstain_vp: u128,
    pub nwv_vp: u128,
    pub current_vote: Option<VoteOption>,
}

/// The option with the most voting power; ties go to yes, then no, then
/// no with veto, then abstain.
pub open spec fn spec_leading_vote(p: PropInfo) -> VoteOption {
    if p.yes_vp >= p.no_vp && p.yes_vp >= p.abstain_vp && p.yes_vp >= p.nwv_vp {
        VoteOption::Yes
    } else if p.no_vp >= p.abstain_vp && p.no_vp >= p.nwv_vp {
        VoteOption::No
    } else if p.nwv_vp >= p.abstain_vp {
        VoteOption::NoWithVeto
    } else {
        VoteOption::Abstain
    }
}

/// All voting power cast on the proposal.
pub open spec fn spec_voted(p: PropInfo) -> int {
    p.yes_vp + p.no_vp + p.abstain_vp + p.nwv_vp
}

/// The voting power on an option.
pub open spec fn vp_of(p: PropInfo, v: VoteOption) -> int {
    match v {
        VoteOption::Yes => p.yes_vp as int,
        VoteOption::No => p.no_vp as int,
        VoteOption::Abstain => p.abstain_vp as int,
        VoteOption::NoWithVeto => p.nwv_vp as int,
    }
}

impl PropInfo {
    /// The vote the contract casts: none while the power cast stays below
    /// the quorum (in basis points) of `total_vp`, else the leading option.
    pub fn get_wanted_vote(&self, total_vp: u128, quorum: u16) -> (r: Result<Option<VoteOption>, StdError>)
        requires
            spec_voted(*self) <= max_u128(),
            total_vp > 0,
            ratio(spec_voted(*self), frac(), total_vp as int) <= max_u128(),
        ensures
            quorum > 10000 ==> generic_msg(r) == Some("Basic points conversion error"@),
            quorum <= 10000 ==> r == Ok::<Option<VoteOption>, StdError>(if ratio(spec_voted(*self), frac(), total_vp as int) < quorum * 100_000_000_000_000 {
                None::<VoteOption>
            } else {
                Some(spec_leading_vote(*self))
            }),
    {
        let current = self.yes_vp + self.no_vp + self.abstain_vp + self.nwv_vp;
        let voted = Decimal::from_ratio(current, total_vp);
        let quorum = match BasicPoints::try_from(quorum) {
            Ok(b) => b.decimal(),
            Err(e) => return Err(e),
        };
        let result = if voted.lt(&quorum) {
            None
        } else if self.yes_vp >= self.no_vp && self.yes_vp >= self.abstain_vp && self.yes_vp >= self.nwv_vp {
            Some(VoteOption::Yes)
        } else if self.no_vp >= self.abstain_vp && self.no_vp >= self.nwv_vp {
            Some(VoteOption::No)
        } else if self.nwv_vp >= self.abstain_vp {
            Some(VoteOption::NoWithVeto)
        } else {
            Some(VoteOption::Abstain)
        };
        Ok(result)
    }
}

/// The vote cast is always an option with the most voting power.
pub proof fn law_wanted_vote_is_leading(p: PropInfo)
    ensures
        forall|v: VoteOption| vp_of(p, spec_leading_vote(p)) >= #[trigger] vp_of(p, v),
{
}

/// The configuration of the proposal gauges as far as access goes.
#[derive(Debug, PartialEq, Eq)]
pub struct PropGaugesConfig {
    pub owner: String,
    pub escrow_addr: String,
    pub hub_addr: String,
    pub quorum_bps: u16,
}

impl PropGaugesConfig {
    /// Only the owner passes.
    pub fn assert_owner(&self, addr: &String) -> (r: Result<(), StdError>)
        ensures
            r is Ok <==> addr@ == self.owner@,
            r is Err ==> generic_msg(r) == Some("unauthorized"@),
    {
        if !addr.eq(&self.owner) {
            return Err(StdError::generic_err("unauthorized"));
        }
        Ok(())
    }

    /// The owner or the contract itself passes.
    pub fn assert_owner_or_self(&self, addr: &String, contract_addr: &String) -> (r: Result<(), StdError>)
        ensures
            r is Ok <==> addr@ == self.owner@ || addr@ == contract_addr@,
            r is Err ==> generic_msg(r) == Some("unauthorized"@),
    {
        if !addr.eq(&self.owner) && !addr.eq(contract_addr) {
            return Err(StdError::generic_err("unauthorized"));
        }
        Ok(())
    }
}

} // verus!
