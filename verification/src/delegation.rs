//! The hub's delegation strategy: how the bonded stake is to be spread over
//! the whitelisted validators, either uniformly or by the votes of the vAMP
//! gauges and the merit points of the EMP gauges.
use vstd::prelude::*;
use crate::decimal::{
    frac, max_u128, ratio, lemma_ratio_floor, lemma_div_le_bound, lemma_ratio_monotone, BasicPoints,
    Decimal,
};
use crate::error::{generic_msg, StdError};

verus! {

/// How delegations are spread over the validators.
#[derive(Clone, Debug, PartialEq, Eq)]
pub enum DelegationStrategy {
    /// All validators receive the same delegation.
    Uniform,
    /// Validators receive delegations by community voting and merit points.
    Gauges {
        /// The vAMP gauges contract.
        amp_gauges: String,
        /// The EMP gauges contract, if merit points count.
        emp_gauges: Option<String>,
        /// Weight of the vAMP gauges against the EMP gauges, in basis points.
        amp_factor_bps: u16,
        /// Share a validator needs to receive a delegation, in basis points.
        min_delegation_bps: u16,
        /// Share a validator receives at most, in basis points.
        max_delegation_bps: u16,
        /// How many validators receive delegations.
        validator_count: u8,
    },
}

/// The wanted distribution of the stake: a share per validator.
#[derive(Debug)]
pub struct WantedDelegationsShare {
    pub tune_time: u64,
    pub tune_period: u64,
    pub shares: Vec<(String, Decimal)>,
}

/// The validators' names.
pub open spec fn names_view(v: Seq<String>) -> Seq<Seq<char>> {
    v.map_values(|s: String| s@)
}

/// Shares as names and atomics.
pub open spec fn shares_view(s: Seq<(String, Decimal)>) -> Seq<(Seq<char>, int)> {
    s.map_values(|e: (String, Decimal)| (e.0@, e.1.val()))
}

/// Points per validator as names and amounts.
pub open spec fn points_view(p: Seq<(String, u128)>) -> Seq<(Seq<char>, u128)> {
    p.map_values(|e: (String, u128)| (e.0@, e.1))
}

/// The uniform share of each of `n` validators.
pub open spec fn spec_uniform_share(n: int) -> int {
    ratio(1, frac(), n)
}

/// Every validator, in order, with the same share `1 / n`.
pub fn uniform_shares(validators: &Vec<String>, tune_time: u64, tune_period: u64) -> (r:
    WantedDelegationsShare)
    requires
        validators@.len() > 0,
    ensures
        r.tune_time == tune_time,
        r.tune_period == tune_period,
        shares_view(r.shares@) == names_view(validators@).map_values(
            |v: Seq<char>| (v, spec_uniform_share(validators@.len() as int)),
        ),
{
    let n = validators.len();
    proof {
        assert(frac() <= max_u128());
        lemma_div_le_bound(1 * frac(), n as int, frac());
        assert(n as int * frac() >= frac()) by (nonlinear_arith)
            requires
                n >= 1,
        ;
    }
    let share = Decimal::from_ratio(1, n as u128);
    let mut shares: Vec<(String, Decimal)> = Vec::new();
    let mut i: usize = 0;
    while i < n
        invariant
            n == validators@.len(),
            i <= n,
            share.val() == spec_uniform_share(n as int),
            shares@.len() == i,
            forall|j: int| 0 <= j < i ==> (#[trigger] shares@[j]).0@ == validators@[j]@ && shares@[j].1 == share,
        decreases n - i,
    {
        let v = validators[i].clone();
        shares.push((v, share));
        i = i + 1;
    }
    proof {
        assert(shares_view(shares@) =~= names_view(validators@).map_values(
            |v: Seq<char>| (v, spec_uniform_share(validators@.len() as int)),
        ));
    }
    WantedDelegationsShare { tune_time, tune_period, shares }
}

/// The sum of the points.
pub open spec fn points_sum(p: Seq<(Seq<char>, u128)>) -> int
    decreases p.len(),
{
    if p.len() == 0 {
        0
    } else {
        points_sum(p.drop_last()) + p.last().1
    }
}

/// The points of `key`: the last entry for it wins, as when the list is
/// collected into a map; no entry counts as zero.
pub open spec fn lookup_points(p: Seq<(Seq<char>, u128)>, key: Seq<char>) -> int
    decreases p.len(),
{
    if p.len() == 0 {
        0
    } else if p.last().0 == key {
        p.last().1 as int
    } else {
        lookup_points(p.drop_last(), key)
    }
}

pub proof fn lemma_lookup_le_sum(p: Seq<(Seq<char>, u128)>, key: Seq<char>)
    ensures
        0 <= lookup_points(p, key) <= points_sum(p),
        points_sum(p) >= 0,
    decreases p.len(),
{
    if p.len() > 0 {
        lemma_lookup_le_sum(p.drop_last(), key);
    }
}

/// The points of the gauges, with their sum.
#[derive(Debug)]
pub struct GaugeContext {
    pub sum: u128,
    pub points: Vec<(String, u128)>,
}

impl GaugeContext {
    /// The sum is the points' sum and not zero.
    pub open spec fn wf(&self) -> bool {
        &&& self.sum as int == points_sum(points_view(self.points@))
        &&& self.sum > 0
    }

    pub open spec fn view_points(&self) -> Seq<(Seq<char>, u128)> {
        points_view(self.points@)
    }

    /// Collects the vAMP points; fails where nobody voted.
    pub fn from_amps(points: Vec<(String, u128)>) -> (r: Result<GaugeContext, StdError>)
        requires
            points_sum(points_view(points@)) <= max_u128(),
        ensures
            r is Ok <==> points_sum(points_view(points@)) > 0,
            r matches Ok(c) ==> c.wf() && c.view_points() == points_view(points@),
            r is Err ==> generic_msg(r) == Some("No vAMP. Vote first before tuning."@),
    {
        let sum = sum_points(&points);
        if sum == 0 {
            return Err(StdError::generic_err("No vAMP. Vote first before tuning."));
        }
        Ok(GaugeContext { sum, points })
    }

    /// Collects the EMP points where EMP gauges are configured; fails where
    /// no merit points were given.
    pub fn from_emps(points: Option<Vec<(String, u128)>>) -> (r: Result<
        Option<GaugeContext>,
        StdError,
    >)
        requires
            points matches Some(p) ==> points_sum(points_view(p@)) <= max_u128(),
        ensures
            points is None ==> r matches Ok(None),
            points matches Some(p) ==> (r is Ok <==> points_sum(points_view(p@)) > 0),
            points matches Some(p) ==> (r matches Ok(Some(c)) && c.wf() && c.view_points() == points_view(p@)) || (r is Err && generic_msg(r) == Some("EMP not tuned."@)),
    {
        match points {
            None => Ok(None),
            Some(p) => {
                let sum = sum_points(&p);
                if sum == 0 {
                    return Err(StdError::generic_err("EMP not tuned."));
                }
                Ok(Some(GaugeContext { sum, points: p }))
            },
        }
    }

    /// The points of `key`.
    pub fn get(&self, key: &String) -> (r: u128)
        ensures
            r == lookup_points(self.view_points(), key@),
    {
        let mut found: u128 = 0;
        let mut i: usize = 0;
        while i < self.points.len()
            invariant
                i <= self.points@.len(),
                found == lookup_points(points_view(self.points@.take(i as int)), key@),
            decreases self.points@.len() - i,
        {
            proof {
                let t = points_view(self.points@.take(i as int + 1));
                assert(t.drop_last() =~= points_view(self.points@.take(i as int)));
                assert(t.last() == (self.points@[i as int].0@, self.points@[i as int].1));
            }
            if self.points[i].0.eq(key) {
                found = self.points[i].1;
            }
            i = i + 1;
        }
        proof {
            assert(self.points@.take(i as int) =~= self.points@);
        }
        found
    }
}

fn sum_points(points: &Vec<(String, u128)>) -> (r: u128)
    requires
        points_sum(points_view(points@)) <= max_u128(),
    ensures
        r == points_sum(points_view(points@)),
{
    let mut sum: u128 = 0;
    let mut i: usize = 0;
    while i < points.len()
        invariant
            i <= points@.len(),
            points_sum(points_view(points@)) <= max_u128(),
            sum == points_sum(points_view(points@.take(i as int))),
        decreases points@.len() - i,
    {
        proof {
            let t = points_view(points@.take(i as int + 1));
            assert(t.drop_last() =~= points_view(points@.take(i as int)));
            lemma_points_sum_prefix(points_view(points@), i as int + 1);
            assert(points_view(points@).take(i as int + 1) =~= t);
        }
        sum = sum + points[i].1;
        i = i + 1;
    }
    proof {
        assert(points@.take(i as int) =~= points@);
    }
    sum
}

/// A prefix of non-negative points sums to at most the whole.
pub proof fn lemma_points_sum_prefix(p: Seq<(Seq<char>, u128)>, k: int)
    requires
        0 <= k <= p.len(),
    ensures
        0 <= points_sum(p.take(k)) <= points_sum(p),
    decreases p.len(),
{
    if k < p.len() {
        lemma_points_sum_prefix(p.drop_last(), k);
        assert(p.drop_last().take(k) =~= p.take(k));
        lemma_lookup_le_sum(p.drop_last(), seq![]);
    } else {
        assert(p.take(k) =~= p);
        lemma_lookup_le_sum(p, seq![]);
    }
}

/// The decimals of a gauge strategy.
#[derive(Clone, Copy, Debug)]
pub struct GaugeFactors {
    pub min_delegation: Decimal,
    pub max_delegation: Decimal,
    pub vamp_factor: Decimal,
    pub emp_factor: Decimal,
}

impl GaugeFactors {
    /// Every factor is at most one, and the two gauge weights sum to one.
    pub open spec fn wf(&self) -> bool {
        &&& self.min_delegation.val() <= frac()
        &&& self.max_delegation.val() <= frac()
        &&& self.vamp_factor.val() <= frac()
        &&& self.emp_factor.val() == frac() - self.vamp_factor.val()
    }
}

/// The decimal of `bps` basis points.
pub open spec fn bps_decimal(bps: int) -> int {
    bps * 100_000_000_000_000
}

/// Turns the basis points of a gauge strategy into decimals: the minimum
/// and maximum share and the weights of the two gauges. Each must be at
/// most 10 000, checked in the order minimum, maximum, vAMP weight.
pub fn gauge_factors(amp_factor_bps: u16, min_delegation_bps: u16, max_delegation_bps: u16) -> (r:
    Result<GaugeFactors, StdError>)
    ensures
        r is Ok <==> amp_factor_bps <= 10000 && min_delegation_bps <= 10000 && max_delegation_bps
            <= 10000,
        r is Err ==> generic_msg(r) == Some("Basic points conversion error"@),
        r matches Ok(f) ==> f.wf() && f.min_delegation.val() == bps_decimal(min_delegation_bps as int)
            && f.max_delegation.val() == bps_decimal(max_delegation_bps as int)
            && f.vamp_factor.val() == bps_decimal(amp_factor_bps as int),
{
    let min_delegation = match BasicPoints::try_from(min_delegation_bps) {
        Ok(b) => b.decimal(),
        Err(e) => return Err(e),
    };
    let max_delegation = match BasicPoints::try_from(max_delegation_bps) {
        Ok(b) => b.decimal(),
        Err(e) => return Err(e),
    };
    let vamp_factor = match BasicPoints::try_from(amp_factor_bps) {
        Ok(b) => b.decimal(),
        Err(e) => return Err(e),
    };
    let emp_factor = match Decimal::one().checked_sub(vamp_factor) {
        Some(d) => d,
        None => return Err(StdError::Overflow),
    };
    Ok(GaugeFactors { min_delegation, max_delegation, vamp_factor, emp_factor })
}

/// The share a validator earns from the gauges: its share of the vAMP
/// points, or, with EMP gauges, the weighted sum of its vAMP and EMP shares.
pub open spec fn spec_total_share(
    val: Seq<char>,
    vamp: Seq<(Seq<char>, u128)>,
    vamp_sum: int,
    emp: Option<(Seq<(Seq<char>, u128)>, int)>,
    vamp_factor: int,
    emp_factor: int,
) -> int {
    let vamp_share = ratio(lookup_points(vamp, val), frac(), vamp_sum);
    match emp {
        Some(e) => ratio(vamp_factor, vamp_share, frac()) + ratio(
            emp_factor,
            ratio(lookup_points(e.0, val), frac(), e.1),
            frac(),
        ),
        None => vamp_share,
    }
}

/// The vAMP factor weighs a validator's vAMP share and the EMP factor its
/// EMP share: with the whole weight on the vAMP gauges its total share is
/// its share of the vAMP points, with none on them its share of the EMP
/// points; without EMP gauges it is its share of the vAMP points.
pub proof fn law_total_share_weights(
    val: Seq<char>,
    vamp: Seq<(Seq<char>, u128)>,
    vamp_sum: int,
    emp: (Seq<(Seq<char>, u128)>, int),
    vf: int,
    ef: int,
)
    requires
        vamp_sum > 0,
        emp.1 > 0,
    ensures
        spec_total_share(val, vamp, vamp_sum, Some(emp), frac(), 0)
            == lookup_points(vamp, val) * frac() / vamp_sum,
        spec_total_share(val, vamp, vamp_sum, Some(emp), 0, frac())
            == lookup_points(emp.0, val) * frac() / emp.1,
        spec_total_share(val, vamp, vamp_sum, None, vf, ef)
            == lookup_points(vamp, val) * frac() / vamp_sum,
{
    let vs = lookup_points(vamp, val) * frac() / vamp_sum;
    let es = lookup_points(emp.0, val) * frac() / emp.1;
    vstd::arithmetic::div_mod::lemma_div_multiples_vanish(vs, frac());
    vstd::arithmetic::div_mod::lemma_div_multiples_vanish(es, frac());
    assert(frac() * vs == vs * frac()) by (nonlinear_arith);
    assert(frac() * es == es * frac()) by (nonlinear_arith);
    assert(0 * es == 0 && 0 * vs == 0);
    assert(es * 0 == 0 && vs * 0 == 0);
}

/// With EMP gauges, a validator's total share is the vAMP factor times its
/// share of the vAMP points plus the EMP factor times its share of the EMP
/// points, each product rounded down to 18 digits: times one unit, the total
/// share is at most that weighted sum and less than two units below it.
pub proof fn law_total_share_weighted(
    val: Seq<char>,
    vamp: Seq<(Seq<char>, u128)>,
    vamp_sum: int,
    emp: (Seq<(Seq<char>, u128)>, int),
    vf: int,
    ef: int,
)
    requires
        vamp_sum > 0,
        emp.1 > 0,
        vf >= 0,
        ef >= 0,
    ensures
        frac() * spec_total_share(val, vamp, vamp_sum, Some(emp), vf, ef)
            <= vf * (lookup_points(vamp, val) * frac() / vamp_sum)
            + ef * (lookup_points(emp.0, val) * frac() / emp.1),
        vf * (lookup_points(vamp, val) * frac() / vamp_sum)
            + ef * (lookup_points(emp.0, val) * frac() / emp.1)
            < frac() * spec_total_share(val, vamp, vamp_sum, Some(emp), vf, ef) + 2 * frac(),
{
    lemma_lookup_le_sum(vamp, val);
    lemma_lookup_le_sum(emp.0, val);
    lemma_ratio_floor(lookup_points(vamp, val), frac(), vamp_sum);
    lemma_ratio_floor(lookup_points(emp.0, val), frac(), emp.1);
    let vs = lookup_points(vamp, val) * frac() / vamp_sum;
    let es = lookup_points(emp.0, val) * frac() / emp.1;
    lemma_ratio_floor(vf, vs, frac());
    lemma_ratio_floor(ef, es, frac());
    let a = ratio(vf, vs, frac());
    let b = ratio(ef, es, frac());
    assert(spec_total_share(val, vamp, vamp_sum, Some(emp), vf, ef) == a + b);
    assert(frac() * (a + b) == a * frac() + b * frac()) by (nonlinear_arith);
    assert((a + 1) * frac() + (b + 1) * frac() == frac() * (a + b) + 2 * frac()) by (nonlinear_arith);
}

/// With EMP gauges and the weights split between the two gauges, moving
/// weight onto the vAMP gauges never lowers the total share of a validator
/// whose vAMP share is at least its EMP share, but for one unit of rounding.
pub proof fn law_total_share_grows_with_vamp_factor(
    val: Seq<char>,
    vamp: Seq<(Seq<char>, u128)>,
    vamp_sum: int,
    emp: (Seq<(Seq<char>, u128)>, int),
    vf1: int,
    vf2: int,
)
    requires
        vamp_sum > 0,
        emp.1 > 0,
        0 <= vf1 <= vf2 <= frac(),
        lookup_points(vamp, val) * frac() / vamp_sum >= lookup_points(emp.0, val) * frac() / emp.1,
    ensures
        spec_total_share(val, vamp, vamp_sum, Some(emp), vf1, frac() - vf1)
            <= spec_total_share(val, vamp, vamp_sum, Some(emp), vf2, frac() - vf2) + 1,
{
    law_total_share_weighted(val, vamp, vamp_sum, emp, vf1, frac() - vf1);
    law_total_share_weighted(val, vamp, vamp_sum, emp, vf2, frac() - vf2);
    let vs = lookup_points(vamp, val) * frac() / vamp_sum;
    let es = lookup_points(emp.0, val) * frac() / emp.1;
    let t1 = spec_total_share(val, vamp, vamp_sum, Some(emp), vf1, frac() - vf1);
    let t2 = spec_total_share(val, vamp, vamp_sum, Some(emp), vf2, frac() - vf2);
    assert(vf1 * vs + (frac() - vf1) * es <= vf2 * vs + (frac() - vf2) * es) by (nonlinear_arith)
        requires
            vf1 <= vf2,
            vs >= es,
    ;
    assert(frac() * t1 < frac() * (t2 + 2)) by (nonlinear_arith)
        requires
            frac() * t1 <= vf1 * vs + (frac() - vf1) * es,
            vf1 * vs + (frac() - vf1) * es <= vf2 * vs + (frac() - vf2) * es,
            vf2 * vs + (frac() - vf2) * es < frac() * t2 + 2 * frac(),
    ;
    assert(t1 < t2 + 2) by (nonlinear_arith)
        requires
            frac() * t1 < frac() * (t2 + 2),
            frac() > 0,
    ;
}

/// A validator with its capped score and its uncapped total share.
#[derive(Debug)]
pub struct ScoredValidator {
    pub validator: String,
    pub score: Decimal,
    pub total_share: Decimal,
}

impl ScoredValidator {
    pub open spec fn view(&self) -> (Seq<char>, int, int) {
        (self.validator@, self.score.val(), self.total_share.val())
    }

    fn duplicate(&self) -> (r: ScoredValidator)
        ensures
            r.view() == self.view(),
    {
        ScoredValidator {
            validator: self.validator.clone(),
            score: self.score,
            total_share: self.total_share,
        }
    }
}

/// Scored validators as names and atomics.
pub open spec fn scored_view(s: Seq<ScoredValidator>) -> Seq<(Seq<char>, int, int)> {
    s.map_values(|e: ScoredValidator| e.view())
}

/// The EMP context as names, amounts and sum.
pub open spec fn emp_view(emp: Option<GaugeContext>) -> Option<(Seq<(Seq<char>, u128)>, int)> {
    match emp {
        Some(c) => Some((c.view_points(), c.sum as int)),
        None => None,
    }
}

/// Each validator with its score, the total share capped at the maximum,
/// and the total share.
pub open spec fn spec_scored(
    vals: Seq<Seq<char>>,
    vamp: Seq<(Seq<char>, u128)>,
    vamp_sum: int,
    emp: Option<(Seq<(Seq<char>, u128)>, int)>,
    f: GaugeFactors,
) -> Seq<(Seq<char>, int, int)> {
    vals.map_values(|v: Seq<char>| spec_score_entry(v, vamp, vamp_sum, emp, f))
}

/// A validator with its score and total share.
pub open spec fn spec_score_entry(
    v: Seq<char>,
    vamp: Seq<(Seq<char>, u128)>,
    vamp_sum: int,
    emp: Option<(Seq<(Seq<char>, u128)>, int)>,
    f: GaugeFactors,
) -> (Seq<char>, int, int) {
    let t = spec_total_share(v, vamp, vamp_sum, emp, f.vamp_factor.val(), f.emp_factor.val());
    (v, if t <= f.max_delegation.val() { t } else { f.max_delegation.val() }, t)
}

proof fn lemma_total_share_bound(
    val: Seq<char>,
    vamp: Seq<(Seq<char>, u128)>,
    vamp_sum: int,
    emp: Option<(Seq<(Seq<char>, u128)>, int)>,
    vf: int,
    ef: int,
)
    requires
        vamp_sum == points_sum(vamp),
        vamp_sum > 0,
        emp matches Some(e) ==> e.1 == points_sum(e.0) && e.1 > 0,
        0 <= vf <= frac(),
        0 <= ef <= frac(),
    ensures
        0 <= ratio(lookup_points(vamp, val), frac(), vamp_sum) <= frac(),
        emp matches Some(e) ==> 0 <= ratio(lookup_points(e.0, val), frac(), e.1) <= frac(),
        0 <= spec_total_share(val, vamp, vamp_sum, emp, vf, ef) <= 2 * frac(),
{
    lemma_share_bound(vamp, val, vamp_sum);
    let vs = ratio(lookup_points(vamp, val), frac(), vamp_sum);
    if let Some(e) = emp {
        lemma_share_bound(e.0, val, e.1);
        let es = ratio(lookup_points(e.0, val), frac(), e.1);
        lemma_ratio_monotone(vf, frac(), vs, frac(), frac());
        lemma_ratio_monotone(ef, frac(), es, frac(), frac());
        lemma_ratio_floor(vf, vs, frac());
        lemma_ratio_floor(ef, es, frac());
        vstd::arithmetic::div_mod::lemma_div_multiples_vanish(frac(), frac());
    }
}

proof fn lemma_share_bound(p: Seq<(Seq<char>, u128)>, val: Seq<char>, sum: int)
    requires
        sum == points_sum(p),
        sum > 0,
    ensures
        0 <= ratio(lookup_points(p, val), frac(), sum) <= frac(),
{
    lemma_lookup_le_sum(p, val);
    let l = lookup_points(p, val);
    assert(l * frac() <= sum * frac()) by (nonlinear_arith)
        requires
            0 <= l <= sum,
    ;
    lemma_div_le_bound(l * frac(), sum, frac());
    lemma_ratio_floor(l, frac(), sum);
}

/// Scores every validator.
pub fn score_validators(
    validators: &Vec<String>,
    vamp: &GaugeContext,
    emp: &Option<GaugeContext>,
    f: &GaugeFactors,
) -> (r: Result<Vec<ScoredValidator>, StdError>)
    requires
        vamp.wf(),
        emp matches Some(c) ==> c.wf(),
        f.wf(),
    ensures
        r matches Ok(s) && scored_view(s@) == spec_scored(
            names_view(validators@),
            vamp.view_points(),
            vamp.sum as int,
            emp_view(*emp),
            *f,
        ),
{
    let mut out: Vec<ScoredValidator> = Vec::new();
    let mut i: usize = 0;
    while i < validators.len()
        invariant
            i <= validators@.len(),
            vamp.wf(),
            emp matches Some(c) ==> c.wf(),
            f.wf(),
            out@.len() == i,
            forall|j: int| 0 <= j < i ==> (#[trigger] out@[j]).view() == spec_score_entry(
                validators@[j]@,
                vamp.view_points(),
                vamp.sum as int,
                emp_view(*emp),
                *f,
            ),
        decreases validators@.len() - i,
    {
        let val = &validators[i];
        proof {
            lemma_total_share_bound(
                val@,
                vamp.view_points(),
                vamp.sum as int,
                emp_view(*emp),
                f.vamp_factor.val(),
                f.emp_factor.val(),
            );
        }
        let vamp_points = vamp.get(val);
        let vamp_share = Decimal::from_ratio(vamp_points, vamp.sum);
        let total_share = match emp {
            Some(emp_context) => {
                let weighted_vamp = match f.vamp_factor.checked_mul(vamp_share) {
                    Some(d) => d,
                    None => return Err(StdError::Overflow),
                };
                let emp_points = emp_context.get(val);
                let emp_share = Decimal::from_ratio(emp_points, emp_context.sum);
                let weighted_emp = match f.emp_factor.checked_mul(emp_share) {
                    Some(d) => d,
                    None => return Err(StdError::Overflow),
                };
                match weighted_vamp.checked_add(weighted_emp) {
                    Some(d) => d,
                    None => return Err(StdError::Overflow),
                }
            },
            None => vamp_share,
        };
        let score = total_share.min(f.max_delegation);
        out.push(ScoredValidator { validator: val.clone(), score, total_share });
        i = i + 1;
    }
    proof {
        assert(scored_view(out@) =~= spec_scored(
            names_view(validators@),
            vamp.view_points(),
            vamp.sum as int,
            emp_view(*emp),
            *f,
        ));
    }
    Ok(out)
}

/// The entries whose score is above `min`, in order.
pub open spec fn spec_filter_above(s: Seq<(Seq<char>, int, int)>, min: int) -> Seq<(Seq<char>, int, int)>
    decreases s.len(),
{
    if s.len() == 0 {
        s
    } else {
        let p = spec_filter_above(s.drop_last(), min);
        if s.last().1 > min {
            p.push(s.last())
        } else {
            p
        }
    }
}

/// Keeps the validators whose score is above `min`.
pub fn filter_above(entries: &Vec<ScoredValidator>, min: Decimal) -> (r: Vec<ScoredValidator>)
    ensures
        scored_view(r@) == spec_filter_above(scored_view(entries@), min.val()),
{
    let mut out: Vec<ScoredValidator> = Vec::new();
    let mut i: usize = 0;
    while i < entries.len()
        invariant
            i <= entries@.len(),
            scored_view(out@) == spec_filter_above(scored_view(entries@.take(i as int)), min.val()),
        decreases entries@.len() - i,
    {
        let ghost prev = out@;
        proof {
            let t = scored_view(entries@.take(i as int + 1));
            assert(t.drop_last() =~= scored_view(entries@.take(i as int)));
            assert(t.last() == entries@[i as int].view());
        }
        if min.lt(&entries[i].score) {
            out.push(entries[i].duplicate());
            proof {
                assert(scored_view(out@) =~= scored_view(prev).push(entries@[i as int].view()));
            }
        }
        i = i + 1;
    }
    proof {
        assert(entries@.take(i as int) =~= entries@);
    }
    out
}

/// Where `x` goes into a list ordered by descending total share: after every
/// entry whose total share is at least that of `x`.
pub open spec fn insert_pos(s: Seq<(Seq<char>, int, int)>, x: (Seq<char>, int, int)) -> int
    decreases s.len(),
{
    if s.len() == 0 {
        0
    } else if s[0].2 < x.2 {
        0
    } else {
        1 + insert_pos(s.drop_first(), x)
    }
}

/// The list sorted by descending total share, ties in the order they came
/// in: a stable sort.
pub open spec fn sort_desc(s: Seq<(Seq<char>, int, int)>) -> Seq<(Seq<char>, int, int)>
    decreases s.len(),
{
    if s.len() == 0 {
        s
    } else {
        let p = sort_desc(s.drop_last());
        p.insert(insert_pos(p, s.last()), s.last())
    }
}

proof fn lemma_insert_pos(s: Seq<(Seq<char>, int, int)>, x: (Seq<char>, int, int), p: int)
    requires
        0 <= p <= s.len(),
        forall|j: int| 0 <= j < p ==> (#[trigger] s[j]).2 >= x.2,
        p < s.len() ==> s[p].2 < x.2,
    ensures
        insert_pos(s, x) == p,
    decreases s.len(),
{
    if s.len() > 0 && p > 0 {
        assert forall|j: int| 0 <= j < p - 1 implies (#[trigger] s.drop_first()[j]).2 >= x.2 by {
            assert(s.drop_first()[j] == s[j + 1]);
        }
        lemma_insert_pos(s.drop_first(), x, p - 1);
    }
}

/// Sorts the validators by descending total share, keeping the order of
/// equal ones.
pub fn sort_by_total_share_desc(entries: &Vec<ScoredValidator>) -> (r: Vec<ScoredValidator>)
    ensures
        scored_view(r@) == sort_desc(scored_view(entries@)),
        scored_view(r@).to_multiset() == scored_view(entries@).to_multiset(),
        forall|i: int, j: int| 0 <= i < j < r@.len() ==> scored_view(r@)[i].2 >= scored_view(r@)[j].2,
{
    let mut sorted: Vec<ScoredValidator> = Vec::new();
    let mut i: usize = 0;
    while i < entries.len()
        invariant
            i <= entries@.len(),
            scored_view(sorted@) == sort_desc(scored_view(entries@.take(i as int))),
        decreases entries@.len() - i,
    {
        let x = entries[i].duplicate();
        let mut p: usize = 0;
        while p < sorted.len() && !sorted[p].total_share.lt(&x.total_share)
            invariant
                p <= sorted@.len(),
                forall|j: int| 0 <= j < p ==> (#[trigger] scored_view(sorted@)[j]).2 >= x.view().2,
            decreases sorted@.len() - p,
        {
            p = p + 1;
        }
        proof {
            lemma_insert_pos(scored_view(sorted@), x.view(), p as int);
            let t = scored_view(entries@.take(i as int + 1));
            assert(t.drop_last() =~= scored_view(entries@.take(i as int)));
            assert(t.last() == entries@[i as int].view());
        }
        let ghost prev = sorted@;
        sorted.insert(p, x);
        proof {
            assert(scored_view(sorted@) =~= scored_view(prev).insert(p as int, x.view()));
        }
        i = i + 1;
    }
    proof {
        assert(entries@.take(i as int) =~= entries@);
        law_sort_ordered(scored_view(entries@));
        law_sort_is_permutation(scored_view(entries@));
    }
    sorted
}

/// The first `count` entries, or all of them where there are fewer.
pub open spec fn take_at_most(s: Seq<(Seq<char>, int, int)>, count: int) -> Seq<(Seq<char>, int, int)> {
    if count < s.len() {
        s.take(count)
    } else {
        s
    }
}

/// The sum of the scores.
pub open spec fn score_sum(s: Seq<(Seq<char>, int, int)>) -> int
    decreases s.len(),
{
    if s.len() == 0 {
        0
    } else {
        score_sum(s.drop_last()) + s.last().1
    }
}

/// Each score as its share of the sum of the scores.
pub open spec fn spec_normalize(s: Seq<(Seq<char>, int, int)>) -> Seq<(Seq<char>, int)> {
    s.map_values(|e: (Seq<char>, int, int)| (e.0, ratio(e.1, frac(), score_sum(s))))
}

/// The wanted shares of a gauge strategy: the validators scored, those
/// above the minimum kept, sorted by descending total share, the first
/// `count` taken, and their scores normalised to sum to one.
pub open spec fn spec_gauge_shares(
    vals: Seq<Seq<char>>,
    vamp: Seq<(Seq<char>, u128)>,
    vamp_sum: int,
    emp: Option<(Seq<(Seq<char>, u128)>, int)>,
    f: GaugeFactors,
    count: int,
) -> Seq<(Seq<char>, int)> {
    spec_normalize(
        take_at_most(
            sort_desc(spec_filter_above(spec_scored(vals, vamp, vamp_sum, emp, f), f.min_delegation.val())),
            count,
        ),
    )
}

/// What holds of every entry holds of every entry the filter keeps, and
/// those have a score above `min`.
pub proof fn lemma_filter_forall(s: Seq<(Seq<char>, int, int)>, min: int, pred: spec_fn((Seq<char>, int, int)) -> bool)
    requires
        forall|j: int| 0 <= j < s.len() ==> pred(#[trigger] s[j]),
    ensures
        forall|j: int| 0 <= j < spec_filter_above(s, min).len() ==> pred(#[trigger] spec_filter_above(s, min)[j]) && spec_filter_above(s, min)[j].1 > min,
        spec_filter_above(s, min).len() <= s.len(),
    decreases s.len(),
{
    if s.len() > 0 {
        lemma_filter_forall(s.drop_last(), min, pred);
        assert(pred(s[s.len() - 1]));
    }
}

/// Inserting keeps what holds of every entry.
proof fn lemma_insert_forall(s: Seq<(Seq<char>, int, int)>, x: (Seq<char>, int, int), pred: spec_fn((Seq<char>, int, int)) -> bool)
    requires
        forall|j: int| 0 <= j < s.len() ==> pred(#[trigger] s[j]),
        pred(x),
        0 <= insert_pos(s, x) <= s.len(),
    ensures
        forall|j: int| 0 <= j < s.insert(insert_pos(s, x), x).len() ==> pred(#[trigger] s.insert(insert_pos(s, x), x)[j]),
{
    let t = s.insert(insert_pos(s, x), x);
    assert forall|j: int| 0 <= j < t.len() implies pred(#[trigger] t[j]) by {
        let p = insert_pos(s, x);
        if j < p {
            assert(t[j] == s[j]);
        } else if j == p {
            assert(t[j] == x);
        } else {
            assert(t[j] == s[j - 1]);
        }
    }
}

proof fn lemma_insert_pos_bound(s: Seq<(Seq<char>, int, int)>, x: (Seq<char>, int, int))
    ensures
        0 <= insert_pos(s, x) <= s.len(),
    decreases s.len(),
{
    if s.len() > 0 {
        lemma_insert_pos_bound(s.drop_first(), x);
    }
}

/// Sorting keeps the length and what holds of every entry.
pub proof fn lemma_sort_forall(s: Seq<(Seq<char>, int, int)>, pred: spec_fn((Seq<char>, int, int)) -> bool)
    requires
        forall|j: int| 0 <= j < s.len() ==> pred(#[trigger] s[j]),
    ensures
        sort_desc(s).len() == s.len(),
        forall|j: int| 0 <= j < sort_desc(s).len() ==> pred(#[trigger] sort_desc(s)[j]),
    decreases s.len(),
{
    if s.len() > 0 {
        lemma_sort_forall(s.drop_last(), pred);
        let p = sort_desc(s.drop_last());
        lemma_insert_pos_bound(p, s.last());
        assert(pred(s[s.len() - 1]));
        lemma_insert_forall(p, s.last(), pred);
    }
}

/// Scores are non-negative and at most the maximum.
proof fn lemma_scored_bounds(
    vals: Seq<Seq<char>>,
    vamp: Seq<(Seq<char>, u128)>,
    vamp_sum: int,
    emp: Option<(Seq<(Seq<char>, u128)>, int)>,
    f: GaugeFactors,
)
    requires
        vamp_sum == points_sum(vamp),
        vamp_sum > 0,
        emp matches Some(e) ==> e.1 == points_sum(e.0) && e.1 > 0,
        f.wf(),
    ensures
        forall|j: int| 0 <= j < spec_scored(vals, vamp, vamp_sum, emp, f).len() ==> score_in(#[trigger] spec_scored(vals, vamp, vamp_sum, emp, f)[j], f.max_delegation.val()),
{
    let sc = spec_scored(vals, vamp, vamp_sum, emp, f);
    assert forall|j: int| 0 <= j < sc.len() implies score_in(#[trigger] sc[j], f.max_delegation.val()) by {
        lemma_total_share_bound(vals[j], vamp, vamp_sum, emp, f.vamp_factor.val(), f.emp_factor.val());
    }
}

/// A score between zero and `max`.
pub open spec fn score_in(e: (Seq<char>, int, int), max: int) -> bool {
    0 <= e.1 <= max
}

/// Sums of scores between zero and `max` are at most `max` per entry, and
/// every score is at most the sum.
proof fn lemma_score_sum_bounds(s: Seq<(Seq<char>, int, int)>, max: int)
    requires
        forall|j: int| 0 <= j < s.len() ==> score_in(#[trigger] s[j], max),
    ensures
        0 <= score_sum(s) <= s.len() * max,
        forall|j: int| 0 <= j < s.len() ==> (#[trigger] s[j]).1 <= score_sum(s),
    decreases s.len(),
{
    if s.len() > 0 {
        lemma_score_sum_bounds(s.drop_last(), max);
        assert(score_in(s[s.len() - 1], max));
        assert forall|j: int| 0 <= j < s.len() implies (#[trigger] s[j]).1 <= score_sum(s) by {
            if j < s.len() - 1 {
                assert(s.drop_last()[j] == s[j]);
            }
        }
        assert((s.len() - 1) * max + max == s.len() * max) by (nonlinear_arith);
    }
}

/// The wanted shares of a gauge strategy (see `spec_gauge_shares`), for the
/// validators of the whitelist.
pub fn gauge_shares(
    validators: &Vec<String>,
    vamp: &GaugeContext,
    emp: &Option<GaugeContext>,
    f: &GaugeFactors,
    validator_count: u8,
    tune_time: u64,
    tune_period: u64,
) -> (r: Result<WantedDelegationsShare, StdError>)
    requires
        vamp.wf(),
        emp matches Some(c) ==> c.wf(),
        f.wf(),
    ensures
        r matches Ok(w) && w.tune_time == tune_time && w.tune_period == tune_period
            && shares_view(w.shares@) == spec_gauge_shares(
            names_view(validators@),
            vamp.view_points(),
            vamp.sum as int,
            emp_view(*emp),
            *f,
            validator_count as int,
        ),
{
    let scored = match score_validators(validators, vamp, emp, f) {
        Ok(s) => s,
        Err(e) => return Err(e),
    };
    let filtered = filter_above(&scored, f.min_delegation);
    let mut sorted = sort_by_total_share_desc(&filtered);
    let ghost sc = spec_scored(names_view(validators@), vamp.view_points(), vamp.sum as int, emp_view(*emp), *f);
    let ghost fl = spec_filter_above(sc, f.min_delegation.val());
    let ghost pred = |e: (Seq<char>, int, int)| score_in(e, f.max_delegation.val()) && e.1 > f.min_delegation.val();
    proof {
        lemma_scored_bounds(names_view(validators@), vamp.view_points(), vamp.sum as int, emp_view(*emp), *f);
        lemma_filter_forall(sc, f.min_delegation.val(), |e: (Seq<char>, int, int)| score_in(e, f.max_delegation.val()));
        assert forall|j: int| 0 <= j < fl.len() implies pred(#[trigger] fl[j]) by {}
        lemma_sort_forall(fl, pred);
    }
    let ghost full = scored_view(sorted@);
    sorted.truncate(validator_count as usize);
    let ghost taken = take_at_most(full, validator_count as int);
    proof {
        assert(scored_view(sorted@) =~= taken);
        assert forall|j: int| 0 <= j < taken.len() implies pred(#[trigger] taken[j]) by {
            assert(taken[j] == full[j]);
        }
        assert forall|j: int| 0 <= j < taken.len() implies score_in(#[trigger] taken[j], f.max_delegation.val()) by {
            assert(pred(taken[j]));
        }
        lemma_score_sum_bounds(taken, f.max_delegation.val());
        assert(taken.len() <= 255);
        assert(taken.len() * f.max_delegation.val() <= 255 * frac()) by (nonlinear_arith)
            requires
                taken.len() <= 255,
                0 <= f.max_delegation.val() <= frac(),
        ;
    }
    // the sum of the kept scores
    let mut total = Decimal::zero();
    let mut i: usize = 0;
    while i < sorted.len()
        invariant
            i <= sorted@.len(),
            scored_view(sorted@) == taken,
            forall|j: int| 0 <= j < taken.len() ==> score_in(#[trigger] taken[j], f.max_delegation.val()),
            taken.len() <= 255,
            f.max_delegation.val() <= frac(),
            total.val() == score_sum(taken.take(i as int)),
        decreases sorted@.len() - i,
    {
        proof {
            let t = taken.take(i as int + 1);
            assert(t.drop_last() =~= taken.take(i as int));
            assert(t.last() == taken[i as int]);
            assert forall|j: int| 0 <= j < t.len() implies score_in(#[trigger] t[j], f.max_delegation.val()) by {
                assert(t[j] == taken[j]);
            }
            lemma_score_sum_bounds(t, f.max_delegation.val());
            assert(t.len() * f.max_delegation.val() <= 255 * frac()) by (nonlinear_arith)
                requires
                    t.len() <= 255,
                    0 <= f.max_delegation.val() <= frac(),
            ;
        }
        total = total.add(sorted[i].score);
        i = i + 1;
    }
    proof {
        assert(taken.take(i as int) =~= taken);
    }
    // each score as its share of the sum
    let mut shares: Vec<(String, Decimal)> = Vec::new();
    let mut k: usize = 0;
    while k < sorted.len()
        invariant
            k <= sorted@.len(),
            scored_view(sorted@) == taken,
            forall|j: int| 0 <= j < taken.len() ==> (#[trigger] taken[j]).1 <= score_sum(taken),
            forall|j: int| 0 <= j < taken.len() ==> (#[trigger] taken[j]).1 > f.min_delegation.val() && f.min_delegation.val() >= 0,
            total.val() == score_sum(taken),
            shares@.len() == k,
            forall|j: int| 0 <= j < k ==> (#[trigger] shares@[j]).0@ == taken[j].0 && shares@[j].1.val() == ratio(taken[j].1, frac(), score_sum(taken)),
        decreases sorted@.len() - k,
    {
        proof {
            assert(taken[k as int] == sorted@[k as int].view());
            let sc_k = taken[k as int].1;
            assert(sc_k * frac() <= total.val() * frac()) by (nonlinear_arith)
                requires
                    0 <= sc_k <= total.val(),
            ;
            lemma_div_le_bound(sc_k * frac(), total.val(), frac());
        }
        let normalized = match sorted[k].score.checked_div(total) {
            Some(d) => d,
            None => return Err(StdError::generic_err("Could not divide by total")),
        };
        shares.push((sorted[k].validator.clone(), normalized));
        k = k + 1;
    }
    proof {
        assert(shares_view(shares@) =~= spec_normalize(taken));
    }
    Ok(WantedDelegationsShare { tune_time, tune_period, shares })
}

/// The decimals of a gauge strategy's basis points.
pub open spec fn spec_factors(amp_factor_bps: u16, min_delegation_bps: u16, max_delegation_bps: u16) -> GaugeFactors {
    GaugeFactors {
        min_delegation: Decimal { atomics: bps_decimal(min_delegation_bps as int) as u128 },
        max_delegation: Decimal { atomics: bps_decimal(max_delegation_bps as int) as u128 },
        vamp_factor: Decimal { atomics: bps_decimal(amp_factor_bps as int) as u128 },
        emp_factor: Decimal { atomics: (frac() - bps_decimal(amp_factor_bps as int)) as u128 },
    }
}

/// The wanted delegations of a gauge strategy from the outcomes of the two
/// gauge queries (the EMP query only where EMP gauges are configured). The
/// errors come in the order the strategy is read: basis points (minimum,
/// maximum, vAMP weight), then the vAMP query and its points, then the EMP
/// query and its points. The flag says that the result is to be stored.
pub fn wanted_gauge_delegations(
    validators: &Vec<String>,
    amp_factor_bps: u16,
    min_delegation_bps: u16,
    max_delegation_bps: u16,
    validator_count: u8,
    amp_points: Result<Vec<(String, u128)>, StdError>,
    emp_points: Option<Result<Vec<(String, u128)>, StdError>>,
    tune_time: u64,
    tune_period: u64,
) -> (r: Result<(WantedDelegationsShare, bool), StdError>)
    requires
        amp_points matches Ok(p) ==> points_sum(points_view(p@)) <= max_u128(),
        amp_points matches Ok(ap) ==> (points_sum(points_view(ap@)) > 0 ==> (emp_points matches Some(Ok(p))
            ==> points_sum(points_view(p@)) <= max_u128())),
    ensures
        !(amp_factor_bps <= 10000 && min_delegation_bps <= 10000 && max_delegation_bps <= 10000) ==> generic_msg(r) == Some("Basic points conversion error"@),
        amp_factor_bps <= 10000 && min_delegation_bps <= 10000 && max_delegation_bps <= 10000 ==> match amp_points {
            Err(e) => r == Err::<(WantedDelegationsShare, bool), StdError>(e),
            Ok(ap) => if points_sum(points_view(ap@)) == 0 {
                generic_msg(r) == Some("No vAMP. Vote first before tuning."@)
            } else {
                match emp_points {
                    Some(Err(e)) => r == Err::<(WantedDelegationsShare, bool), StdError>(e),
                    Some(Ok(ep)) => if points_sum(points_view(ep@)) == 0 {
                        generic_msg(r) == Some("EMP not tuned."@)
                    } else {
                        r matches Ok(res) && res.1 && res.0.tune_time == tune_time && res.0.tune_period == tune_period
                            && shares_view(res.0.shares@) == spec_gauge_shares(
                            names_view(validators@),
                            points_view(ap@),
                            points_sum(points_view(ap@)),
                            Some((points_view(ep@), points_sum(points_view(ep@)))),
                            spec_factors(amp_factor_bps, min_delegation_bps, max_delegation_bps),
                            validator_count as int,
                        )
                            && gauge_outcome(names_view(validators@), points_view(ap@), gauge_emp(Some(points_view(ep@))),
                            spec_factors(amp_factor_bps, min_delegation_bps, max_delegation_bps), validator_count as int,
                            shares_view(res.0.shares@))
                    },
                    None => r matches Ok(res) && res.1 && res.0.tune_time == tune_time && res.0.tune_period == tune_period
                        && shares_view(res.0.shares@) == spec_gauge_shares(
                        names_view(validators@),
                        points_view(ap@),
                        points_sum(points_view(ap@)),
                        None,
                        spec_factors(amp_factor_bps, min_delegation_bps, max_delegation_bps),
                        validator_count as int,
                    )
                        && gauge_outcome(names_view(validators@), points_view(ap@), gauge_emp(None),
                        spec_factors(amp_factor_bps, min_delegation_bps, max_delegation_bps), validator_count as int,
                        shares_view(res.0.shares@)),
                }
            },
        },
{
    let f = match gauge_factors(amp_factor_bps, min_delegation_bps, max_delegation_bps) {
        Ok(f) => f,
        Err(e) => return Err(e),
    };
    let ap = match amp_points {
        Ok(p) => p,
        Err(e) => return Err(e),
    };
    let ghost ap_view = points_view(ap@);
    let ghost ev_view: Option<Seq<(Seq<char>, u128)>> = match &emp_points {
        Some(Ok(p)) => Some(points_view(p@)),
        _ => None,
    };
    let vamp = match GaugeContext::from_amps(ap) {
        Ok(c) => c,
        Err(e) => {
            proof {
                lemma_lookup_le_sum(ap_view, seq![]);
            }
            return Err(e);
        },
    };
    let ep = match emp_points {
        None => None,
        Some(Ok(p)) => Some(p),
        Some(Err(e)) => return Err(e),
    };
    proof {
        if ep is Some {
            lemma_lookup_le_sum(points_view(ep->0@), seq![]);
        }
    }
    let emp = match GaugeContext::from_emps(ep) {
        Ok(c) => c,
        Err(e) => return Err(e),
    };
    proof {
        let ev = ev_view;
        assert(f == spec_factors(amp_factor_bps, min_delegation_bps, max_delegation_bps));
        assert(emp_view(emp) == gauge_emp(ev));
        law_gauge_outcome(names_view(validators@), ap_view, ev, f, validator_count);
    }
    match gauge_shares(validators, &vamp, &emp, &f, validator_count, tune_time, tune_period) {
        Ok(w) => Ok((w, true)),
        Err(e) => Err(e),
    }
}

/// The wanted delegations of the uniform strategy; the flag says that the
/// result need not be stored.
pub fn wanted_uniform_delegations(validators: &Vec<String>, tune_time: u64, tune_period: u64) -> (r: (
    WantedDelegationsShare,
    bool,
))
    requires
        validators@.len() > 0,
    ensures
        !r.1,
        r.0.tune_time == tune_time,
        r.0.tune_period == tune_period,
        shares_view(r.0.shares@) == names_view(validators@).map_values(
            |v: Seq<char>| (v, spec_uniform_share(validators@.len() as int)),
        ),
{
    (uniform_shares(validators, tune_time, tune_period), false)
}

/// The sum of the shares.
pub open spec fn share_sum(s: Seq<(Seq<char>, int)>) -> int
    decreases s.len(),
{
    if s.len() == 0 {
        0
    } else {
        share_sum(s.drop_last()) + s.last().1
    }
}

/// Under the uniform strategy every validator receives the same share, and
/// the shares add up to at most one.
pub proof fn law_uniform_shares_even(validators: Seq<Seq<char>>)
    requires
        validators.len() > 0,
    ensures
        ({
            let n = validators.len() as int;
            let shares = validators.map_values(|v: Seq<char>| (v, spec_uniform_share(n)));
            &&& shares.len() == n
            &&& forall|j: int| 0 <= j < n ==> (#[trigger] shares[j]).1 == spec_uniform_share(n)
            &&& n * spec_uniform_share(n) <= frac()
        }),
{
    let n = validators.len() as int;
    lemma_ratio_floor(1, frac(), n);
    assert(spec_uniform_share(n) * n <= frac());
    assert(n * spec_uniform_share(n) == spec_uniform_share(n) * n) by (nonlinear_arith);
}

/// The sort orders the entries by descending total share and keeps their
/// number.
pub proof fn law_sort_ordered(s: Seq<(Seq<char>, int, int)>)
    ensures
        forall|i: int, j: int| 0 <= i < j < sort_desc(s).len() ==> sort_desc(s)[i].2 >= sort_desc(s)[j].2,
        sort_desc(s).len() == s.len(),
    decreases s.len(),
{
    if s.len() > 0 {
        law_sort_ordered(s.drop_last());
        let p = sort_desc(s.drop_last());
        let x = s.last();
        lemma_insert_pos_bound(p, x);
        let q = insert_pos(p, x);
        lemma_insert_pos_facts(p, x);
        let t = p.insert(q, x);
        assert forall|i: int, j: int| 0 <= i < j < t.len() implies t[i].2 >= t[j].2 by {
            if j < q {
                assert(t[i] == p[i] && t[j] == p[j]);
            } else if j == q {
                assert(t[i] == p[i] && t[j] == x);
            } else if i < q {
                assert(t[i] == p[i] && t[j] == p[j - 1]);
            } else if i == q {
                assert(t[i] == x && t[j] == p[j - 1]);
                assert(p[q].2 < x.2);
                assert(p[j - 1].2 <= p[q].2 || j - 1 == q);
            } else {
                assert(t[i] == p[i - 1] && t[j] == p[j - 1]);
            }
        }
    }
}

/// The sort keeps every entry: its result is a permutation of its input.
pub proof fn law_sort_is_permutation(s: Seq<(Seq<char>, int, int)>)
    ensures
        sort_desc(s).to_multiset() == s.to_multiset(),
    decreases s.len(),
{
    if s.len() > 0 {
        let d = s.drop_last();
        law_sort_is_permutation(d);
        let p = sort_desc(d);
        lemma_insert_pos_bound(p, s.last());
        vstd::seq_lib::to_multiset_insert(p, insert_pos(p, s.last()), s.last());
        d.to_multiset_ensures();
        assert(d.push(s.last()) =~= s);
    }
}

proof fn lemma_insert_pos_facts(s: Seq<(Seq<char>, int, int)>, x: (Seq<char>, int, int))
    ensures
        forall|j: int| 0 <= j < insert_pos(s, x) ==> (#[trigger] s[j]).2 >= x.2,
        insert_pos(s, x) < s.len() ==> s[insert_pos(s, x)].2 < x.2,
    decreases s.len(),
{
    if s.len() > 0 && s[0].2 >= x.2 {
        let d = s.drop_first();
        lemma_insert_pos_facts(d, x);
        lemma_insert_pos_bound(d, x);
        assert(insert_pos(s, x) == 1 + insert_pos(d, x));
        assert forall|j: int| 0 <= j < insert_pos(s, x) implies (#[trigger] s[j]).2 >= x.2 by {
            if j > 0 {
                assert(d[j - 1] == s[j]);
            }
        }
        if insert_pos(s, x) < s.len() {
            assert(d[insert_pos(d, x)] == s[insert_pos(s, x)]);
        }
    }
}

proof fn lemma_normalized_sum(s: Seq<(Seq<char>, int, int)>, t: int)
    requires
        t > 0,
        forall|j: int| 0 <= j < s.len() ==> (#[trigger] s[j]).1 >= 0,
    ensures
        share_sum(s.map_values(|e: (Seq<char>, int, int)| (e.0, ratio(e.1, frac(), t)))) * t <= frac() * score_sum(s),
        share_sum(s.map_values(|e: (Seq<char>, int, int)| (e.0, ratio(e.1, frac(), t)))) >= 0,
    decreases s.len(),
{
    let m = s.map_values(|e: (Seq<char>, int, int)| (e.0, ratio(e.1, frac(), t)));
    if s.len() > 0 {
        let d = s.drop_last();
        lemma_normalized_sum(d, t);
        let md = d.map_values(|e: (Seq<char>, int, int)| (e.0, ratio(e.1, frac(), t)));
        assert(m.drop_last() =~= md);
        let x = s.last().1;
        assert(x >= 0);
        lemma_ratio_floor(x, frac(), t);
        let a = share_sum(md);
        let b = ratio(x, frac(), t);
        assert((a + b) * t <= frac() * (score_sum(d) + x)) by (nonlinear_arith)
            requires
                a * t <= frac() * score_sum(d),
                b * t <= x * frac(),
        ;
    }
}

/// The wanted shares of a gauge strategy go to at most `validator_count`
/// whitelisted validators, come in non-increasing order, and add up to at
/// most one.
pub proof fn law_gauge_shares_bounded(
    validators: Seq<Seq<char>>,
    vamp: Seq<(Seq<char>, u128)>,
    emp: Option<Seq<(Seq<char>, u128)>>,
    f: GaugeFactors,
    validator_count: u8,
)
    requires
        points_sum(vamp) > 0,
        emp matches Some(e) ==> points_sum(e) > 0,
        f.wf(),
    ensures
        gauge_shares_of(validators, vamp, emp, f, validator_count as int).len() <= validator_count,
        gauge_shares_of(validators, vamp, emp, f, validator_count as int).len() <= validators.len(),
        forall|j: int| 0 <= j < gauge_shares_of(validators, vamp, emp, f, validator_count as int).len()
            ==> validators.contains(#[trigger] gauge_shares_of(validators, vamp, emp, f, validator_count as int)[j].0),
        forall|i: int, j: int| 0 <= i < j < gauge_shares_of(validators, vamp, emp, f, validator_count as int).len()
            ==> (#[trigger] gauge_shares_of(validators, vamp, emp, f, validator_count as int)[i]).1
                >= (#[trigger] gauge_shares_of(validators, vamp, emp, f, validator_count as int)[j]).1,
        share_sum(gauge_shares_of(validators, vamp, emp, f, validator_count as int)) <= frac(),
{
    let emp_ctx = match emp {
        Some(e) => Some((e, points_sum(e))),
        None => None,
    };
    let vs = points_sum(vamp);
    let max = f.max_delegation.val();
    let min = f.min_delegation.val();
    let sc = spec_scored(validators, vamp, vs, emp_ctx, f);
    let pred = |e: (Seq<char>, int, int)|
        validators.contains(e.0) && score_in(e, max) && e.1 == (if e.2 <= max { e.2 } else { max });
    lemma_scored_bounds(validators, vamp, vs, emp_ctx, f);
    assert forall|j: int| 0 <= j < sc.len() implies pred(#[trigger] sc[j]) by {
        assert(sc[j].0 == validators[j]);
        assert(score_in(sc[j], max));
    }
    let fl = spec_filter_above(sc, min);
    lemma_filter_forall(sc, min, pred);
    let pred2 = |e: (Seq<char>, int, int)| pred(e) && e.1 > min;
    assert forall|j: int| 0 <= j < fl.len() implies pred2(#[trigger] fl[j]) by {}
    let so = sort_desc(fl);
    lemma_sort_forall(fl, pred2);
    law_sort_ordered(fl);
    let tk = take_at_most(so, validator_count as int);
    assert forall|j: int| 0 <= j < tk.len() implies pred2(#[trigger] tk[j]) && score_in(tk[j], max) by {
        assert(tk[j] == so[j]);
    }
    assert forall|i: int, j: int| 0 <= i < j < tk.len() implies tk[i].1 >= tk[j].1 by {
        assert(tk[i] == so[i] && tk[j] == so[j]);
        assert(pred2(tk[i]) && pred2(tk[j]));
    }
    lemma_score_sum_bounds(tk, max);
    let total = score_sum(tk);
    let shares = spec_normalize(tk);
    assert forall|i: int, j: int| 0 <= i < j < shares.len() implies shares[i].1 >= shares[j].1 by {
        assert(pred2(tk[j]));
        lemma_ratio_monotone(tk[j].1, tk[i].1, frac(), frac(), total);
    }
    if tk.len() > 0 {
        assert(pred2(tk[0]));
        assert(tk[0].1 <= total);
        lemma_normalized_sum(tk, total);
        assert(share_sum(shares) <= frac()) by (nonlinear_arith)
            requires
                share_sum(shares) * total <= frac() * total,
                total > 0,
        ;
    } else {
        assert(shares.len() == 0);
    }
}

/// No two entries carry the same validator.
pub open spec fn names_distinct(s: Seq<(Seq<char>, int, int)>) -> bool {
    forall|i: int, j: int| 0 <= i < j < s.len() ==> s[i].0 != s[j].0
}

proof fn lemma_filter_subset(s: Seq<(Seq<char>, int, int)>, min: int)
    ensures
        forall|j: int| 0 <= j < spec_filter_above(s, min).len() ==> s.contains(#[trigger] spec_filter_above(s, min)[j]),
    decreases s.len(),
{
    if s.len() > 0 {
        let d = s.drop_last();
        lemma_filter_subset(d, min);
        let f = spec_filter_above(s, min);
        let p = spec_filter_above(d, min);
        assert forall|j: int| 0 <= j < f.len() implies s.contains(#[trigger] f[j]) by {
            if j < p.len() {
                assert(f[j] == p[j]);
                assert(d.contains(p[j]));
                let k = choose|k: int| 0 <= k < d.len() && d[k] == p[j];
                assert(s[k] == d[k]);
            } else {
                assert(f[j] == s[s.len() - 1]);
            }
        }
    }
}

proof fn lemma_filter_distinct(s: Seq<(Seq<char>, int, int)>, min: int)
    requires
        names_distinct(s),
    ensures
        names_distinct(spec_filter_above(s, min)),
    decreases s.len(),
{
    if s.len() > 0 {
        let d = s.drop_last();
        assert(names_distinct(d)) by {
            assert forall|i: int, j: int| 0 <= i < j < d.len() implies d[i].0 != d[j].0 by {
                assert(d[i] == s[i] && d[j] == s[j]);
            }
        }
        lemma_filter_distinct(d, min);
        lemma_filter_subset(d, min);
        let p = spec_filter_above(d, min);
        let x = s.last();
        if x.1 > min {
            let f = p.push(x);
            assert forall|i: int, j: int| 0 <= i < j < f.len() implies f[i].0 != f[j].0 by {
                if j < p.len() {
                    assert(f[i] == p[i] && f[j] == p[j]);
                } else {
                    assert(f[i] == p[i] && f[j] == x);
                    assert(d.contains(p[i]));
                    let k = choose|k: int| 0 <= k < d.len() && d[k] == p[i];
                    assert(s[k] == d[k]);
                }
            }
        }
    }
}

proof fn lemma_sort_distinct(s: Seq<(Seq<char>, int, int)>)
    requires
        names_distinct(s),
    ensures
        names_distinct(sort_desc(s)),
    decreases s.len(),
{
    if s.len() > 0 {
        let d = s.drop_last();
        assert(names_distinct(d)) by {
            assert forall|i: int, j: int| 0 <= i < j < d.len() implies d[i].0 != d[j].0 by {
                assert(d[i] == s[i] && d[j] == s[j]);
            }
        }
        lemma_sort_distinct(d);
        law_sort_is_permutation(d);
        let p = sort_desc(d);
        let x = s.last();
        lemma_insert_pos_bound(p, x);
        let q = insert_pos(p, x);
        let t = p.insert(q, x);
        p.to_multiset_ensures();
        d.to_multiset_ensures();
        assert forall|i: int| 0 <= i < p.len() implies p[i].0 != x.0 by {
            assert(p.contains(p[i]));
            assert(p.to_multiset().count(p[i]) > 0);
            assert(d.to_multiset().count(p[i]) > 0);
            assert(d.contains(p[i]));
            let k = choose|k: int| 0 <= k < d.len() && d[k] == p[i];
            assert(s[k] == d[k]);
        }
        assert forall|i: int, j: int| 0 <= i < j < t.len() implies t[i].0 != t[j].0 by {
            if j < q {
                assert(t[i] == p[i] && t[j] == p[j]);
            } else if j == q {
                assert(t[i] == p[i] && t[j] == x);
            } else if i < q {
                assert(t[i] == p[i] && t[j] == p[j - 1]);
            } else if i == q {
                assert(t[i] == x && t[j] == p[j - 1]);
            } else {
                assert(t[i] == p[i - 1] && t[j] == p[j - 1]);
            }
        }
    }
}

proof fn lemma_normalized_sum_lower(s: Seq<(Seq<char>, int, int)>, t: int)
    requires
        t > 0,
        forall|j: int| 0 <= j < s.len() ==> (#[trigger] s[j]).1 >= 0,
    ensures
        share_sum(s.map_values(|e: (Seq<char>, int, int)| (e.0, ratio(e.1, frac(), t)))) * t + s.len() * t >= frac() * score_sum(s),
    decreases s.len(),
{
    if s.len() > 0 {
        let d = s.drop_last();
        lemma_normalized_sum_lower(d, t);
        let m = s.map_values(|e: (Seq<char>, int, int)| (e.0, ratio(e.1, frac(), t)));
        let md = d.map_values(|e: (Seq<char>, int, int)| (e.0, ratio(e.1, frac(), t)));
        assert(m.drop_last() =~= md);
        let x = s.last().1;
        assert(x >= 0);
        lemma_ratio_floor(x, frac(), t);
        let a = share_sum(md);
        let b = ratio(x, frac(), t);
        let n = d.len() as int;
        assert((a + b) * t + (n + 1) * t >= frac() * (score_sum(d) + x)) by (nonlinear_arith)
            requires
                a * t + n * t >= frac() * score_sum(d),
                x * frac() < (b + 1) * t,
        ;
    }
}

/// The EMP gauges' points with their sum, where there are EMP gauges.
pub open spec fn gauge_emp(emp: Option<Seq<(Seq<char>, u128)>>) -> Option<(Seq<(Seq<char>, u128)>, int)> {
    match emp {
        Some(e) => Some((e, points_sum(e))),
        None => None,
    }
}

/// The scored validators that pass the minimum, in whitelist order.
pub open spec fn gauge_filtered(
    validators: Seq<Seq<char>>,
    vamp: Seq<(Seq<char>, u128)>,
    emp: Option<Seq<(Seq<char>, u128)>>,
    f: GaugeFactors,
) -> Seq<(Seq<char>, int, int)> {
    spec_filter_above(spec_scored(validators, vamp, points_sum(vamp), gauge_emp(emp), f), f.min_delegation.val())
}

/// The passing validators that are kept: the first `count` by descending
/// total share.
pub open spec fn gauge_taken(
    validators: Seq<Seq<char>>,
    vamp: Seq<(Seq<char>, u128)>,
    emp: Option<Seq<(Seq<char>, u128)>>,
    f: GaugeFactors,
    count: int,
) -> Seq<(Seq<char>, int, int)> {
    take_at_most(sort_desc(gauge_filtered(validators, vamp, emp, f)), count)
}

/// The shares of a gauge strategy.
pub open spec fn gauge_shares_of(
    validators: Seq<Seq<char>>,
    vamp: Seq<(Seq<char>, u128)>,
    emp: Option<Seq<(Seq<char>, u128)>>,
    f: GaugeFactors,
    count: int,
) -> Seq<(Seq<char>, int)> {
    spec_gauge_shares(validators, vamp, points_sum(vamp), gauge_emp(emp), f, count)
}

/// How a gauge strategy selects: every kept validator is scored as the
/// strategy scores it and lies above the minimum; the kept ones come in
/// order of descending total share; a validator that passed the minimum
/// but was not kept has a total share no higher than any kept one; where
/// the whitelist holds no validator twice, no share goes to one twice; and
/// the shares lose at most one atomic unit each to rounding.
pub proof fn law_gauge_selection(
    validators: Seq<Seq<char>>,
    vamp: Seq<(Seq<char>, u128)>,
    emp: Option<Seq<(Seq<char>, u128)>>,
    f: GaugeFactors,
    validator_count: u8,
)
    requires
        points_sum(vamp) > 0,
        emp matches Some(e) ==> points_sum(e) > 0,
        f.wf(),
    ensures
        gauge_shares_of(validators, vamp, emp, f, validator_count as int).len()
            == gauge_taken(validators, vamp, emp, f, validator_count as int).len(),
        forall|j: int| 0 <= j < gauge_taken(validators, vamp, emp, f, validator_count as int).len()
            ==> gauge_shares_of(validators, vamp, emp, f, validator_count as int)[j].0
                == (#[trigger] gauge_taken(validators, vamp, emp, f, validator_count as int)[j]).0
            && gauge_taken(validators, vamp, emp, f, validator_count as int)[j]
                == spec_score_entry(gauge_taken(validators, vamp, emp, f, validator_count as int)[j].0, vamp, points_sum(vamp), gauge_emp(emp), f)
            && gauge_taken(validators, vamp, emp, f, validator_count as int)[j].1 > f.min_delegation.val(),
        forall|i: int, j: int| 0 <= i < j < gauge_taken(validators, vamp, emp, f, validator_count as int).len()
            ==> (#[trigger] gauge_taken(validators, vamp, emp, f, validator_count as int)[i]).2
                >= (#[trigger] gauge_taken(validators, vamp, emp, f, validator_count as int)[j]).2,
        forall|e: (Seq<char>, int, int), j: int| #![trigger gauge_filtered(validators, vamp, emp, f).contains(e), gauge_taken(validators, vamp, emp, f, validator_count as int)[j]]
            gauge_filtered(validators, vamp, emp, f).contains(e)
            && !gauge_taken(validators, vamp, emp, f, validator_count as int).contains(e)
            && 0 <= j < gauge_taken(validators, vamp, emp, f, validator_count as int).len()
            ==> e.2 <= gauge_taken(validators, vamp, emp, f, validator_count as int)[j].2,
        (forall|i: int, j: int| 0 <= i < j < validators.len() ==> validators[i] != validators[j])
            ==> forall|i: int, j: int| 0 <= i < j < gauge_shares_of(validators, vamp, emp, f, validator_count as int).len()
                ==> (#[trigger] gauge_shares_of(validators, vamp, emp, f, validator_count as int)[i]).0
                    != (#[trigger] gauge_shares_of(validators, vamp, emp, f, validator_count as int)[j]).0,
        gauge_shares_of(validators, vamp, emp, f, validator_count as int).len() > 0
            ==> share_sum(gauge_shares_of(validators, vamp, emp, f, validator_count as int))
                >= frac() - gauge_shares_of(validators, vamp, emp, f, validator_count as int).len(),
{
    let emp_ctx = match emp {
        Some(e) => Some((e, points_sum(e))),
        None => None,
    };
    let vs = points_sum(vamp);
    let min = f.min_delegation.val();
    let max = f.max_delegation.val();
    let sc = spec_scored(validators, vamp, vs, emp_ctx, f);
    let pred = |e: (Seq<char>, int, int)| e == spec_score_entry(e.0, vamp, vs, emp_ctx, f) && score_in(e, max);
    lemma_scored_bounds(validators, vamp, vs, emp_ctx, f);
    assert forall|j: int| 0 <= j < sc.len() implies pred(#[trigger] sc[j]) by {
        assert(sc[j] == spec_score_entry(validators[j], vamp, vs, emp_ctx, f));
        assert(score_in(sc[j], max));
    }
    let fl = spec_filter_above(sc, min);
    lemma_filter_forall(sc, min, pred);
    let pred2 = |e: (Seq<char>, int, int)| pred(e) && e.1 > min;
    assert forall|j: int| 0 <= j < fl.len() implies pred2(#[trigger] fl[j]) by {}
    let so = sort_desc(fl);
    lemma_sort_forall(fl, pred2);
    law_sort_ordered(fl);
    law_sort_is_permutation(fl);
    let tk = take_at_most(so, validator_count as int);
    let shares = spec_normalize(tk);
    assert forall|j: int| 0 <= j < tk.len() implies shares[j].0 == (#[trigger] tk[j]).0
        && tk[j] == spec_score_entry(tk[j].0, vamp, vs, emp_ctx, f) && tk[j].1 > min by {
        assert(tk[j] == so[j]);
        assert(pred2(so[j]));
    }
    assert forall|i: int, j: int| 0 <= i < j < tk.len() implies tk[i].2 >= tk[j].2 by {
        assert(tk[i] == so[i] && tk[j] == so[j]);
    }
    assert forall|e: (Seq<char>, int, int)| fl.contains(e) && !tk.contains(e) implies forall|j: int| 0 <= j < tk.len() ==> e.2 <= (#[trigger] tk[j]).2 by {
        fl.to_multiset_ensures();
        so.to_multiset_ensures();
        assert(fl.to_multiset().count(e) > 0);
        assert(so.to_multiset().count(e) > 0);
        assert(so.contains(e));
        let k = choose|k: int| 0 <= k < so.len() && so[k] == e;
        if k < tk.len() {
            assert(tk[k] == e);
        }
        assert forall|j: int| 0 <= j < tk.len() implies e.2 <= (#[trigger] tk[j]).2 by {
            assert(tk[j] == so[j]);
        }
    }
    if forall|i: int, j: int| 0 <= i < j < validators.len() ==> validators[i] != validators[j] {
        assert(names_distinct(sc)) by {
            assert forall|i: int, j: int| 0 <= i < j < sc.len() implies sc[i].0 != sc[j].0 by {
                assert(sc[i].0 == validators[i] && sc[j].0 == validators[j]);
            }
        }
        lemma_filter_distinct(sc, min);
        lemma_sort_distinct(fl);
        assert forall|i: int, j: int| 0 <= i < j < shares.len() implies shares[i].0 != shares[j].0 by {
            assert(tk[i] == so[i] && tk[j] == so[j]);
        }
    }
    if shares.len() > 0 {
        assert forall|j: int| 0 <= j < tk.len() implies score_in(#[trigger] tk[j], max) by {
            assert(tk[j] == so[j]);
            assert(pred2(so[j]));
        }
        lemma_score_sum_bounds(tk, max);
        assert(tk[0] == so[0]);
        assert(pred2(so[0]));
        let total = score_sum(tk);
        assert(total > 0);
        assert forall|j: int| 0 <= j < tk.len() implies (#[trigger] tk[j]).1 >= 0 by {
            assert(score_in(tk[j], max));
        }
        lemma_normalized_sum_lower(tk, total);
        let a = share_sum(shares);
        let n = tk.len() as int;
        assert(a >= frac() - n) by (nonlinear_arith)
            requires
                a * total + n * total >= frac() * total,
                total > 0,
        ;
    }
}

/// The total share of validator `v` under a gauge strategy.
pub open spec fn gauge_total_share(
    v: Seq<char>,
    vamp: Seq<(Seq<char>, u128)>,
    emp: Option<(Seq<(Seq<char>, u128)>, int)>,
    f: GaugeFactors,
) -> int {
    spec_total_share(v, vamp, points_sum(vamp), emp, f.vamp_factor.val(), f.emp_factor.val())
}

/// Whether validator `v` passes the minimum: its total share, capped at the
/// maximum, lies above the minimum.
pub open spec fn gauge_passes(
    v: Seq<char>,
    vamp: Seq<(Seq<char>, u128)>,
    emp: Option<(Seq<(Seq<char>, u128)>, int)>,
    f: GaugeFactors,
) -> bool {
    let t = gauge_total_share(v, vamp, emp, f);
    (if t <= f.max_delegation.val() { t } else { f.max_delegation.val() }) > f.min_delegation.val()
}

/// What the shares of a gauge strategy are: at most `count` of them, each
/// to a whitelisted validator that passes the minimum, in non-increasing
/// order of share and of total share; a passing validator that receives no
/// share has a total share no higher than any that does; no validator
/// twice where the whitelist holds none twice; and a sum of at most one and
/// at least one less an atomic unit per share.
pub open spec fn gauge_outcome(
    validators: Seq<Seq<char>>,
    vamp: Seq<(Seq<char>, u128)>,
    emp: Option<(Seq<(Seq<char>, u128)>, int)>,
    f: GaugeFactors,
    count: int,
    shares: Seq<(Seq<char>, int)>,
) -> bool {
    &&& shares.len() <= count
    &&& shares.len() <= validators.len()
    &&& forall|j: int| 0 <= j < shares.len() ==> validators.contains(#[trigger] shares[j].0)
        && gauge_passes(shares[j].0, vamp, emp, f)
    &&& forall|i: int, j: int| 0 <= i < j < shares.len() ==> #[trigger] shares[i].1 >= #[trigger] shares[j].1
        && gauge_total_share(shares[i].0, vamp, emp, f) >= gauge_total_share(shares[j].0, vamp, emp, f)
    &&& forall|v: Seq<char>, j: int| #![trigger validators.contains(v), shares[j]] validators.contains(v) && gauge_passes(v, vamp, emp, f)
        && !shares.map_values(|e: (Seq<char>, int)| e.0).contains(v) && 0 <= j < shares.len()
        ==> gauge_total_share(v, vamp, emp, f) <= gauge_total_share(shares[j].0, vamp, emp, f)
    &&& (forall|i: int, j: int| 0 <= i < j < validators.len() ==> validators[i] != validators[j])
        ==> forall|i: int, j: int| 0 <= i < j < shares.len() ==> #[trigger] shares[i].0 != #[trigger] shares[j].0
    &&& share_sum(shares) <= frac()
    &&& shares.len() > 0 ==> share_sum(shares) >= frac() - shares.len()
}

proof fn lemma_filter_complete(s: Seq<(Seq<char>, int, int)>, min: int, i: int)
    requires
        0 <= i < s.len(),
        s[i].1 > min,
    ensures
        spec_filter_above(s, min).contains(s[i]),
    decreases s.len(),
{
    let d = s.drop_last();
    if i < s.len() - 1 {
        assert(d[i] == s[i]);
        lemma_filter_complete(d, min, i);
        let p = spec_filter_above(d, min);
        let k = choose|k: int| 0 <= k < p.len() && p[k] == s[i];
        if s.last().1 > min {
            assert(p.push(s.last())[k] == s[i]);
        }
    } else {
        assert(spec_filter_above(s, min) == spec_filter_above(d, min).push(s[i]));
        assert(spec_filter_above(d, min).push(s[i])[spec_filter_above(d, min).len() as int] == s[i]);
    }
}

/// The shares of every gauge strategy are as `gauge_outcome` describes.
pub proof fn law_gauge_outcome(
    validators: Seq<Seq<char>>,
    vamp: Seq<(Seq<char>, u128)>,
    emp: Option<Seq<(Seq<char>, u128)>>,
    f: GaugeFactors,
    validator_count: u8,
)
    requires
        points_sum(vamp) > 0,
        emp matches Some(e) ==> points_sum(e) > 0,
        f.wf(),
    ensures
        gauge_outcome(validators, vamp, gauge_emp(emp), f, validator_count as int,
            gauge_shares_of(validators, vamp, emp, f, validator_count as int)),
{
    let emp_ctx = gauge_emp(emp);
    let vs = points_sum(vamp);
    let min = f.min_delegation.val();
    let k = validator_count as int;
    law_gauge_shares_bounded(validators, vamp, emp, f, validator_count);
    law_gauge_selection(validators, vamp, emp, f, validator_count);
    let sc = spec_scored(validators, vamp, vs, emp_ctx, f);
    let fl = gauge_filtered(validators, vamp, emp, f);
    let tk = gauge_taken(validators, vamp, emp, f, k);
    let shares = gauge_shares_of(validators, vamp, emp, f, k);
    assert forall|j: int| 0 <= j < shares.len() implies validators.contains(#[trigger] shares[j].0)
        && gauge_passes(shares[j].0, vamp, emp_ctx, f) by {
        let x = tk[j];
        assert(shares[j].0 == x.0);
        assert(x == spec_score_entry(x.0, vamp, vs, emp_ctx, f));
    }
    assert forall|i: int, j: int| 0 <= i < j < shares.len() implies #[trigger] shares[i].1 >= #[trigger] shares[j].1
        && gauge_total_share(shares[i].0, vamp, emp_ctx, f) >= gauge_total_share(shares[j].0, vamp, emp_ctx, f) by {
        let x = tk[i];
        let y = tk[j];
        assert(shares[i].0 == x.0 && shares[j].0 == y.0);
        assert(x == spec_score_entry(x.0, vamp, vs, emp_ctx, f));
        assert(y == spec_score_entry(y.0, vamp, vs, emp_ctx, f));
        assert(x.2 >= y.2);
    }
    assert forall|v: Seq<char>, j: int| #![trigger validators.contains(v), shares[j]] validators.contains(v) && gauge_passes(v, vamp, emp_ctx, f)
        && !shares.map_values(|e: (Seq<char>, int)| e.0).contains(v) && 0 <= j < shares.len()
        implies gauge_total_share(v, vamp, emp_ctx, f) <= gauge_total_share(shares[j].0, vamp, emp_ctx, f) by {
        let i = choose|i: int| 0 <= i < validators.len() && validators[i] == v;
        let e = spec_score_entry(v, vamp, vs, emp_ctx, f);
        assert(sc[i] == e);
        lemma_filter_complete(sc, min, i);
        assert(fl.contains(e));
        if tk.contains(e) {
            let m = choose|m: int| 0 <= m < tk.len() && tk[m] == e;
            let z = tk[m];
            assert(shares[m].0 == z.0);
            assert(shares.map_values(|e: (Seq<char>, int)| e.0)[m] == v);
        }
        let y = tk[j];
        assert(shares[j].0 == y.0);
        assert(y == spec_score_entry(y.0, vamp, vs, emp_ctx, f));
        assert(e.2 <= y.2);
    }
    if forall|i: int, j: int| 0 <= i < j < validators.len() ==> validators[i] != validators[j] {
        assert forall|i: int, j: int| 0 <= i < j < shares.len() implies #[trigger] shares[i].0 != #[trigger] shares[j].0 by {
            assert(shares[i].0 != shares[j].0);
        }
    }
}

/// The validators delegations go to: those of the stored goal where one is
/// stored, else the whitelist, else none.
pub fn active_validators(goal: Option<WantedDelegationsShare>, validators: Option<Vec<String>>) -> (r:
    Vec<String>)
    ensures
        goal matches Some(g) ==> names_view(r@) == shares_view(g.shares@).map_values(|e: (Seq<char>, int)| e.0),
        goal is None ==> (validators matches Some(v) ==> names_view(r@) == names_view(v@)),
        goal is None && validators is None ==> r@.len() == 0,
{
    match goal {
        Some(g) => {
            let mut out: Vec<String> = Vec::new();
            let mut i: usize = 0;
            while i < g.shares.len()
                invariant
                    i <= g.shares@.len(),
                    out@.len() == i,
                    forall|j: int| 0 <= j < i ==> (#[trigger] out@[j])@ == g.shares@[j].0@,
                decreases g.shares@.len() - i,
            {
                out.push(g.shares[i].0.clone());
                i = i + 1;
            }
            proof {
                assert(names_view(out@) =~= shares_view(g.shares@).map_values(|e: (Seq<char>, int)| e.0));
            }
            out
        },
        None => match validators {
            Some(v) => v,
            None => Vec::new(),
        },
    }
}

impl DelegationStrategy {
    /// Takes the gauge addresses of a strategy as the outcomes of validating
    /// them (the vAMP gauges' address lowered first), vAMP before EMP.
    pub fn validate(self, amp_gauges: Result<String, StdError>, emp_gauges: Option<Result<String, StdError>>) -> (r: Result<DelegationStrategy, StdError>)
        ensures
            self is Uniform ==> r == Ok::<DelegationStrategy, StdError>(DelegationStrategy::Uniform),
            self matches DelegationStrategy::Gauges { amp_factor_bps, min_delegation_bps, max_delegation_bps, validator_count, .. } ==> match (amp_gauges, emp_gauges) {
                (Err(e), _) => r == Err::<DelegationStrategy, StdError>(e),
                (Ok(_), Some(Err(e))) => r == Err::<DelegationStrategy, StdError>(e),
                (Ok(a), Some(Ok(b))) => r == Ok::<DelegationStrategy, StdError>(DelegationStrategy::Gauges { amp_gauges: a, emp_gauges: Some(b), amp_factor_bps, min_delegation_bps, max_delegation_bps, validator_count }),
                (Ok(a), None) => r == Ok::<DelegationStrategy, StdError>(DelegationStrategy::Gauges { amp_gauges: a, emp_gauges: None, amp_factor_bps, min_delegation_bps, max_delegation_bps, validator_count }),
            },
    {
        match self {
            DelegationStrategy::Uniform => Ok(DelegationStrategy::Uniform),
            DelegationStrategy::Gauges { amp_factor_bps, min_delegation_bps, max_delegation_bps, validator_count, .. } => {
                let a = match amp_gauges {
                    Ok(a) => a,
                    Err(e) => return Err(e),
                };
                let b = match emp_gauges {
                    None => None,
                    Some(Ok(b)) => Some(b),
                    Some(Err(e)) => return Err(e),
                };
                Ok(DelegationStrategy::Gauges { amp_gauges: a, emp_gauges: b, amp_factor_bps, min_delegation_bps, max_delegation_bps, validator_count })
            },
        }
    }
}

} // verus!
