//! The yield extractor: a pool of a liquid staking token whose LP shares are
//! minted and burnt pro rata, and which sets aside a share of the exchange
//! rate growth as extracted yield.
use vstd::prelude::*;
use vstd::string::StringExecFns;
use crate::decimal::{
    frac, max_u128, ratio, lemma_ratio_floor, lemma_div_le_bound, lemma_ratio_monotone, Decimal,
    multiply_ratio,
};
use crate::error::{generic_msg, StdError};

verus! {

/// How the hub contract is read for the exchange rate.
#[derive(Clone, Copy, Debug, PartialEq, Eq, Structural)]
pub enum LiquidStakingType {
    Eris,
    Stader,
    Steak,
}

/// LP shares minted for a deposit.
pub open spec fn spec_mint_amount(lp_supply: int, stake_deposited: int, stake_available: int) -> int {
    if stake_available == 0 {
        stake_deposited
    } else {
        ratio(lp_supply, stake_deposited, stake_available)
    }
}

/// Stake paid out for burnt LP shares.
pub open spec fn spec_withdraw_amount(lp_supply: int, lp_to_burn: int, stake_available: int) -> int {
    ratio(stake_available, lp_to_burn, lp_supply)
}

/// LP shares to mint for `stake_deposited`: one to one into an empty pool,
/// else the deposit's share of `stake_available` times `lp_supply`, rounded
/// down.
pub fn compute_mint_amount(lp_supply: u128, stake_deposited: u128, stake_available: u128) -> (r:
    u128)
    requires
        stake_available != 0 ==> ratio(lp_supply as int, stake_deposited as int, stake_available as int) <= max_u128(),
    ensures
        r == spec_mint_amount(lp_supply as int, stake_deposited as int, stake_available as int),
{
    if stake_available == 0 {
        stake_deposited
    } else {
        multiply_ratio(lp_supply, stake_deposited, stake_available)
    }
}

/// Stake to pay out for `lp_to_burn` shares: their share of `lp_supply`
/// times `stake_available`, rounded down.
pub fn compute_withdraw_amount(lp_supply: u128, lp_to_burn: u128, stake_available: u128) -> (r:
    u128)
    requires
        lp_supply > 0,
        ratio(stake_available as int, lp_to_burn as int, lp_supply as int) <= max_u128(),
    ensures
        r == spec_withdraw_amount(lp_supply as int, lp_to_burn as int, stake_available as int),
{
    multiply_ratio(stake_available, lp_to_burn, lp_supply)
}

/// Depositing and then burning the shares minted for the deposit never pays
/// out more than was deposited: the pool cannot be drained by a round trip.
pub proof fn law_deposit_withdraw_round_trip(lp_supply: u128, stake_deposited: u128, stake_available: u128)
    requires
        lp_supply as int + spec_mint_amount(lp_supply as int, stake_deposited as int, stake_available as int) > 0,
    ensures
        ({
            let minted = spec_mint_amount(lp_supply as int, stake_deposited as int, stake_available as int);
            spec_withdraw_amount(lp_supply + minted, minted, stake_available + stake_deposited)
                <= stake_deposited
        }),
{
    let l = lp_supply as int;
    let d = stake_deposited as int;
    let s = stake_available as int;
    let m = spec_mint_amount(l, d, s);
    if s == 0 {
        assert(m == d);
        assert((s + d) * m <= (l + m) * d) by (nonlinear_arith)
            requires
                s == 0,
                m == d,
                l >= 0,
                d >= 0,
        ;
    } else {
        lemma_ratio_floor(l, d, s);
        assert(m * s <= l * d);
        assert((s + d) * m <= (l + m) * d) by (nonlinear_arith)
            requires
                m * s <= l * d,
                m >= 0,
                d >= 0,
        ;
    }
    lemma_div_le_bound((s + d) * m, l + m, d);
}

/// An empty pool mints one share per deposited token, and a pool whose
/// stake equals its supply keeps that one to one rate.
pub proof fn law_mint_one_to_one(lp_supply: u128, stake_deposited: u128)
    ensures
        spec_mint_amount(lp_supply as int, stake_deposited as int, 0) == stake_deposited,
        lp_supply > 0 ==> spec_mint_amount(lp_supply as int, stake_deposited as int, lp_supply as int)
            == stake_deposited,
{
    if lp_supply > 0 {
        vstd::arithmetic::div_mod::lemma_div_multiples_vanish(stake_deposited as int, lp_supply as int);
        assert(lp_supply as int * stake_deposited as int == stake_deposited as int * lp_supply as int)
            by (nonlinear_arith);
    }
}

/// Stake taken out as yield when the exchange rate grew from `last_rate` to
/// `rate`: the relative growth times `extract_p` times the available stake.
pub open spec fn spec_stake_to_extract(rate: int, last_rate: int, extract_p: int, available: int) -> int {
    let diff = ratio(rate - last_rate, frac(), rate);
    ratio(available, ratio(diff, extract_p, frac()), frac())
}

/// Whether the exchange rate moved such that yield is taken: it grew, and a
/// previous rate was recorded.
pub open spec fn spec_extracts(rate: int, last_rate: int) -> bool {
    !(rate <= last_rate || last_rate == 0)
}

/// The extracted and the available stake after an extraction, or the
/// overflow error that the computation meets.
pub open spec fn spec_extraction(
    stake_balance: int,
    stake_extracted: int,
    last_rate: int,
    rate: int,
    extract_p: int,
) -> Result<(int, int), StdError> {
    if stake_extracted > stake_balance {
        Err(StdError::Overflow)
    } else if !spec_extracts(rate, last_rate) {
        Ok((stake_extracted, stake_balance - stake_extracted))
    } else {
        let diff = ratio(rate - last_rate, frac(), rate);
        let diff_p = ratio(diff, extract_p, frac());
        let available = stake_balance - stake_extracted;
        if diff_p > max_u128() || ratio(available, diff_p, frac()) > max_u128() {
            Err(StdError::Overflow)
        } else {
            let extracted = stake_extracted + ratio(available, diff_p, frac());
            if extracted > max_u128() || extracted > stake_balance {
                Err(StdError::Overflow)
            } else {
                Ok((extracted, stake_balance - extracted))
            }
        }
    }
}

/// Takes out the yield that accrued since `last_rate`: returns the new
/// extracted stake and the stake still available to LP holders.
pub fn compute_extraction(
    stake_balance: u128,
    stake_extracted: u128,
    last_rate: Decimal,
    rate: Decimal,
    extract_p: Decimal,
) -> (r: Result<(u128, u128), StdError>)
    ensures
        match spec_extraction(stake_balance as int, stake_extracted as int, last_rate.val(), rate.val(), extract_p.val()) {
            Ok(v) => r matches Ok(w) && w.0 as int == v.0 && w.1 as int == v.1,
            Err(e) => r == Err::<(u128, u128), StdError>(e),
        },
        r matches Ok(w) ==> w.0 >= stake_extracted && w.0 + w.1 == stake_balance,
        r matches Ok(w) ==> (!spec_extracts(rate.val(), last_rate.val()) ==> w.0 == stake_extracted),
        r matches Ok(w) ==> (spec_extracts(rate.val(), last_rate.val()) ==> w.0 - stake_extracted
            == (stake_balance - stake_extracted) * ((((rate.val() - last_rate.val()) * frac() / rate.val())
                * extract_p.val()) / frac()) / frac()),
{
    proof {
        law_extraction_from_available(stake_balance, stake_extracted, last_rate, rate, extract_p);
    }
    if stake_extracted > stake_balance {
        return Err(StdError::Overflow);
    }
    let mut extracted = stake_extracted;
    let mut available = stake_balance - stake_extracted;
    if rate.le(&last_rate) || last_rate.is_zero() {
    } else {
        let grown = rate.sub(last_rate);
        proof {
            assert(grown.val() * frac() <= rate.val() * frac()) by (nonlinear_arith)
                requires
                    grown.val() <= rate.val(),
            ;
            lemma_div_le_bound(grown.val() * frac(), rate.val(), frac());
        }
        let diff = grown.div(rate);
        let diff_p = match diff.checked_mul(extract_p) {
            Some(d) => d,
            None => return Err(StdError::Overflow),
        };
        let to_extract = match diff_p.checked_mul_uint(available) {
            Some(v) => v,
            None => return Err(StdError::Overflow),
        };
        extracted = match extracted.checked_add(to_extract) {
            Some(v) => v,
            None => return Err(StdError::Overflow),
        };
        if extracted > stake_balance {
            return Err(StdError::Overflow);
        }
        available = stake_balance - extracted;
    }
    Ok((extracted, available))
}

/// Yield is taken only out of the stake still available to LP holders (the
/// balance less what was already extracted): when the rate grew since the
/// last one, the newly extracted amount is that available stake times the
/// growth relative to the new rate times the extraction share, each product
/// rounded down to 18 digits; otherwise nothing more is extracted. With a
/// share of at most 100 % the new extraction never exceeds the available
/// stake, and what remains available is the balance less all extracted.
pub proof fn law_extraction_from_available(
    stake_balance: u128,
    stake_extracted: u128,
    last_rate: Decimal,
    rate: Decimal,
    extract_p: Decimal,
)
    ensures
        spec_extraction(stake_balance as int, stake_extracted as int, last_rate.val(), rate.val(), extract_p.val()) matches Ok(v) ==> {
            &&& v.0 >= stake_extracted
            &&& v.1 == stake_balance - v.0
            &&& !spec_extracts(rate.val(), last_rate.val()) ==> v.0 == stake_extracted
            &&& spec_extracts(rate.val(), last_rate.val()) ==> v.0 - stake_extracted
                == (stake_balance - stake_extracted) * ((((rate.val() - last_rate.val()) * frac() / rate.val())
                    * extract_p.val()) / frac()) / frac()
            &&& spec_extracts(rate.val(), last_rate.val()) && extract_p.val() <= frac()
                ==> v.0 - stake_extracted <= stake_balance - stake_extracted
        },
{
    if stake_extracted <= stake_balance && spec_extracts(rate.val(), last_rate.val()) && extract_p.val() <= frac() {
        law_extraction_bounded(rate, last_rate, extract_p, (stake_balance - stake_extracted) as u128);
    }
    if stake_extracted <= stake_balance && spec_extracts(rate.val(), last_rate.val()) {
        let r = rate.val();
        let l = last_rate.val();
        lemma_ratio_floor(r - l, frac(), r);
        let diff = ratio(r - l, frac(), r);
        lemma_ratio_floor(diff, extract_p.val(), frac());
        let dp = ratio(diff, extract_p.val(), frac());
        lemma_ratio_floor((stake_balance - stake_extracted) as int, dp, frac());
    }
}

/// With an extraction share of at most 100 %, the yield taken out is at most
/// the stake that was available.
pub proof fn law_extraction_bounded(rate: Decimal, last_rate: Decimal, extract_p: Decimal, available: u128)
    requires
        spec_extracts(rate.val(), last_rate.val()),
        extract_p.val() <= frac(),
    ensures
        0 <= spec_stake_to_extract(rate.val(), last_rate.val(), extract_p.val(), available as int)
            <= available,
{
    let r = rate.val();
    let l = last_rate.val();
    let p = extract_p.val();
    let a = available as int;
    assert((r - l) * frac() <= r * frac()) by (nonlinear_arith)
        requires
            l >= 0,
    ;
    lemma_div_le_bound((r - l) * frac(), r, frac());
    lemma_ratio_floor(r - l, frac(), r);
    let diff = ratio(r - l, frac(), r);
    lemma_ratio_monotone(diff, frac(), p, frac(), frac());
    lemma_ratio_floor(diff, p, frac());
    vstd::arithmetic::div_mod::lemma_div_multiples_vanish(frac(), frac());
    let dp = ratio(diff, p, frac());
    lemma_ratio_monotone(a, a, dp, frac(), frac());
    lemma_ratio_floor(a, dp, frac());
    vstd::arithmetic::div_mod::lemma_div_multiples_vanish(a, frac());
    assert(a * frac() == frac() * a) by (nonlinear_arith);
}

/// What the state query reports.
#[derive(Clone, Debug, PartialEq, Eq)]
pub struct ExtractorState {
    pub total_lp: u128,
    pub stake_balance: u128,
    pub stake_extracted: u128,
    pub stake_harvested: u128,
    pub stake_available: u128,
    pub exchange_rate_lp_stake: Decimal,
    pub exchange_rate_stake_uluna: Decimal,
    pub user_share: Option<u128>,
    pub user_received_asset: Option<u128>,
    pub tvl_uluna: u128,
}

/// Assembles the state query's answer from the extraction that
/// `compute_extraction` returned, the LP supply, the user's LP balance (when
/// asked for) and the exchange rate; fails with an overflow where the value
/// of the balance in uluna does not fit.
pub fn extractor_state(
    total_lp: u128,
    stake_balance: u128,
    stake_extracted: u128,
    stake_harvested: u128,
    stake_available: u128,
    rate: Decimal,
    user_share: Option<u128>,
) -> (r: Result<ExtractorState, StdError>)
    requires
        total_lp > 0 ==> ratio(stake_available as int, frac(), total_lp as int) <= max_u128(),
        user_share matches Some(s) ==> total_lp > 0 && ratio(stake_available as int, s as int, total_lp as int) <= max_u128(),
    ensures
        r is Ok <==> ratio(stake_balance as int, rate.val(), frac()) <= max_u128(),
        r matches Ok(st) ==> {
            &&& st.total_lp == total_lp
            &&& st.stake_balance == stake_balance
            &&& st.stake_extracted == stake_extracted
            &&& st.stake_harvested == stake_harvested
            &&& st.stake_available == stake_available
            &&& st.exchange_rate_lp_stake.val() == (if total_lp == 0 { 0 } else { ratio(stake_available as int, frac(), total_lp as int) })
            &&& st.exchange_rate_stake_uluna == rate
            &&& st.user_share == user_share
            &&& st.user_received_asset == match user_share {
                Some(s) => Some(spec_withdraw_amount(total_lp as int, s as int, stake_available as int) as u128),
                None => None::<u128>,
            }
            &&& st.tvl_uluna == ratio(stake_balance as int, rate.val(), frac())
        },
        r matches Err(e) ==> e == StdError::Overflow,
{
    let exchange_rate_lp_stake = if total_lp == 0 {
        Decimal::zero()
    } else {
        Decimal::from_ratio(stake_available, total_lp)
    };
    let user_received_asset = match user_share {
        Some(s) => Some(compute_withdraw_amount(total_lp, s, stake_available)),
        None => None,
    };
    let tvl_uluna = match rate.checked_mul_uint(stake_balance) {
        Some(v) => v,
        None => return Err(StdError::Overflow),
    };
    Ok(ExtractorState {
        total_lp,
        stake_balance,
        stake_extracted,
        stake_harvested,
        stake_available,
        exchange_rate_lp_stake,
        exchange_rate_stake_uluna: rate,
        user_share,
        user_received_asset,
        tvl_uluna,
    })
}

/// What the share query reports.
#[derive(Clone, Copy, Debug, PartialEq, Eq, Structural)]
pub struct ShareResponse {
    pub received_asset: u128,
    pub share: u128,
    pub total_lp: u128,
}

/// The stake a holder of `share` LP tokens would receive (`share` is zero
/// where no address was asked for); fails with an overflow where more stake
/// counts as extracted than the balance holds.
pub fn share_response(total_lp: u128, stake_balance: u128, stake_extracted: u128, share: u128) -> (r:
    Result<ShareResponse, StdError>)
    requires
        stake_extracted <= stake_balance ==> total_lp > 0,
        stake_extracted <= stake_balance ==> ratio((stake_balance - stake_extracted) as int, share as int, total_lp as int) <= max_u128(),
    ensures
        r is Ok <==> stake_extracted <= stake_balance,
        r matches Ok(s) ==> s.share == share && s.total_lp == total_lp && s.received_asset
            == spec_withdraw_amount(total_lp as int, share as int, stake_balance - stake_extracted),
        r matches Err(e) ==> e == StdError::Overflow,
{
    if stake_extracted > stake_balance {
        return Err(StdError::Overflow);
    }
    let stake_available = stake_balance - stake_extracted;
    let received_asset = compute_withdraw_amount(total_lp, share, stake_available);
    Ok(ShareResponse { received_asset, share, total_lp })
}

/// Checks that a received CW20 token is the one expected (the LP token for a
/// withdrawal, the stake token for a deposit); the error names the token that
/// came.
pub fn check_received_token(sender: &String, expected: &String, what: &str) -> (r: Result<(), StdError>)
    ensures
        r is Ok <==> sender@ == expected@,
        r matches Err(e) ==> e matches StdError::GenericErr { msg } && msg@ == "expecting "@ + what@ + " token, received "@ + sender@,
{
    if sender.eq(expected) {
        Ok(())
    } else {
        let mut msg = String::from_str("expecting ");
        msg.append(what);
        msg.append(" token, received ");
        msg.append(sender.as_str());
        Err(StdError::GenericErr { msg })
    }
}

/// Who owns the extractor, and who was proposed to own it next.
#[derive(Debug, PartialEq, Eq)]
pub struct Ownership {
    pub owner: String,
    pub new_owner: Option<String>,
}

/// Only the owner passes.
pub fn assert_owner(owner: &String, sender: &String) -> (r: Result<(), StdError>)
    ensures
        r is Ok <==> sender@ == owner@,
        r is Err ==> generic_msg(r) == Some("unauthorized: sender is not owner"@),
{
    if sender.eq(owner) {
        Ok(())
    } else {
        Err(StdError::generic_err("unauthorized: sender is not owner"))
    }
}

/// The owner proposes `new_owner`; the ownership changes only once the
/// proposed owner accepts.
pub fn transfer_ownership(o: &mut Ownership, sender: &String, new_owner: String) -> (r: Result<(), StdError>)
    ensures
        r is Ok <==> sender@ == old(o).owner@,
        r is Ok ==> final(o).owner == old(o).owner && final(o).new_owner == Some(new_owner),
        r is Err ==> *final(o) == *old(o) && generic_msg(r) == Some("unauthorized: sender is not owner"@),
{
    if !sender.eq(&o.owner) {
        return Err(StdError::generic_err("unauthorized: sender is not owner"));
    }
    o.new_owner = Some(new_owner);
    Ok(())
}

/// The proposed owner takes the ownership over.
pub fn accept_ownership(o: &mut Ownership, sender: &String) -> (r: Result<(), StdError>)
    ensures
        r is Ok <==> (old(o).new_owner matches Some(n) && sender@ == n@),
        r is Ok ==> final(o).owner@ == sender@ && final(o).new_owner is None,
        r is Err ==> *final(o) == *old(o) && generic_msg(r) == Some("unauthorized: sender is not new owner"@),
{
    let accepted = match &o.new_owner {
        Some(n) => sender.eq(n),
        None => false,
    };
    if !accepted {
        return Err(StdError::generic_err("unauthorized: sender is not new owner"));
    }
    o.owner = sender.clone();
    o.new_owner = None;
    Ok(())
}

} // verus!
