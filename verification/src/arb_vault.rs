//! The arbitrage vault: a pool of the underlying token that buys liquid
//! staking tokens below their value, unbonds them, and keeps the profit for
//! its LP holders. Here: the pool's balances, the check of an arbitrage's
//! result and its fee, the unbonding ledger of withdrawing users, and the
//! value of what the liquid staking adapters hold unbonding.
use vstd::prelude::*;
use vstd::string::StringExecFns;
use crate::decimal::{
    frac, max_u128, ratio, lemma_ratio_floor, lemma_div_le_bound, lemma_ratio_monotone, Decimal,
    mul_uint,
};
use crate::error::StdError;
use crate::text::{decimal_string, push_decimal};

verus! {

/// The errors of the arbitrage vault.
#[derive(Debug, PartialEq, Eq)]
pub enum ContractError {
    Std(StdError),
    Overflow,
    Unauthorized,
    CallbackOnlyCalledByContract,
    AlreadyExecuting,
    NotExecuting,
    AssetUnknown,
    NothingToUnbond,
    NotEnoughProfit,
    DoNotTakeLockedBalance,
    UnbondTimeTooHigh,
    CannotFindInstantiateEvent,
    CannotFindContractAddress,
    CalculationError(String, String),
    AdapterErrorEmpty { adapter: String, msg: String },
}

/// A liquid staking protocol the vault trades, with its hub and token.
#[derive(Debug, PartialEq, Eq)]
pub enum LsdType {
    Eris { addr: String, cw20: String },
    Backbone { addr: String, cw20: String },
    Stader { addr: String, cw20: String },
    Prism { addr: String, cw20: String },
}

/// A liquid staking protocol as configured.
#[derive(Debug, PartialEq, Eq)]
pub struct LsdConfig {
    pub disabled: bool,
    pub name: String,
    pub lsd_type: LsdType,
}

/// Which protocol a type names, as the tag and the two addresses.
pub open spec fn lsd_type_view(t: LsdType) -> (int, Seq<char>, Seq<char>) {
    match t {
        LsdType::Eris { addr, cw20 } => (0, addr@, cw20@),
        LsdType::Backbone { addr, cw20 } => (1, addr@, cw20@),
        LsdType::Stader { addr, cw20 } => (2, addr@, cw20@),
        LsdType::Prism { addr, cw20 } => (3, addr@, cw20@),
    }
}

/// A configuration as disabled flag, name, tag and addresses.
pub open spec fn lsd_config_view(c: LsdConfig) -> (bool, Seq<char>, (int, Seq<char>, Seq<char>)) {
    (c.disabled, c.name@, lsd_type_view(c.lsd_type))
}

/// The four protocols the vault is set up with by default.
pub fn create_default_lsd_configs() -> (r: Vec<LsdConfig>)
    ensures
        r@.len() == 4,
        lsd_config_view(r@[0]) == (false, "eris"@, (0int, "eris"@, "eriscw"@)),
        lsd_config_view(r@[1]) == (false, "backbone"@, (1int, "backbone"@, "backbonecw"@)),
        lsd_config_view(r@[2]) == (false, "stader"@, (2int, "stader"@, "stadercw"@)),
        lsd_config_view(r@[3]) == (false, "prism"@, (3int, "prism"@, "prismcw"@)),
{
    let mut v: Vec<LsdConfig> = Vec::new();
    v.push(LsdConfig {
        disabled: false,
        name: String::from_str("eris"),
        lsd_type: LsdType::Eris { addr: String::from_str("eris"), cw20: String::from_str("eriscw") },
    });
    v.push(LsdConfig {
        disabled: false,
        name: String::from_str("backbone"),
        lsd_type: LsdType::Backbone {
            addr: String::from_str("backbone"),
            cw20: String::from_str("backbonecw"),
        },
    });
    v.push(LsdConfig {
        disabled: false,
        name: String::from_str("stader"),
        lsd_type: LsdType::Stader { addr: String::from_str("stader"), cw20: String::from_str("stadercw") },
    });
    v.push(LsdConfig {
        disabled: false,
        name: String::from_str("prism"),
        lsd_type: LsdType::Prism { addr: String::from_str("prism"), cw20: String::from_str("prismcw") },
    });
    v
}

/// An unbonding of a user's withdrawal, released linearly.
#[derive(Clone, Copy, Debug, PartialEq, Eq, Structural)]
pub struct UnbondHistory {
    pub start_time: u64,
    pub release_time: u64,
    pub amount_asset: u128,
}

/// The progress of an unbonding: the elapsed share of its time, at most one.
pub open spec fn spec_progress(h: UnbondHistory, current_time: int) -> int {
    let p = ratio(current_time - h.start_time, frac(), h.release_time - h.start_time);
    if p <= frac() { p } else { frac() }
}

impl UnbondHistory {
    /// The share of the pool fee still due when withdrawing now: one at the
    /// start, falling linearly to zero at the release time.
    pub fn pool_fee_factor(&self, current_time: u64) -> (r: Decimal)
        requires
            self.start_time <= current_time,
            self.start_time < self.release_time,
        ensures
            r.val() == frac() - spec_progress(*self, current_time as int),
            0 <= r.val() <= frac(),
    {
        let elapsed = current_time - self.start_time;
        let length = self.release_time - self.start_time;
        proof {
            if elapsed <= length {
                assert(elapsed * frac() <= length * frac()) by (nonlinear_arith)
                    requires
                        elapsed <= length,
                ;
                lemma_div_le_bound(elapsed as int * frac(), length as int, frac());
            } else {
                assert(elapsed * frac() <= length * (elapsed as int * frac())) by (nonlinear_arith)
                    requires
                        length >= 1,
                        elapsed >= 0,
                ;
                lemma_div_le_bound(elapsed as int * frac(), length as int, elapsed as int * frac());
                assert(elapsed as int * frac() <= 18446744073709551615 * frac()) by (nonlinear_arith)
                    requires
                        elapsed <= 18446744073709551615,
                ;
            }
        }
        let progress = Decimal::from_ratio(elapsed as u128, length as u128).min(Decimal::one());
        Decimal::one().sub(progress)
    }
}

/// The pool fee factor never grows as time passes, and is zero from the
/// release time on.
pub proof fn law_pool_fee_factor_decays(h: UnbondHistory, t1: u64, t2: u64)
    requires
        h.start_time <= t1 <= t2,
        h.start_time < h.release_time,
    ensures
        frac() - spec_progress(h, t2 as int) <= frac() - spec_progress(h, t1 as int),
        t2 >= h.release_time ==> frac() - spec_progress(h, t2 as int) == 0,
        frac() - spec_progress(h, h.start_time as int) == frac(),
{
    let len = h.release_time - h.start_time;
    lemma_ratio_monotone(t1 - h.start_time, t2 - h.start_time, frac(), frac(), len);
    if t2 >= h.release_time {
        lemma_ratio_monotone(len, t2 - h.start_time, frac(), frac(), len);
        vstd::arithmetic::div_mod::lemma_div_multiples_vanish(frac(), len);
        assert(len * frac() == frac() * len) by (nonlinear_arith);
    }
    assert(0int * frac() == 0);
    vstd::arithmetic::div_mod::lemma_div_basics(len);
}

/// The pool's balances.
#[derive(Clone, Copy, Debug, PartialEq, Eq, Structural)]
pub struct Balances {
    /// available + unbonding + withdrawable
    pub tvl_utoken: u128,
    pub lsd_unbonding: u128,
    pub lsd_withdrawable: u128,
    /// tvl less what is locked for users' withdrawals (at least zero)
    pub vault_total: u128,
    pub vault_available: u128,
    /// available less what is locked (at least zero)
    pub vault_takeable: u128,
    pub locked_user_withdrawls: u128,
}

/// `a - b`, or zero where `b` is larger.
pub open spec fn sat_sub(a: int, b: int) -> int {
    if a >= b { a - b } else { 0 }
}

/// How the balances of a pool relate: what can be taken is part of the
/// pool's total, which is part of its value.
pub open spec fn balances_ordered(b: Balances) -> bool {
    b.vault_takeable <= b.vault_total <= b.tvl_utoken
}

/// The pool's balances from the underlying token it holds, what is locked
/// for withdrawing users, and what the adapters hold unbonding and
/// withdrawable; fails with an overflow where the total does not fit.
pub fn total_assets(vault_available: u128, locked: u128, lsd_unbonding: u128, lsd_withdrawable: u128) -> (r:
    Result<Balances, ContractError>)
    ensures
        r is Ok <==> vault_available + lsd_unbonding + lsd_withdrawable <= max_u128(),
        r is Err ==> r == Err::<Balances, ContractError>(ContractError::Overflow),
        r matches Ok(b) ==> {
            &&& balances_ordered(b)
            &&& b.tvl_utoken == vault_available + lsd_unbonding + lsd_withdrawable
            &&& b.lsd_unbonding == lsd_unbonding
            &&& b.lsd_withdrawable == lsd_withdrawable
            &&& b.vault_total == sat_sub(b.tvl_utoken as int, locked as int)
            &&& b.vault_available == vault_available
            &&& b.vault_takeable == sat_sub(vault_available as int, locked as int)
            &&& b.locked_user_withdrawls == locked
        },
{
    let tvl_utoken = match vault_available.checked_add(lsd_unbonding) {
        Some(v) => match v.checked_add(lsd_withdrawable) {
            Some(w) => w,
            None => return Err(ContractError::Overflow),
        },
        None => return Err(ContractError::Overflow),
    };
    let vault_total = if tvl_utoken >= locked { tvl_utoken - locked } else { 0 };
    let vault_takeable = if vault_available >= locked { vault_available - locked } else { 0 };
    Ok(Balances {
        tvl_utoken,
        lsd_unbonding,
        lsd_withdrawable,
        vault_total,
        vault_available,
        vault_takeable,
        locked_user_withdrawls: locked,
    })
}

/// What can be taken never exceeds what is held, and the pool's total is
/// never below what can be taken.
pub proof fn law_balances_ordered(b: Balances, vault_available: u128, locked: u128, lsd_unbonding: u128, lsd_withdrawable: u128)
    requires
        b.tvl_utoken == vault_available + lsd_unbonding + lsd_withdrawable,
        b.vault_total == sat_sub(b.tvl_utoken as int, locked as int),
        b.vault_available == vault_available,
        b.vault_takeable == sat_sub(vault_available as int, locked as int),
    ensures
        b.vault_takeable <= b.vault_available <= b.tvl_utoken,
        b.vault_takeable <= b.vault_total <= b.tvl_utoken,
{
}

/// The balances when an arbitrage started.
#[derive(Clone, Copy, Debug, PartialEq, Eq, Structural)]
pub struct BalanceCheckpoint {
    pub vault_available: u128,
    pub tvl_utoken: u128,
}

/// An arbitrage may not start while one is executing.
pub fn assert_not_nested(checkpoint: &Option<BalanceCheckpoint>) -> (r: Result<(), ContractError>)
    ensures
        r is Ok <==> checkpoint is None,
        r is Err ==> r == Err::<(), ContractError>(ContractError::AlreadyExecuting),
{
    match checkpoint {
        Some(_) => Err(ContractError::AlreadyExecuting),
        None => Ok(()),
    }
}

/// The result of an arbitrage is checked only while one is executing.
pub fn assert_is_nested(checkpoint: &Option<BalanceCheckpoint>) -> (r: Result<BalanceCheckpoint, ContractError>)
    ensures
        checkpoint matches Some(c) ==> r == Ok::<BalanceCheckpoint, ContractError>(*c),
        checkpoint is None ==> r == Err::<BalanceCheckpoint, ContractError>(ContractError::NotExecuting),
{
    match checkpoint {
        Some(c) => Ok(*c),
        None => Err(ContractError::NotExecuting),
    }
}

/// Only the owner passes; returns the owner.
pub fn assert_owner(owner: &String, sender: &String) -> (r: Result<String, ContractError>)
    ensures
        r is Ok <==> sender@ == owner@,
        r matches Ok(o) ==> o@ == owner@,
        r is Err ==> r == Err::<String, ContractError>(ContractError::Unauthorized),
{
    if sender.eq(owner) {
        Ok(owner.clone())
    } else {
        Err(ContractError::Unauthorized)
    }
}

/// Callbacks may only come from the contract itself.
pub fn assert_callback_sender(contract: &String, sender: &String) -> (r: Result<(), ContractError>)
    ensures
        r is Ok <==> sender@ == contract@,
        r is Err ==> r == Err::<(), ContractError>(ContractError::CallbackOnlyCalledByContract),
{
    if contract.eq(sender) {
        Ok(())
    } else {
        Err(ContractError::CallbackOnlyCalledByContract)
    }
}

/// What is locked for withdrawing users, the id of the next unbonding, and
/// the unbondings recorded, each under its user and id.
#[derive(Debug, PartialEq, Eq)]
pub struct UnbondLedger {
    pub balance_locked: u128,
    pub unbond_id: u64,
    pub history: Vec<(String, u64, UnbondHistory)>,
}

/// Records a user's unbonding: its amount is locked, and it is stored under
/// the user and the current id, which then advances. Returns the id it was
/// stored under.
pub fn add_to_unbond_history(ledger: &mut UnbondLedger, sender: String, element: &UnbondHistory) -> (id: u64)
    requires
        old(ledger).balance_locked + element.amount_asset <= max_u128(),
        old(ledger).unbond_id < 18446744073709551615,
    ensures
        id == old(ledger).unbond_id,
        final(ledger).unbond_id == old(ledger).unbond_id + 1,
        final(ledger).balance_locked == old(ledger).balance_locked + element.amount_asset,
        final(ledger).history@ == old(ledger).history@.push((sender, id, *element)),
{
    ledger.balance_locked = ledger.balance_locked + element.amount_asset;
    let id = ledger.unbond_id;
    ledger.history.push((sender, id, *element));
    ledger.unbond_id = id + 1;
    id
}

/// How an arbitrage's fee is paid: in the underlying token, or in the
/// liquid staking token bought.
#[derive(Clone, Copy, Debug, PartialEq, Eq, Structural)]
pub enum FeeTransfer {
    Utoken(u128),
    Xtoken(u128),
}

/// What the check of an arbitrage computes.
#[derive(Clone, Copy, Debug, PartialEq, Eq, Structural)]
pub struct ArbOutcome {
    /// The value of the tokens bought.
    pub xvalue: u128,
    /// The pool's value when the arbitrage started.
    pub old_tvl: u128,
    /// The pool's value now, the bought tokens counted.
    pub new_tvl: u128,
    /// The underlying token spent.
    pub used_balance: u128,
    pub profit: u128,
    /// The bought tokens to unbond.
    pub unbond_xamount: u128,
    pub fee: FeeTransfer,
    /// Pool value per LP share once the bought tokens count and the fee
    /// is paid.
    pub exchange_rate: Decimal,
}

/// The inputs of the check of an arbitrage.
#[derive(Clone, Copy, Debug, PartialEq, Eq, Structural)]
pub struct ArbInput {
    /// The balances when the arbitrage started.
    pub old: BalanceCheckpoint,
    /// The balances now.
    pub new: Balances,
    /// The liquid staking tokens now held.
    pub xbalance: u128,
    /// Underlying tokens per liquid staking token.
    pub xfactor: Decimal,
    /// The profit the executor asked for.
    pub wanted_profit: Decimal,
    /// The protocol's performance fee.
    pub performance_fee: Decimal,
    pub total_lp_supply: u128,
}

/// The value of the tokens bought.
pub open spec fn arb_xvalue(i: ArbInput) -> int {
    ratio(i.xbalance as int, i.xfactor.val(), frac())
}

pub open spec fn arb_new_value(i: ArbInput) -> int {
    i.new.tvl_utoken + arb_xvalue(i)
}

pub open spec fn arb_used(i: ArbInput) -> int {
    i.old.vault_available - i.new.vault_available
}

pub open spec fn arb_profit(i: ArbInput) -> int {
    arb_new_value(i) - i.old.tvl_utoken
}

/// The profit as a share of what was spent.
pub open spec fn arb_profit_share(i: ArbInput) -> int {
    ratio(arb_profit(i), frac(), arb_used(i))
}

/// 90 % of the wanted profit: some slippage is allowed.
pub open spec fn arb_min_profit(i: ArbInput) -> int {
    ratio(i.wanted_profit.val(), 900_000_000_000_000_000int, frac())
}

pub open spec fn arb_fee_amount(i: ArbInput) -> int {
    ratio(arb_profit(i), i.performance_fee.val(), frac())
}

/// The fee converted into the liquid staking token.
pub open spec fn arb_fee_xamount(i: ArbInput) -> int {
    ratio(arb_fee_amount(i), ratio(frac(), frac(), i.xfactor.val()), frac())
}

/// Whether the fee can be paid in the underlying token.
pub open spec fn arb_fee_in_utoken(i: ArbInput) -> bool {
    i.new.vault_takeable >= arb_fee_amount(i)
}

/// The checks before the fee all pass.
pub open spec fn arb_checks_pass(i: ArbInput) -> bool {
    &&& arb_new_value(i) <= max_u128()
    &&& arb_used(i) >= 0
    &&& arb_profit(i) >= 0
    &&& i.xbalance != 0
    &&& arb_profit_share(i) >= arb_min_profit(i)
    &&& i.new.vault_available >= i.new.locked_user_withdrawls
}

/// What the LP holders own once the arbitrage settles: the pool's total,
/// plus the bought tokens, less the fee (paid from the underlying token, or
/// from the bought tokens before they are valued).
pub open spec fn arb_settled_value(i: ArbInput) -> int {
    if arb_fee_in_utoken(i) {
        i.new.vault_total + arb_xvalue(i) - arb_fee_amount(i)
    } else {
        i.new.vault_total + ratio(i.xbalance - arb_fee_xamount(i), i.xfactor.val(), frac())
    }
}

/// The inputs on which the check computes without a panic: every product
/// and quotient it takes fits, and no divisor is zero.
pub open spec fn arb_defined(i: ArbInput) -> bool {
    &&& arb_xvalue(i) <= max_u128()
    &&& (arb_new_value(i) <= max_u128() && arb_used(i) >= 0 && arb_profit(i) >= 0) ==> {
        &&& arb_used(i) > 0
        &&& arb_profit_share(i) <= max_u128()
        &&& arb_min_profit(i) <= max_u128()
    }
    &&& arb_checks_pass(i) ==> {
        &&& arb_fee_amount(i) <= max_u128()
        &&& !arb_fee_in_utoken(i) ==> i.xfactor.val() > 0 && ratio(frac(), frac(), i.xfactor.val()) <= max_u128() && arb_fee_xamount(i) <= max_u128()
        &&& (arb_fee_in_utoken(i) || arb_fee_xamount(i) <= i.xbalance) ==> i.total_lp_supply > 0 && ratio(arb_settled_value(i), frac(), i.total_lp_supply as int) <= max_u128()
    }
}

/// The message of a failed subtraction.
pub open spec fn sub_overflow_msg(a: int, b: int) -> Seq<char> {
    "Cannot Sub with "@ + decimal_string(a as nat) + " and "@ + decimal_string(b as nat)
}

fn sub_overflow_message(a: u128, b: u128) -> (r: String)
    ensures
        r@ == sub_overflow_msg(a as int, b as int),
{
    let mut s = String::from_str("Cannot Sub with ");
    push_decimal(&mut s, a);
    s.append(" and ");
    push_decimal(&mut s, b);
    s
}

/// Checks the result of an arbitrage and computes its fee: the bought
/// tokens are valued at `xfactor`; the profit is the growth of the pool's
/// value, and must be at least 90 % of the profit wanted per unit spent;
/// the locked balance must not have been touched. The performance fee is
/// paid in the underlying token where the takeable balance covers it, else
/// in the bought tokens, which are then unbonded less the fee.
pub fn check_arbitrage(i: &ArbInput) -> (r: Result<ArbOutcome, ContractError>)
    requires
        balances_ordered(i.new),
        arb_defined(*i),
    ensures
        arb_new_value(*i) > max_u128() ==> r == Err::<ArbOutcome, ContractError>(ContractError::Overflow),
        arb_new_value(*i) <= max_u128() && arb_used(*i) < 0 ==> (r matches Err(ContractError::CalculationError(a, b)) && a@ == "used balance"@ && b@ == sub_overflow_msg(i.old.vault_available as int, i.new.vault_available as int)),
        arb_new_value(*i) <= max_u128() && arb_used(*i) >= 0 && arb_profit(*i) < 0 ==> (r matches Err(ContractError::CalculationError(a, b)) && a@ == "profit"@ && b@ == sub_overflow_msg(arb_new_value(*i), i.old.tvl_utoken as int)),
        arb_new_value(*i) <= max_u128() && arb_used(*i) >= 0 && arb_profit(*i) >= 0 ==> {
            &&& i.xbalance == 0 ==> r == Err::<ArbOutcome, ContractError>(ContractError::NothingToUnbond)
            &&& i.xbalance != 0 && arb_profit_share(*i) < arb_min_profit(*i) ==> r == Err::<ArbOutcome, ContractError>(ContractError::NotEnoughProfit)
            &&& i.xbalance != 0 && arb_profit_share(*i) >= arb_min_profit(*i) && i.new.vault_available < i.new.locked_user_withdrawls ==> r == Err::<ArbOutcome, ContractError>(ContractError::DoNotTakeLockedBalance)
        },
        arb_checks_pass(*i) && !arb_fee_in_utoken(*i) && arb_fee_xamount(*i) > i.xbalance ==> r == Err::<ArbOutcome, ContractError>(ContractError::Overflow),
        r is Ok <==> arb_checks_pass(*i) && (arb_fee_in_utoken(*i) || arb_fee_xamount(*i) <= i.xbalance),
        r matches Ok(o) ==> {
            &&& o.xvalue == arb_xvalue(*i)
            &&& o.old_tvl == i.old.tvl_utoken
            &&& o.new_tvl == arb_new_value(*i)
            &&& o.used_balance == arb_used(*i)
            &&& o.profit == arb_profit(*i)
            &&& o.fee == if arb_fee_in_utoken(*i) { FeeTransfer::Utoken(arb_fee_amount(*i) as u128) } else { FeeTransfer::Xtoken(arb_fee_xamount(*i) as u128) }
            &&& o.unbond_xamount == if arb_fee_in_utoken(*i) { i.xbalance as int } else { i.xbalance - arb_fee_xamount(*i) }
            &&& o.exchange_rate.val() == ratio(arb_settled_value(*i), frac(), i.total_lp_supply as int)
            &&& o.exchange_rate.val() <= (i.new.vault_total + o.xvalue) * frac() / (i.total_lp_supply as int)
        },
{
    let xvalue = mul_uint(i.xbalance, i.xfactor);
    let old_value = i.old.tvl_utoken;
    let new_value = match i.new.tvl_utoken.checked_add(xvalue) {
        Some(v) => v,
        None => return Err(ContractError::Overflow),
    };
    if i.old.vault_available < i.new.vault_available {
        return Err(ContractError::CalculationError(
            String::from_str("used balance"),
            sub_overflow_message(i.old.vault_available, i.new.vault_available),
        ));
    }
    let used_balance = i.old.vault_available - i.new.vault_available;
    if new_value < old_value {
        return Err(ContractError::CalculationError(
            String::from_str("profit"),
            sub_overflow_message(new_value, old_value),
        ));
    }
    let profit = new_value - old_value;
    let profit_percentage = Decimal::from_ratio(profit, used_balance);
    let min_profit_percent = i.wanted_profit.mul(Decimal::percent(90));
    if i.xbalance == 0 {
        return Err(ContractError::NothingToUnbond);
    }
    if profit_percentage.lt(&min_profit_percent) {
        return Err(ContractError::NotEnoughProfit);
    }
    if i.new.vault_available < i.new.locked_user_withdrawls {
        return Err(ContractError::DoNotTakeLockedBalance);
    }
    let fee_amount = mul_uint(profit, i.performance_fee);
    let mut unbond_xamount = i.xbalance;
    let fee = if i.new.vault_takeable >= fee_amount {
        FeeTransfer::Utoken(fee_amount)
    } else {
        let inverse = Decimal::one().div(i.xfactor);
        let fee_xamount = mul_uint(fee_amount, inverse);
        if fee_xamount > unbond_xamount {
            return Err(ContractError::Overflow);
        }
        unbond_xamount = unbond_xamount - fee_xamount;
        FeeTransfer::Xtoken(fee_xamount)
    };
    let settled = match fee {
        FeeTransfer::Utoken(f) => i.new.vault_total + xvalue - f,
        FeeTransfer::Xtoken(_) => {
            proof {
                lemma_ratio_monotone(unbond_xamount as int, i.xbalance as int, i.xfactor.val(), i.xfactor.val(), frac());
            }
            i.new.vault_total + mul_uint(unbond_xamount, i.xfactor)
        },
    };
    let exchange_rate = Decimal::from_ratio(settled, i.total_lp_supply);
    proof {
        law_arbitrage_rate_bounded(*i);
    }
    Ok(ArbOutcome {
        xvalue,
        old_tvl: old_value,
        new_tvl: new_value,
        used_balance,
        profit,
        unbond_xamount,
        fee,
        exchange_rate,
    })
}

/// An accepted arbitrage made at least 90 % of the wanted profit per unit
/// spent, never pays a fee larger than the profit where the fee is at most
/// 100 %, pays a fee in the underlying token only out of the takeable
/// balance, and unbonds at most the tokens it bought.
pub proof fn law_arbitrage_accepted(i: ArbInput)
    requires
        arb_defined(i),
        arb_checks_pass(i),
        arb_fee_in_utoken(i) || arb_fee_xamount(i) <= i.xbalance,
        i.performance_fee.val() <= frac(),
    ensures
        arb_profit_share(i) >= arb_min_profit(i),
        arb_fee_amount(i) <= arb_profit(i),
        arb_fee_in_utoken(i) ==> arb_fee_amount(i) <= i.new.vault_takeable,
        !arb_fee_in_utoken(i) ==> 0 <= i.xbalance - arb_fee_xamount(i) <= i.xbalance,
{
    lemma_ratio_monotone(arb_profit(i), arb_profit(i), i.performance_fee.val(), frac(), frac());
    vstd::arithmetic::div_mod::lemma_div_multiples_vanish(arb_profit(i), frac());
    assert(arb_profit(i) * frac() == frac() * arb_profit(i)) by (nonlinear_arith);
    lemma_ratio_floor(arb_profit(i), i.performance_fee.val(), frac());
    if !arb_fee_in_utoken(i) {
        let inv = ratio(frac(), frac(), i.xfactor.val());
        lemma_ratio_floor(frac(), frac(), i.xfactor.val());
        lemma_ratio_floor(arb_fee_amount(i), inv, frac());
    }
}

/// What the LP holders own after an accepted arbitrage is at most the
/// pool's total (which leaves out what is locked for withdrawing users)
/// plus the value of the bought tokens, whichever way the fee is paid; so
/// the reported exchange rate is at most that over the LP supply, and
/// stake locked for withdrawals never counts toward it.
pub proof fn law_arbitrage_rate_bounded(i: ArbInput)
    requires
        balances_ordered(i.new),
        arb_defined(i),
        arb_checks_pass(i),
        arb_fee_in_utoken(i) || arb_fee_xamount(i) <= i.xbalance,
    ensures
        0 <= arb_settled_value(i) <= i.new.vault_total + i.xbalance * i.xfactor.val() / frac(),
        ratio(arb_settled_value(i), frac(), i.total_lp_supply as int)
            <= (i.new.vault_total + i.xbalance * i.xfactor.val() / frac()) * frac() / (i.total_lp_supply as int),
{
    let xv = arb_xvalue(i);
    lemma_ratio_floor(i.xbalance as int, i.xfactor.val(), frac());
    if arb_fee_in_utoken(i) {
        lemma_ratio_floor(arb_profit(i), i.performance_fee.val(), frac());
    } else {
        let fx = arb_fee_xamount(i);
        lemma_ratio_floor(frac(), frac(), i.xfactor.val());
        lemma_ratio_floor(arb_fee_amount(i), ratio(frac(), frac(), i.xfactor.val()), frac());
        lemma_ratio_floor(arb_profit(i), i.performance_fee.val(), frac());
        lemma_ratio_monotone(i.xbalance - fx, i.xbalance as int, i.xfactor.val(), i.xfactor.val(), frac());
        lemma_ratio_floor(i.xbalance - fx, i.xfactor.val(), frac());
    }
    lemma_ratio_monotone(arb_settled_value(i), i.new.vault_total + xv, frac(), frac(), i.total_lp_supply as int);
}

/// An attribute of an event.
#[derive(Debug, PartialEq, Eq)]
pub struct Attribute {
    pub key: String,
    pub value: String,
}

/// An event of a submessage's response.
#[derive(Debug, PartialEq, Eq)]
pub struct Event {
    pub ty: String,
    pub attributes: Vec<Attribute>,
}

/// The index of the first event of type `instantiate`, or the number of
/// events.
pub open spec fn first_instantiate(events: Seq<Event>) -> int
    decreases events.len(),
{
    if events.len() == 0 {
        0
    } else if events[0].ty@ == "instantiate"@ {
        0
    } else {
        1 + first_instantiate(events.drop_first())
    }
}

/// Whether an attribute names the instantiated contract's address.
pub open spec fn is_address_key(a: Attribute) -> bool {
    a.key@ == "_contract_address"@ || a.key@ == "_contract_addr"@
}

/// The index of the first attribute naming the address, or the number of
/// attributes.
pub open spec fn first_address(attrs: Seq<Attribute>) -> int
    decreases attrs.len(),
{
    if attrs.len() == 0 {
        0
    } else if is_address_key(attrs[0]) {
        0
    } else {
        1 + first_address(attrs.drop_first())
    }
}

proof fn lemma_first_instantiate(events: Seq<Event>, k: int)
    requires
        0 <= k <= events.len(),
        forall|j: int| 0 <= j < k ==> (#[trigger] events[j]).ty@ != "instantiate"@,
        k < events.len() ==> events[k].ty@ == "instantiate"@,
    ensures
        first_instantiate(events) == k,
    decreases events.len(),
{
    if events.len() > 0 && k > 0 {
        assert forall|j: int| 0 <= j < k - 1 implies (#[trigger] events.drop_first()[j]).ty@ != "instantiate"@ by {
            assert(events.drop_first()[j] == events[j + 1]);
        }
        lemma_first_instantiate(events.drop_first(), k - 1);
    }
}

proof fn lemma_first_address(attrs: Seq<Attribute>, k: int)
    requires
        0 <= k <= attrs.len(),
        forall|j: int| 0 <= j < k ==> !is_address_key(#[trigger] attrs[j]),
        k < attrs.len() ==> is_address_key(attrs[k]),
    ensures
        first_address(attrs) == k,
    decreases attrs.len(),
{
    if attrs.len() > 0 && k > 0 {
        assert forall|j: int| 0 <= j < k - 1 implies !is_address_key(#[trigger] attrs.drop_first()[j]) by {
            assert(attrs.drop_first()[j] == attrs[j + 1]);
        }
        lemma_first_address(attrs.drop_first(), k - 1);
    }
}

/// The address of the LP token from the events of its instantiation: the
/// value of the first `_contract_address` (or `_contract_addr`) attribute of
/// the first `instantiate` event.
pub fn find_lp_token_address(events: &Vec<Event>) -> (r: Result<String, ContractError>)
    ensures
        first_instantiate(events@) == events@.len() ==> r == Err::<String, ContractError>(ContractError::CannotFindInstantiateEvent),
        first_instantiate(events@) < events@.len() ==> ({
            let attrs = events@[first_instantiate(events@)].attributes@;
            &&& first_address(attrs) == attrs.len() ==> r == Err::<String, ContractError>(ContractError::CannotFindContractAddress)
            &&& first_address(attrs) < attrs.len() ==> (r matches Ok(a) && a@ == attrs[first_address(attrs)].value@)
        }),
{
    let mut i: usize = 0;
    while i < events.len()
        invariant
            i <= events@.len(),
            forall|j: int| 0 <= j < i ==> (#[trigger] events@[j]).ty@ != "instantiate"@,
        decreases events@.len() - i,
    {
        if crate::hub::str_eq(events[i].ty.as_str(), "instantiate") {
            proof {
                lemma_first_instantiate(events@, i as int);
            }
            let attrs = &events[i].attributes;
            let mut k: usize = 0;
            while k < attrs.len()
                invariant
                    k <= attrs@.len(),
                    i < events@.len(),
                    first_instantiate(events@) == i,
                    attrs@ == events@[i as int].attributes@,
                    forall|j: int| 0 <= j < k ==> !is_address_key(#[trigger] attrs@[j]),
                decreases attrs@.len() - k,
            {
                if crate::hub::str_eq(attrs[k].key.as_str(), "_contract_address")
                    || crate::hub::str_eq(attrs[k].key.as_str(), "_contract_addr") {
                    proof {
                        lemma_first_address(attrs@, k as int);
                    }
                    return Ok(attrs[k].value.clone());
                }
                k = k + 1;
            }
            proof {
                lemma_first_address(attrs@, k as int);
            }
            return Err(ContractError::CannotFindContractAddress);
        }
        i = i + 1;
    }
    proof {
        lemma_first_instantiate(events@, i as int);
    }
    Err(ContractError::CannotFindInstantiateEvent)
}

/// How much of the pool may be used for an arbitrage with a given profit:
/// steps of (profit, share of the pool).
#[derive(Debug, PartialEq, Eq)]
pub enum UtilizationMethod {
    Steps(Vec<(Decimal, Decimal)>),
}

/// The vault's configuration.
#[derive(Debug, PartialEq, Eq)]
pub struct Config {
    pub utoken: String,
    pub utilization_method: UtilizationMethod,
    pub unbond_time_s: u64,
    pub lp_addr: String,
    pub lsds: Vec<LsdConfig>,
}

/// The longest unbonding time the vault accepts: 100 days.
pub const MAX_UNBOND_TIME_S: u64 = 8640000;

/// Applies an update of the configuration by its owner: a new unbonding
/// time (at most 100 days), utilization method and protocols (given as the
/// outcome of validating their addresses); fields not given stay. Nothing
/// changes where the update fails.
pub fn update_config(
    config: Config,
    utilization_method: Option<UtilizationMethod>,
    unbond_time_s: Option<u64>,
    lsds: Option<Result<Vec<LsdConfig>, StdError>>,
) -> (r: Result<Config, ContractError>)
    ensures
        unbond_time_s matches Some(t) && t > MAX_UNBOND_TIME_S ==> r == Err::<Config, ContractError>(ContractError::UnbondTimeTooHigh),
        !(unbond_time_s matches Some(t) && t > MAX_UNBOND_TIME_S) ==> match lsds {
            Some(Err(e)) => r == Err::<Config, ContractError>(ContractError::Std(e)),
            _ => r matches Ok(c) && {
                &&& c.unbond_time_s == match unbond_time_s { Some(t) => t, None => config.unbond_time_s }
                &&& c.utilization_method == match utilization_method { Some(m) => m, None => config.utilization_method }
                &&& c.lsds == match lsds { Some(Ok(l)) => l, _ => config.lsds }
                &&& c.utoken == config.utoken
                &&& c.lp_addr == config.lp_addr
            },
        },
{
    let mut config = config;
    if let Some(t) = unbond_time_s {
        if t > MAX_UNBOND_TIME_S {
            return Err(ContractError::UnbondTimeTooHigh);
        }
        config.unbond_time_s = t;
    }
    if let Some(m) = utilization_method {
        config.utilization_method = m;
    }
    if let Some(l) = lsds {
        match l {
            Ok(v) => {
                config.lsds = v;
            },
            Err(e) => return Err(ContractError::Std(e)),
        }
    }
    Ok(config)
}

/// A user's unbonding at a liquid staking hub, valued at an exchange rate.
#[derive(Clone, Copy, Debug, PartialEq, Eq, Structural)]
pub struct UndelegationCacheItem {
    pub token_amount: u128,
    pub reconciled: bool,
    pub exchange_rate: Decimal,
    pub batch_id: u64,
}

/// The underlying value of the items whose batch is (`reconciled`) or is
/// not yet (`!reconciled`) reconciled.
pub open spec fn items_value(items: Seq<UndelegationCacheItem>, reconciled: bool) -> int
    decreases items.len(),
{
    if items.len() == 0 {
        0
    } else {
        let last = items.last();
        items_value(items.drop_last(), reconciled) + if last.reconciled == reconciled {
            ratio(last.token_amount as int, last.exchange_rate.val(), frac())
        } else {
            0
        }
    }
}

/// Every prefix of the items is valued at most as the whole, and values
/// are not negative.
pub proof fn lemma_items_value_prefix(items: Seq<UndelegationCacheItem>, reconciled: bool, k: int)
    requires
        0 <= k <= items.len(),
    ensures
        0 <= items_value(items.take(k), reconciled) <= items_value(items, reconciled),
    decreases items.len(),
{
    if items.len() > 0 {
        let last = items.last();
        lemma_ratio_floor(last.token_amount as int, last.exchange_rate.val(), frac());
        if k == items.len() {
            assert(items.take(k) =~= items);
            lemma_items_value_prefix(items.drop_last(), reconciled, k - 1);
            assert(items.drop_last().take(k - 1) =~= items.take(k).drop_last());
        } else {
            lemma_items_value_prefix(items.drop_last(), reconciled, k);
            assert(items.drop_last().take(k) =~= items.take(k));
            lemma_items_value_prefix(items.drop_last(), reconciled, items.len() - 1);
            assert(items.drop_last().take(items.len() - 1) =~= items.drop_last());
        }
    } else {
        assert(items.take(k) =~= items);
    }
}

/// The underlying value of the items still unbonding (`reconciled` false)
/// or ready to withdraw (`reconciled` true), where it fits.
pub fn items_value_of(items: &Vec<UndelegationCacheItem>, reconciled: bool) -> (r: u128)
    requires
        items_value(items@, reconciled) <= max_u128(),
    ensures
        r == items_value(items@, reconciled),
{
    let mut sum: u128 = 0;
    let mut i: usize = 0;
    while i < items.len()
        invariant
            i <= items@.len(),
            items_value(items@, reconciled) <= max_u128(),
            sum == items_value(items@.take(i as int), reconciled),
        decreases items@.len() - i,
    {
        proof {
            let t = items@.take(i as int + 1);
            assert(t.drop_last() =~= items@.take(i as int));
            lemma_items_value_prefix(items@, reconciled, i as int + 1);
            let it = items@[i as int];
            lemma_ratio_floor(it.token_amount as int, it.exchange_rate.val(), frac());
        }
        let item = items[i];
        if item.reconciled == reconciled {
            let v = mul_uint(item.token_amount, item.exchange_rate);
            sum = sum + v;
        }
        i = i + 1;
    }
    proof {
        assert(items@.take(i as int) =~= items@);
    }
    sum
}

/// The ids of the batches ready to withdraw from.
pub fn reconciled_batch_ids(items: &Vec<UndelegationCacheItem>) -> (r: Vec<u64>)
    ensures
        r@ == items@.filter(|it: UndelegationCacheItem| it.reconciled).map_values(|it: UndelegationCacheItem| it.batch_id),
{
    let mut out: Vec<u64> = Vec::new();
    let mut i: usize = 0;
    while i < items.len()
        invariant
            i <= items@.len(),
            out@ == items@.take(i as int).filter(|it: UndelegationCacheItem| it.reconciled).map_values(|it: UndelegationCacheItem| it.batch_id),
        decreases items@.len() - i,
    {
        proof {
            let t = items@.take(i as int + 1);
            assert(t.drop_last() =~= items@.take(i as int));
            reveal_with_fuel(Seq::<_>::filter, 1);
        }
        let ghost prev = out@;
        if items[i].reconciled {
            out.push(items[i].batch_id);
            proof {
                assert(out@ =~= items@.take(i as int + 1).filter(|it: UndelegationCacheItem| it.reconciled).map_values(|it: UndelegationCacheItem| it.batch_id));
            }
        } else {
            proof {
                assert(out@ =~= items@.take(i as int + 1).filter(|it: UndelegationCacheItem| it.reconciled).map_values(|it: UndelegationCacheItem| it.batch_id));
            }
        }
        i = i + 1;
    }
    proof {
        assert(items@.take(i as int) =~= items@);
    }
    out
}

/// A batch of a Steak (Backbone) hub that started unbonding.
#[derive(Clone, Copy, Debug, PartialEq, Eq, Structural)]
pub struct SteakBatch {
    pub reconciled: bool,
    pub total_shares: u128,
    pub amount_unclaimed: u128,
}

/// A user's unbonding request at a Steak hub as cached: a request in the
/// pending batch is valued at the hub's current exchange rate and is not
/// reconciled; one in a submitted batch at the batch's unclaimed amount per
/// share.
pub fn steak_cache_item(batch_id: u64, shares: u128, pending_id: u64, exchange_rate: Decimal, previous: Option<SteakBatch>) -> (r: UndelegationCacheItem)
    requires
        batch_id != pending_id ==> (previous matches Some(b) && b.total_shares > 0 && ratio(b.amount_unclaimed as int, frac(), b.total_shares as int) <= max_u128()),
    ensures
        r.batch_id == batch_id,
        r.token_amount == shares,
        batch_id == pending_id ==> !r.reconciled && r.exchange_rate == exchange_rate,
        batch_id != pending_id ==> (previous matches Some(b) && r.reconciled == b.reconciled && r.exchange_rate.val() == ratio(b.amount_unclaimed as int, frac(), b.total_shares as int)),
{
    if batch_id == pending_id {
        UndelegationCacheItem { batch_id, token_amount: shares, reconciled: false, exchange_rate }
    } else {
        let b = previous.unwrap();
        UndelegationCacheItem {
            batch_id,
            token_amount: shares,
            reconciled: b.reconciled,
            exchange_rate: Decimal::from_ratio(b.amount_unclaimed, b.total_shares),
        }
    }
}

/// A user's unbonding request at a Steak hub: its batch and its shares.
#[derive(Clone, Copy, Debug, PartialEq, Eq, Structural)]
pub struct SteakRequest {
    pub id: u64,
    pub shares: u128,
}

/// The cached items of a user's requests at a Steak hub, one per request
/// and in order, each as `steak_cache_item` makes it: `pending_id` is the
/// hub's pending batch, `exchange_rate` its current rate, and `previous[j]`
/// the batch of request `j` where that batch is not the pending one.
pub fn steak_cache_items(
    requests: &Vec<SteakRequest>,
    pending_id: u64,
    exchange_rate: Decimal,
    previous: &Vec<Option<SteakBatch>>,
) -> (r: Vec<UndelegationCacheItem>)
    requires
        previous@.len() == requests@.len(),
        forall|j: int| 0 <= j < requests@.len() && (#[trigger] requests@[j]).id != pending_id ==> (previous@[j] matches Some(b)
            && b.total_shares > 0 && ratio(b.amount_unclaimed as int, frac(), b.total_shares as int) <= max_u128()),
    ensures
        r@.len() == requests@.len(),
        forall|j: int| 0 <= j < requests@.len() ==> {
            let it = #[trigger] r@[j];
            let q = requests@[j];
            &&& it.batch_id == q.id
            &&& it.token_amount == q.shares
            &&& q.id == pending_id ==> !it.reconciled && it.exchange_rate == exchange_rate
            &&& q.id != pending_id ==> (previous@[j] matches Some(b) && it.reconciled == b.reconciled
                && it.exchange_rate.val() == ratio(b.amount_unclaimed as int, frac(), b.total_shares as int))
        },
{
    let mut out: Vec<UndelegationCacheItem> = Vec::new();
    let mut i: usize = 0;
    while i < requests.len()
        invariant
            i <= requests@.len(),
            previous@.len() == requests@.len(),
            forall|j: int| 0 <= j < requests@.len() && (#[trigger] requests@[j]).id != pending_id ==> (previous@[j] matches Some(b)
                && b.total_shares > 0 && ratio(b.amount_unclaimed as int, frac(), b.total_shares as int) <= max_u128()),
            out@.len() == i,
            forall|j: int| 0 <= j < i ==> {
                let it = #[trigger] out@[j];
                let q = requests@[j];
                &&& it.batch_id == q.id
                &&& it.token_amount == q.shares
                &&& q.id == pending_id ==> !it.reconciled && it.exchange_rate == exchange_rate
                &&& q.id != pending_id ==> (previous@[j] matches Some(b) && it.reconciled == b.reconciled
                    && it.exchange_rate.val() == ratio(b.amount_unclaimed as int, frac(), b.total_shares as int))
            },
        decreases requests@.len() - i,
    {
        let q = requests[i];
        proof {
            assert(requests@[i as int] == q);
        }
        let item = steak_cache_item(q.id, q.shares, pending_id, exchange_rate, previous[i]);
        out.push(item);
        i = i + 1;
    }
    out
}

/// A batch of a Stader hub.
#[derive(Clone, Copy, Debug, PartialEq, Eq, Structural)]
pub struct StaderBatch {
    pub reconciled: bool,
    pub undelegation_er: Decimal,
}

/// A user's undelegation at a Stader hub as cached: its batch must exist.
pub fn stader_cache_item(batch_id: u64, token_amount: u128, batch: Option<StaderBatch>) -> (r: Result<UndelegationCacheItem, ContractError>)
    ensures
        batch is None ==> (r matches Err(ContractError::AdapterErrorEmpty { adapter, msg }) && adapter@ == "stader"@ && msg@ == "expected batch"@),
        batch matches Some(b) ==> r == Ok::<UndelegationCacheItem, ContractError>(UndelegationCacheItem { batch_id, token_amount, reconciled: b.reconciled, exchange_rate: b.undelegation_er }),
{
    match batch {
        None => Err(ContractError::AdapterErrorEmpty {
            adapter: String::from_str("stader"),
            msg: String::from_str("expected batch"),
        }),
        Some(b) => Ok(UndelegationCacheItem { batch_id, token_amount, reconciled: b.reconciled, exchange_rate: b.undelegation_er }),
    }
}

/// An entry of a Prism hub's unbonding history.
#[derive(Clone, Copy, Debug, PartialEq, Eq, Structural)]
pub struct PrismHistory {
    pub batch_id: u64,
    pub released: bool,
    pub withdraw_rate: Decimal,
}

/// A user's unbond request at a Prism hub with the first history entry
/// found for its batch (none while the batch has not started unbonding).
#[derive(Clone, Copy, Debug, PartialEq, Eq, Structural)]
pub struct PrismRequest {
    pub id: u64,
    pub amount: u128,
    pub history: Option<PrismHistory>,
}

/// What a Prism request adds to the unbonding value: a request not yet
/// started counts at the hub's exchange rate, a started one at its batch's
/// withdraw rate unless released. `None` where the history found belongs
/// to another batch.
pub open spec fn prism_request_value(r: PrismRequest, exchange_rate: int) -> Option<int> {
    match r.history {
        None => Some(ratio(r.amount as int, exchange_rate, frac())),
        Some(h) => if h.batch_id != r.id {
            None
        } else if h.released {
            Some(0)
        } else {
            Some(ratio(r.amount as int, h.withdraw_rate.val(), frac()))
        },
    }
}

/// The unbonding value of the first requests, or `None` where one of them
/// has a history of another batch.
pub open spec fn prism_value(requests: Seq<PrismRequest>, exchange_rate: int) -> Option<int>
    decreases requests.len(),
{
    if requests.len() == 0 {
        Some(0)
    } else {
        match prism_value(requests.drop_last(), exchange_rate) {
            None => None,
            Some(v) => match prism_request_value(requests.last(), exchange_rate) {
                None => None,
                Some(w) => Some(v + w),
            },
        }
    }
}

/// The value of a user's unbond requests at a Prism hub still unbonding.
pub fn prism_unbonding(requests: &Vec<PrismRequest>, exchange_rate: Decimal) -> (r: Result<u128, ContractError>)
    requires
        forall|k: int| 0 <= k <= requests@.len() ==> (prism_value(#[trigger] requests@.take(k), exchange_rate.val()) matches Some(v) ==> v <= max_u128()),
    ensures
        prism_value(requests@, exchange_rate.val()) matches Some(v) ==> r matches Ok(u) && u == v,
        prism_value(requests@, exchange_rate.val()) is None ==> (r matches Err(ContractError::AdapterErrorEmpty { adapter, msg }) && adapter@ == "prism"@ && msg@ == "wrong_id"@),
{
    let mut unbonding: u128 = 0;
    let mut i: usize = 0;
    proof {
        assert(requests@.take(0) =~= Seq::<PrismRequest>::empty());
    }
    while i < requests.len()
        invariant
            i <= requests@.len(),
            forall|k: int| 0 <= k <= requests@.len() ==> (prism_value(#[trigger] requests@.take(k), exchange_rate.val()) matches Some(v) ==> v <= max_u128()),
            prism_value(requests@.take(i as int), exchange_rate.val()) == Some(unbonding as int),
        decreases requests@.len() - i,
    {
        let req = requests[i];
        proof {
            let t = requests@.take(i as int + 1);
            assert(t.drop_last() =~= requests@.take(i as int));
            assert(t.last() == req);
            lemma_ratio_floor(req.amount as int, exchange_rate.val(), frac());
            if let Some(h) = req.history {
                lemma_ratio_floor(req.amount as int, h.withdraw_rate.val(), frac());
            }
        }
        let (released, rate) = match req.history {
            None => (false, exchange_rate),
            Some(h) => {
                if h.batch_id == req.id {
                    (h.released, h.withdraw_rate)
                } else {
                    proof {
                        lemma_prism_none_stays(requests@, exchange_rate.val(), i as int + 1);
                    }
                    return Err(ContractError::AdapterErrorEmpty {
                        adapter: String::from_str("prism"),
                        msg: String::from_str("wrong_id"),
                    });
                }
            },
        };
        if !released {
            let v = mul_uint(req.amount, rate);
            unbonding = unbonding + v;
        }
        i = i + 1;
    }
    proof {
        assert(requests@.take(i as int) =~= requests@);
    }
    Ok(unbonding)
}

proof fn lemma_prism_none_stays(requests: Seq<PrismRequest>, rate: int, k: int)
    requires
        0 <= k <= requests.len(),
        prism_value(requests.take(k), rate) is None,
    ensures
        prism_value(requests, rate) is None,
    decreases requests.len() - k,
{
    if k < requests.len() {
        let t = requests.take(k + 1);
        assert(t.drop_last() =~= requests.take(k));
        lemma_prism_none_stays(requests, rate, k + 1);
    } else {
        assert(requests.take(k) =~= requests);
    }
}

/// The adapters that have something to withdraw, by index.
pub fn withdrawable_adapters(claimable: &Vec<u128>) -> (r: Vec<usize>)
    ensures
        forall|j: int| 0 <= j < r@.len() ==> (#[trigger] r@[j]) < claimable@.len() && claimable@[r@[j] as int] != 0,
        forall|k: int| 0 <= k < claimable@.len() && claimable@[k] != 0 ==> r@.contains(k as usize),
        forall|i: int, j: int| 0 <= i < j < r@.len() ==> r@[i] < r@[j],
{
    let mut out: Vec<usize> = Vec::new();
    let mut i: usize = 0;
    while i < claimable.len()
        invariant
            i <= claimable@.len(),
            forall|j: int| 0 <= j < out@.len() ==> (#[trigger] out@[j]) < i && claimable@[out@[j] as int] != 0,
            forall|k: int| 0 <= k < i && claimable@[k] != 0 ==> out@.contains(k as usize),
            forall|a: int, b: int| 0 <= a < b < out@.len() ==> out@[a] < out@[b],
        decreases claimable@.len() - i,
    {
        if claimable[i] != 0 {
            let ghost prev = out@;
            out.push(i);
            proof {
                assert forall|k: int| 0 <= k < i + 1 && claimable@[k] != 0 implies out@.contains(k as usize) by {
                    if k < i {
                        let w = choose|w: int| 0 <= w < prev.len() && prev[w] == k as usize;
                        assert(out@[w] == k as usize);
                    } else {
                        assert(out@[out@.len() - 1] == k as usize);
                    }
                }
            }
        }
        i = i + 1;
    }
    out
}

/// Which adapter reads a protocol.
#[derive(Clone, Copy, Debug, PartialEq, Eq, Structural)]
pub enum LsdKind {
    Eris,
    Steak,
    Stader,
    Prism,
}

impl LsdKind {
    /// The adapter's name, as its withdrawals are reported.
    pub fn name(&self) -> (r: String)
        ensures
            r@ == match *self {
                LsdKind::Eris => "eris"@,
                LsdKind::Steak => "steak"@,
                LsdKind::Stader => "stader"@,
                LsdKind::Prism => "prism"@,
            },
    {
        match self {
            LsdKind::Eris => String::from_str("eris"),
            LsdKind::Steak => String::from_str("steak"),
            LsdKind::Stader => String::from_str("stader"),
            LsdKind::Prism => String::from_str("prism"),
        }
    }
}

/// A deposit of native coins into an arbitrage vault: the vault is sent
/// the coins, and its message names the same asset.
#[derive(Debug, PartialEq, Eq)]
pub struct VaultDeposit {
    pub vault: String,
    pub asset: crate::asset::Asset,
    pub receiver: Option<String>,
    pub funds: crate::hub::Coin,
}

/// Deposits `amount` of `denom` into the vault, for `receiver` where one
/// is given.
pub fn vault_deposit(vault: String, denom: String, amount: u128, receiver: Option<String>) -> (r: VaultDeposit)
    ensures
        r.vault == vault,
        crate::asset::asset_view(r.asset) == ((true, denom@), amount),
        r.receiver == receiver,
        r.funds.denom@ == denom@ && r.funds.amount == amount,
{
    let d2 = denom.clone();
    VaultDeposit {
        vault,
        asset: crate::asset::Asset { info: crate::asset::AssetInfo::NativeToken { denom }, amount },
        receiver,
        funds: crate::hub::Coin { denom: d2, amount },
    }
}

/// An adapter to a liquid staking hub: the hub, its token, and the wallet
/// whose unbondings it reads.
#[derive(Debug, PartialEq, Eq)]
pub struct LsdAdapter {
    pub kind: LsdKind,
    pub addr: String,
    pub cw20: String,
    pub wallet: String,
}

/// The adapters of all configured protocols.
#[derive(Debug)]
pub struct LsdGroup {
    pub lsd_adapters: Vec<LsdAdapter>,
}

/// The adapter kind and addresses a configuration maps to (a Backbone hub is
/// read as a Steak hub).
pub open spec fn adapter_of(t: LsdType) -> (LsdKind, Seq<char>, Seq<char>) {
    match t {
        LsdType::Eris { addr, cw20 } => (LsdKind::Eris, addr@, cw20@),
        LsdType::Backbone { addr, cw20 } => (LsdKind::Steak, addr@, cw20@),
        LsdType::Stader { addr, cw20 } => (LsdKind::Stader, addr@, cw20@),
        LsdType::Prism { addr, cw20 } => (LsdKind::Prism, addr@, cw20@),
    }
}

/// An adapter as kind, hub, token and wallet.
pub open spec fn adapter_view(a: LsdAdapter) -> (LsdKind, Seq<char>, Seq<char>, Seq<char>) {
    (a.kind, a.addr@, a.cw20@, a.wallet@)
}

fn adapter_for(t: &LsdType, wallet: &String) -> (r: LsdAdapter)
    ensures
        adapter_view(r) == (adapter_of(*t).0, adapter_of(*t).1, adapter_of(*t).2, wallet@),
{
    match t {
        LsdType::Eris { addr, cw20 } => LsdAdapter { kind: LsdKind::Eris, addr: addr.clone(), cw20: cw20.clone(), wallet: wallet.clone() },
        LsdType::Backbone { addr, cw20 } => LsdAdapter { kind: LsdKind::Steak, addr: addr.clone(), cw20: cw20.clone(), wallet: wallet.clone() },
        LsdType::Stader { addr, cw20 } => LsdAdapter { kind: LsdKind::Stader, addr: addr.clone(), cw20: cw20.clone(), wallet: wallet.clone() },
        LsdType::Prism { addr, cw20 } => LsdAdapter { kind: LsdKind::Prism, addr: addr.clone(), cw20: cw20.clone(), wallet: wallet.clone() },
    }
}

/// An adapter for every configured protocol, in order, reading the
/// unbondings of `wallet`, or of the contract itself where none is given.
pub fn lsd_group_wallet(lsds: &Vec<LsdConfig>, contract: &String, wallet: Option<String>) -> (r: LsdGroup)
    ensures
        r.lsd_adapters@.len() == lsds@.len(),
        forall|j: int| 0 <= j < lsds@.len() ==> {
            let a = adapter_of((#[trigger] lsds@[j]).lsd_type);
            adapter_view(r.lsd_adapters@[j]) == (a.0, a.1, a.2, match wallet { Some(w) => w@, None => contract@ })
        },
{
    let wallet_address = match wallet {
        Some(w) => w,
        None => contract.clone(),
    };
    let mut adapters: Vec<LsdAdapter> = Vec::new();
    let mut i: usize = 0;
    while i < lsds.len()
        invariant
            i <= lsds@.len(),
            adapters@.len() == i,
            wallet_address@ == match wallet { Some(w) => w@, None => contract@ },
            forall|j: int| 0 <= j < i ==> {
                let a = adapter_of((#[trigger] lsds@[j]).lsd_type);
                adapter_view(adapters@[j]) == (a.0, a.1, a.2, wallet_address@)
            },
        decreases lsds@.len() - i,
    {
        adapters.push(adapter_for(&lsds[i].lsd_type, &wallet_address));
        i = i + 1;
    }
    LsdGroup { lsd_adapters: adapters }
}

impl LsdGroup {
    /// The index of the first adapter whose token is `token`.
    pub fn get(&self, token: &crate::asset::AssetInfo) -> (r: Result<usize, ContractError>)
        ensures
            r matches Ok(k) ==> k < self.lsd_adapters@.len() && crate::asset::info_view(*token) == (false, self.lsd_adapters@[k as int].cw20@)
                && forall|j: int| 0 <= j < k ==> crate::asset::info_view(*token) != (false, #[trigger] self.lsd_adapters@[j].cw20@),
            r is Err ==> r == Err::<usize, ContractError>(ContractError::AssetUnknown) && forall|j: int| 0 <= j < self.lsd_adapters@.len() ==> crate::asset::info_view(*token) != (false, #[trigger] self.lsd_adapters@[j].cw20@),
    {
        let mut i: usize = 0;
        while i < self.lsd_adapters.len()
            invariant
                i <= self.lsd_adapters@.len(),
                forall|j: int| 0 <= j < i ==> crate::asset::info_view(*token) != (false, #[trigger] self.lsd_adapters@[j].cw20@),
            decreases self.lsd_adapters@.len() - i,
        {
            match token {
                crate::asset::AssetInfo::Token { contract_addr } => {
                    if contract_addr.eq(&self.lsd_adapters[i].cw20) {
                        return Ok(i);
                    }
                },
                crate::asset::AssetInfo::NativeToken { .. } => {},
            }
            i = i + 1;
        }
        Err(ContractError::AssetUnknown)
    }
}

/// What an adapter holds: withdrawable and unbonding.
#[derive(Clone, Copy, Debug, PartialEq, Eq, Structural)]
pub struct ClaimBalance {
    pub withdrawable: u128,
    pub unbonding: u128,
}

/// The sum of the amounts.
pub open spec fn amounts_sum(s: Seq<u128>) -> int
    decreases s.len(),
{
    if s.len() == 0 {
        0
    } else {
        amounts_sum(s.drop_last()) + s.last()
    }
}

proof fn lemma_amounts_sum_prefix(s: Seq<u128>, k: int)
    requires
        0 <= k <= s.len(),
    ensures
        0 <= amounts_sum(s.take(k)) <= amounts_sum(s),
    decreases s.len(),
{
    if s.len() > 0 {
        if k == s.len() {
            assert(s.take(k) =~= s);
            lemma_amounts_sum_prefix(s.drop_last(), k - 1);
        } else {
            lemma_amounts_sum_prefix(s.drop_last(), k);
            assert(s.drop_last().take(k) =~= s.take(k));
        }
    } else {
        assert(s.take(k) =~= s);
    }
}

/// The total of what all adapters hold unbonding (or withdrawable), where
/// it fits.
pub fn sum_amounts(amounts: &Vec<u128>) -> (r: u128)
    requires
        amounts_sum(amounts@) <= max_u128(),
    ensures
        r == amounts_sum(amounts@),
{
    let mut sum: u128 = 0;
    let mut i: usize = 0;
    while i < amounts.len()
        invariant
            i <= amounts@.len(),
            amounts_sum(amounts@) <= max_u128(),
            sum == amounts_sum(amounts@.take(i as int)),
        decreases amounts@.len() - i,
    {
        proof {
            let t = amounts@.take(i as int + 1);
            assert(t.drop_last() =~= amounts@.take(i as int));
            lemma_amounts_sum_prefix(amounts@, i as int + 1);
        }
        sum = sum + amounts[i];
        i = i + 1;
    }
    proof {
        assert(amounts@.take(i as int) =~= amounts@);
    }
    sum
}

} // verus!
