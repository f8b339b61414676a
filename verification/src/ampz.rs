//! The auto-compounder's executions: where rewards come from, when they are
//! executed, and the fee it takes.
use vstd::prelude::*;
use vstd::string::StringExecFns;
use crate::asset::Asset;
use crate::decimal::BasicPoints;
use crate::error::{generic_msg, StdError};

verus! {

/// A contract whose rewards can be claimed.
#[derive(Clone, Copy, Debug, PartialEq, Eq, Structural)]
pub enum ClaimType {
    WhiteWhaleRewards,
}

impl ClaimType {
    /// The name of the claim type as displayed.
    pub fn to_display_string(&self) -> (r: String)
        ensures
            r@ == "WhiteWhaleRewards"@,
    {
        match self {
            ClaimType::WhiteWhaleRewards => String::from_str("WhiteWhaleRewards"),
        }
    }
}

/// Where the assets of an execution come from.
#[derive(Debug, PartialEq, Eq)]
pub enum Source {
    Claim,
    ClaimContract { claim_type: ClaimType },
    AstroRewards { lps: Vec<String> },
    WhiteWhaleRewards { lps: Vec<String> },
    Wallet { over: Asset, max_amount: Option<u128> },
}

impl Source {
    /// The key under which a user may hold only one execution of this
    /// source; wallets may be used by any number of executions.
    pub fn try_get_uniq_key(&self) -> (r: Option<String>)
        ensures
            self is Claim ==> (r matches Some(k) && k@ == "claim"@),
            self is ClaimContract ==> (r matches Some(k) && k@ == "claim_WhiteWhaleRewards"@),
            self is AstroRewards ==> (r matches Some(k) && k@ == "astro_rewards"@),
            self is WhiteWhaleRewards ==> (r matches Some(k) && k@ == "whitewhale_rewards"@),
            self is Wallet ==> r is None,
    {
        match self {
            Source::Claim => Some(String::from_str("claim")),
            Source::ClaimContract { claim_type } => {
                let mut k = String::from_str("claim_");
                let name = claim_type.to_display_string();
                k.append(name.as_str());
                proof {
                    reveal_strlit("claim_");
                    reveal_strlit("WhiteWhaleRewards");
                    reveal_strlit("claim_WhiteWhaleRewards");
                    assert(k@ =~= "claim_WhiteWhaleRewards"@);
                }
                Some(k)
            },
            Source::AstroRewards { .. } => Some(String::from_str("astro_rewards")),
            Source::WhiteWhaleRewards { .. } => Some(String::from_str("whitewhale_rewards")),
            Source::Wallet { .. } => None,
        }
    }
}

/// When an execution runs: from `start` on, every `interval_s` seconds.
#[derive(Clone, Copy, Debug, PartialEq, Eq, Structural)]
pub struct Schedule {
    pub start: Option<u64>,
    pub interval_s: u64,
}

/// The Capapult money market's contracts.
#[derive(Debug, PartialEq, Eq)]
pub struct CapapultConfig {
    pub market: String,
    pub overseer: String,
    pub stable_cw: String,
    pub custody: String,
}

/// The White Whale contracts the compounder claims from.
#[derive(Debug, PartialEq, Eq)]
pub struct WhiteWhaleConfig {
    pub fee_distributor: String,
    pub coins: Vec<crate::asset::AssetInfo>,
    pub incentive_factory_addr: String,
    pub lp_tokens: Vec<String>,
}

impl CapapultConfig {
    /// Takes the contracts as the outcomes of validating each address
    /// (market, overseer, custody, stable coin), failing on the first that
    /// is not valid.
    pub fn validate(
        market: Result<String, StdError>,
        overseer: Result<String, StdError>,
        custody: Result<String, StdError>,
        stable_cw: Result<String, StdError>,
    ) -> (r: Result<CapapultConfig, StdError>)
        ensures
            market matches Err(e) ==> r == Err::<CapapultConfig, StdError>(e),
            market is Ok ==> (overseer matches Err(e) ==> r == Err::<CapapultConfig, StdError>(e)),
            market is Ok && overseer is Ok ==> (custody matches Err(e) ==> r == Err::<CapapultConfig, StdError>(e)),
            market is Ok && overseer is Ok && custody is Ok ==> (stable_cw matches Err(e) ==> r == Err::<CapapultConfig, StdError>(e)),
            r matches Ok(c) ==> market == Ok::<String, StdError>(c.market) && overseer == Ok::<String, StdError>(c.overseer)
                && custody == Ok::<String, StdError>(c.custody) && stable_cw == Ok::<String, StdError>(c.stable_cw),
            market is Ok && overseer is Ok && custody is Ok && stable_cw is Ok ==> r is Ok,
    {
        let market = match market {
            Ok(a) => a,
            Err(e) => return Err(e),
        };
        let overseer = match overseer {
            Ok(a) => a,
            Err(e) => return Err(e),
        };
        let custody = match custody {
            Ok(a) => a,
            Err(e) => return Err(e),
        };
        let stable_cw = match stable_cw {
            Ok(a) => a,
            Err(e) => return Err(e),
        };
        Ok(CapapultConfig { market, overseer, stable_cw, custody })
    }
}

impl WhiteWhaleConfig {
    /// Takes the contracts as the outcomes of validating each address (the
    /// fee distributor, the incentive factory, then every LP token in
    /// order), failing on the first that is not valid; the coins stay.
    pub fn validate(
        self,
        fee_distributor: Result<String, StdError>,
        incentive_factory_addr: Result<String, StdError>,
        lp_tokens: Vec<Result<String, StdError>>,
    ) -> (r: Result<WhiteWhaleConfig, StdError>)
        ensures
            fee_distributor matches Err(e) ==> r == Err::<WhiteWhaleConfig, StdError>(e),
            fee_distributor is Ok ==> (incentive_factory_addr matches Err(e) ==> r == Err::<WhiteWhaleConfig, StdError>(e)),
            fee_distributor is Ok && incentive_factory_addr is Ok ==> match first_err(lp_tokens@) {
                Some(e) => r == Err::<WhiteWhaleConfig, StdError>(e),
                None => r matches Ok(c) && fee_distributor == Ok::<String, StdError>(c.fee_distributor)
                    && incentive_factory_addr == Ok::<String, StdError>(c.incentive_factory_addr)
                    && c.coins == self.coins
                    && c.lp_tokens@.len() == lp_tokens@.len()
                    && forall|j: int| 0 <= j < lp_tokens@.len() ==> lp_tokens@[j] == Ok::<String, StdError>(#[trigger] c.lp_tokens@[j]),
            },
    {
        let fd = match fee_distributor {
            Ok(a) => a,
            Err(e) => return Err(e),
        };
        let ifa = match incentive_factory_addr {
            Ok(a) => a,
            Err(e) => return Err(e),
        };
        let mut lps: Vec<String> = Vec::new();
        let mut i: usize = 0;
        let n = lp_tokens.len();
        let ghost all = lp_tokens@;
        let mut rest = lp_tokens;
        while i < n
            invariant
                n == all.len(),
                i <= n,
                rest@ == all.skip(i as int),
                all == lp_tokens@,
                fee_distributor == Ok::<String, StdError>(fd),
                incentive_factory_addr == Ok::<String, StdError>(ifa),
                first_err(all.take(i as int)) is None,
                lps@.len() == i,
                forall|j: int| 0 <= j < i ==> all[j] == Ok::<String, StdError>(#[trigger] lps@[j]),
            decreases n - i,
        {
            let item = rest.remove(0);
            proof {
                assert(item == all[i as int]);
                assert(rest@ =~= all.skip(i as int + 1));
                lemma_first_err_push(all.take(i as int), all[i as int]);
                assert(all.take(i as int + 1) =~= all.take(i as int).push(all[i as int]));
            }
            match item {
                Ok(a) => lps.push(a),
                Err(e) => {
                    proof {
                        lemma_first_err_prefix(all, i as int + 1);
                    }
                    return Err(e);
                },
            }
            i = i + 1;
        }
        proof {
            assert(all.take(i as int) =~= all);
        }
        Ok(WhiteWhaleConfig { fee_distributor: fd, coins: self.coins, incentive_factory_addr: ifa, lp_tokens: lps })
    }
}

/// The first error among the outcomes, if any.
pub open spec fn first_err(s: Seq<Result<String, StdError>>) -> Option<StdError>
    decreases s.len(),
{
    if s.len() == 0 {
        None
    } else {
        match s[0] {
            Err(e) => Some(e),
            Ok(_) => first_err(s.drop_first()),
        }
    }
}

proof fn lemma_first_err_push(s: Seq<Result<String, StdError>>, x: Result<String, StdError>)
    ensures
        first_err(s.push(x)) == match first_err(s) {
            Some(e) => Some(e),
            None => match x {
                Err(e) => Some(e),
                Ok(_) => None,
            },
        },
    decreases s.len(),
{
    if s.len() > 0 {
        let t = s.push(x);
        assert(t[0] == s[0]);
        assert(t.drop_first() =~= s.drop_first().push(x));
        lemma_first_err_push(s.drop_first(), x);
        assert(first_err(t) == match t[0] {
            Err(e) => Some(e),
            Ok(_) => first_err(t.drop_first()),
        });
        assert(first_err(s) == match s[0] {
            Err(e) => Some(e),
            Ok(_) => first_err(s.drop_first()),
        });
    } else {
        assert(s.push(x)[0] == x);
        let t = s.push(x);
        assert(t.drop_first() =~= Seq::<Result<String, StdError>>::empty());
        assert(first_err(t.drop_first()) is None);
        assert(first_err(t) == match t[0] {
            Err(e) => Some(e),
            Ok(_) => first_err(t.drop_first()),
        });
    }
}

proof fn lemma_first_err_prefix(s: Seq<Result<String, StdError>>, k: int)
    requires
        0 <= k <= s.len(),
        first_err(s.take(k)) is Some,
    ensures
        first_err(s) == first_err(s.take(k)),
    decreases s.len(),
{
    if k > 0 {
        assert(s.take(k).drop_first() =~= s.drop_first().take(k - 1));
        if s[0] is Ok {
            assert(s.take(k)[0] == s[0]);
            lemma_first_err_prefix(s.drop_first(), k - 1);
        }
    }
}

/// Where liquidity is deposited.
#[derive(Clone, Copy, Debug, PartialEq, Eq, Structural)]
pub enum DepositLiquidity {
    WhiteWhale { lock_up: Option<u64> },
}

/// Where a loan is repaid.
#[derive(Clone, Copy, Debug, PartialEq, Eq, Structural)]
pub enum RepayMarket {
    Capapult,
}

/// The compounder's fee and the operator's share.
#[derive(Debug, PartialEq, Eq)]
pub struct FeeConfig {
    pub fee_bps: BasicPoints,
    pub operator_bps: BasicPoints,
    pub receiver: String,
}

/// The highest fee and operator share: 5 %.
pub const MAX_FEE_BPS: u16 = 500;

impl FeeConfig {
    /// Checks the fee (at most 5 %, then the operator share at most 5 %) and
    /// takes the receiver as the outcome of validating its address.
    pub fn validate(self, receiver: Result<String, StdError>) -> (r: Result<FeeConfig, StdError>)
        ensures
            self.fee_bps.spec_u16() > 500 ==> generic_msg(r) == Some("max fee is 5 %"@),
            self.fee_bps.spec_u16() <= 500 && self.operator_bps.spec_u16() > 500 ==> generic_msg(r) == Some("max operator fee is 5 %"@),
            self.fee_bps.spec_u16() <= 500 && self.operator_bps.spec_u16() <= 500 ==> match receiver {
                Err(e) => r == Err::<FeeConfig, StdError>(e),
                Ok(a) => r matches Ok(c) && c.fee_bps == self.fee_bps && c.operator_bps == self.operator_bps && c.receiver == a,
            },
    {
        if self.fee_bps.u16() > MAX_FEE_BPS {
            return Err(StdError::generic_err("max fee is 5 %"));
        }
        if self.operator_bps.u16() > MAX_FEE_BPS {
            return Err(StdError::generic_err("max operator fee is 5 %"));
        }
        match receiver {
            Err(e) => Err(e),
            Ok(a) => Ok(FeeConfig { fee_bps: self.fee_bps, operator_bps: self.operator_bps, receiver: a }),
        }
    }
}

} // verus!
