use eris_logic::arb_vault::{
    add_to_unbond_history, assert_callback_sender, assert_is_nested, assert_not_nested,
    assert_owner, check_arbitrage, create_default_lsd_configs, find_lp_token_address,
    items_value_of, lsd_group_wallet, prism_unbonding, reconciled_batch_ids,
    stader_cache_item, steak_cache_item, steak_cache_items, sum_amounts, total_assets, update_config,
    withdrawable_adapters, ArbInput, Attribute, BalanceCheckpoint, Config, ContractError,
    Event, FeeTransfer, LsdConfig, LsdKind, LsdType, PrismHistory, PrismRequest, SteakBatch,
    StaderBatch, SteakRequest, UnbondHistory, UnbondLedger, UndelegationCacheItem, UtilizationMethod,
    MAX_UNBOND_TIME_S,
};
use eris_logic::asset::AssetInfo;
use eris_logic::decimal::Decimal;
use eris_logic::error::StdError;

const ONE: u128 = 1_000_000_000_000_000_000;

fn s(x: &str) -> String {
    x.to_string()
}

fn dec(atomics: u128) -> Decimal {
    Decimal { atomics }
}

#[test]
fn default_lsd_configs() {
    let c = create_default_lsd_configs();
    assert_eq!(c.len(), 4);
    assert_eq!(
        c[0],
        LsdConfig {
            disabled: false,
            name: s("eris"),
            lsd_type: LsdType::Eris { addr: s("eris"), cw20: s("eriscw") }
        }
    );
    assert_eq!(c[1].lsd_type, LsdType::Backbone { addr: s("backbone"), cw20: s("backbonecw") });
    assert_eq!(c[2].lsd_type, LsdType::Stader { addr: s("stader"), cw20: s("stadercw") });
    assert_eq!(c[3].lsd_type, LsdType::Prism { addr: s("prism"), cw20: s("prismcw") });
    assert_eq!(c[3].name, s("prism"));
}

#[test]
fn pool_fee_factor_falls_linearly() {
    let h = UnbondHistory { start_time: 100, release_time: 200, amount_asset: 5 };
    assert_eq!(h.pool_fee_factor(100), dec(ONE));
    assert_eq!(h.pool_fee_factor(125), dec(750_000_000_000_000_000));
    assert_eq!(h.pool_fee_factor(150), dec(500_000_000_000_000_000));
    assert_eq!(h.pool_fee_factor(200), dec(0));
    assert_eq!(h.pool_fee_factor(1000), dec(0));
    // never grows as time passes
    let mut last = ONE;
    for t in 100..220 {
        let f = h.pool_fee_factor(t).atomics;
        assert!(f <= last);
        last = f;
    }
}

#[test]
fn balances_of_the_pool() {
    let b = total_assets(100, 30, 50, 20).unwrap();
    assert_eq!(b.tvl_utoken, 170);
    assert_eq!(b.vault_total, 140);
    assert_eq!(b.vault_available, 100);
    assert_eq!(b.vault_takeable, 70);
    assert_eq!(b.locked_user_withdrawls, 30);
    assert_eq!(b.lsd_unbonding, 50);
    assert_eq!(b.lsd_withdrawable, 20);
    let b = total_assets(10, 500, 5, 0).unwrap();
    assert_eq!(b.vault_total, 0);
    assert_eq!(b.vault_takeable, 0);
    assert!(b.vault_takeable <= b.vault_available && b.vault_available <= b.tvl_utoken);
    assert_eq!(total_assets(u128::MAX, 0, 1, 0), Err(ContractError::Overflow));
}

#[test]
fn nesting_and_access() {
    let cp = BalanceCheckpoint { vault_available: 1, tvl_utoken: 2 };
    assert_eq!(assert_not_nested(&None), Ok(()));
    assert_eq!(assert_not_nested(&Some(cp)), Err(ContractError::AlreadyExecuting));
    assert_eq!(assert_is_nested(&Some(cp)), Ok(cp));
    assert_eq!(assert_is_nested(&None), Err(ContractError::NotExecuting));
    assert_eq!(assert_owner(&s("o"), &s("o")), Ok(s("o")));
    assert_eq!(assert_owner(&s("o"), &s("x")), Err(ContractError::Unauthorized));
    assert_eq!(assert_callback_sender(&s("c"), &s("c")), Ok(()));
    assert_eq!(
        assert_callback_sender(&s("c"), &s("x")),
        Err(ContractError::CallbackOnlyCalledByContract)
    );
}

#[test]
fn unbond_history_locks_and_advances() {
    let mut ledger = UnbondLedger { balance_locked: 10, unbond_id: 3, history: vec![] };
    let h = UnbondHistory { start_time: 0, release_time: 1, amount_asset: 7 };
    assert_eq!(add_to_unbond_history(&mut ledger, s("user"), &h), 3);
    assert_eq!(
        ledger,
        UnbondLedger { balance_locked: 17, unbond_id: 4, history: vec![(s("user"), 3, h)] }
    );
}

fn arb(old_avail: u128, old_tvl: u128, new_avail: u128, locked: u128, unbonding: u128, xbalance: u128, wanted: Decimal) -> ArbInput {
    ArbInput {
        old: BalanceCheckpoint { vault_available: old_avail, tvl_utoken: old_tvl },
        new: total_assets(new_avail, locked, unbonding, 0).unwrap(),
        xbalance,
        xfactor: dec(1_100_000_000_000_000_000),
        wanted_profit: wanted,
        performance_fee: dec(100_000_000_000_000_000),
        total_lp_supply: 1000,
    }
}

#[test]
fn arbitrage_fee_in_underlying_token() {
    // spent 900, bought 850 tokens worth 935: profit 35, 3.9 % of the spend
    let i = arb(1000, 1000, 100, 0, 0, 850, dec(40_000_000_000_000_000));
    let o = check_arbitrage(&i).unwrap();
    assert_eq!(o.xvalue, 935);
    assert_eq!(o.old_tvl, 1000);
    assert_eq!(o.new_tvl, 1035);
    assert_eq!(o.used_balance, 900);
    assert_eq!(o.profit, 35);
    assert_eq!(o.fee, FeeTransfer::Utoken(3));
    assert_eq!(o.unbond_xamount, 850);
    // (100 + 935 - 3) / 1000
    assert_eq!(o.exchange_rate, dec(1_032_000_000_000_000_000));
}

#[test]
fn arbitrage_fee_in_bought_token() {
    // nothing left to take: the fee of 4 is paid as 3 bought tokens
    let i = arb(1000, 1000, 0, 0, 0, 950, dec(50_000_000_000_000_000));
    let o = check_arbitrage(&i).unwrap();
    assert_eq!(o.profit, 45);
    assert_eq!(o.fee, FeeTransfer::Xtoken(3));
    assert_eq!(o.unbond_xamount, 947);
    // (0 + 947 * 1.1) / 1000
    assert_eq!(o.exchange_rate, dec(1_041_000_000_000_000_000));
}

#[test]
fn arbitrage_rejections() {
    assert_eq!(
        check_arbitrage(&arb(1000, 1000, 100, 0, 0, 850, dec(50_000_000_000_000_000))),
        Err(ContractError::NotEnoughProfit)
    );
    assert_eq!(
        check_arbitrage(&arb(200, 100, 100, 0, 50, 0, dec(0))),
        Err(ContractError::NothingToUnbond)
    );
    assert_eq!(
        check_arbitrage(&arb(1000, 1000, 100, 200, 0, 850, dec(40_000_000_000_000_000))),
        Err(ContractError::DoNotTakeLockedBalance)
    );
    assert_eq!(
        check_arbitrage(&arb(100, 100, 200, 0, 0, 1, dec(0))),
        Err(ContractError::CalculationError(s("used balance"), s("Cannot Sub with 100 and 200")))
    );
    assert_eq!(
        check_arbitrage(&arb(1000, 1000, 100, 0, 0, 10, dec(0))),
        Err(ContractError::CalculationError(s("profit"), s("Cannot Sub with 111 and 1000")))
    );
}

#[test]
fn lp_token_address_from_events() {
    let ev = |ty: &str, attrs: &[(&str, &str)]| Event {
        ty: s(ty),
        attributes: attrs.iter().map(|(k, v)| Attribute { key: s(k), value: s(v) }).collect(),
    };
    let events = vec![
        ev("wasm", &[("_contract_address", "wrong")]),
        ev("instantiate", &[("code_id", "1"), ("_contract_addr", "lp1"), ("_contract_address", "lp2")]),
        ev("instantiate", &[("_contract_address", "lp3")]),
    ];
    assert_eq!(find_lp_token_address(&events), Ok(s("lp1")));
    assert_eq!(
        find_lp_token_address(&vec![ev("wasm", &[])]),
        Err(ContractError::CannotFindInstantiateEvent)
    );
    assert_eq!(
        find_lp_token_address(&vec![ev("instantiate", &[("code_id", "1")])]),
        Err(ContractError::CannotFindContractAddress)
    );
}

fn config() -> Config {
    Config {
        utoken: s("uluna"),
        utilization_method: UtilizationMethod::Steps(vec![(dec(1), dec(2))]),
        unbond_time_s: 100,
        lp_addr: s("lp"),
        lsds: vec![],
    }
}

#[test]
fn config_updates() {
    let c = update_config(config(), None, Some(MAX_UNBOND_TIME_S), Some(Ok(create_default_lsd_configs()))).unwrap();
    assert_eq!(c.unbond_time_s, 8640000);
    assert_eq!(c.lsds.len(), 4);
    assert_eq!(c.utilization_method, UtilizationMethod::Steps(vec![(dec(1), dec(2))]));
    assert_eq!(c.utoken, s("uluna"));
    assert_eq!(
        update_config(config(), None, Some(MAX_UNBOND_TIME_S + 1), None),
        Err(ContractError::UnbondTimeTooHigh)
    );
    let err = StdError::GenericErr { msg: s("invalid address") };
    assert_eq!(
        update_config(config(), None, None, Some(Err(err.clone()))),
        Err(ContractError::Std(err))
    );
    let c = update_config(config(), Some(UtilizationMethod::Steps(vec![])), None, None).unwrap();
    assert_eq!(c.utilization_method, UtilizationMethod::Steps(vec![]));
    assert_eq!(c.unbond_time_s, 100);
}

fn item(batch_id: u64, token_amount: u128, reconciled: bool, rate: u128) -> UndelegationCacheItem {
    UndelegationCacheItem { token_amount, reconciled, exchange_rate: dec(rate), batch_id }
}

#[test]
fn undelegation_cache_values() {
    let items = vec![
        item(1, 100, true, 1_500_000_000_000_000_000),
        item(2, 10, false, 2 * ONE),
        item(3, 7, true, ONE / 2),
    ];
    assert_eq!(items_value_of(&items, true), 153);
    assert_eq!(items_value_of(&items, false), 20);
    assert_eq!(reconciled_batch_ids(&items), vec![1, 3]);
}

#[test]
fn steak_and_stader_items() {
    let rate = dec(1_200_000_000_000_000_000);
    assert_eq!(steak_cache_item(5, 40, 5, rate, None), item(5, 40, false, 1_200_000_000_000_000_000));
    let b = SteakBatch { reconciled: true, total_shares: 200, amount_unclaimed: 300 };
    assert_eq!(
        steak_cache_item(4, 40, 5, rate, Some(b)),
        item(4, 40, true, 1_500_000_000_000_000_000)
    );
    assert_eq!(
        stader_cache_item(9, 11, Some(StaderBatch { reconciled: false, undelegation_er: dec(ONE) })),
        Ok(item(9, 11, false, ONE))
    );
    assert_eq!(
        stader_cache_item(9, 11, None),
        Err(ContractError::AdapterErrorEmpty { adapter: s("stader"), msg: s("expected batch") })
    );
}

#[test]
fn prism_unbonding_values() {
    let rate = dec(2 * ONE);
    let reqs = vec![
        PrismRequest { id: 1, amount: 10, history: None },
        PrismRequest {
            id: 2,
            amount: 10,
            history: Some(PrismHistory { batch_id: 2, released: false, withdraw_rate: dec(3 * ONE) }),
        },
        PrismRequest {
            id: 3,
            amount: 10,
            history: Some(PrismHistory { batch_id: 3, released: true, withdraw_rate: dec(ONE) }),
        },
    ];
    assert_eq!(prism_unbonding(&reqs, rate), Ok(50));
    let bad = vec![PrismRequest {
        id: 1,
        amount: 1,
        history: Some(PrismHistory { batch_id: 2, released: false, withdraw_rate: dec(ONE) }),
    }];
    assert_eq!(
        prism_unbonding(&bad, rate),
        Err(ContractError::AdapterErrorEmpty { adapter: s("prism"), msg: s("wrong_id") })
    );
}

#[test]
fn withdrawable_and_sums() {
    assert_eq!(withdrawable_adapters(&vec![0, 5, 0, 7]), vec![1, 3]);
    assert!(withdrawable_adapters(&vec![0, 0]).is_empty());
    assert_eq!(sum_amounts(&vec![1, 2, 3]), 6);
    assert_eq!(sum_amounts(&vec![]), 0);
}

#[test]
fn lsd_group_adapters() {
    let lsds = create_default_lsd_configs();
    let g = lsd_group_wallet(&lsds, &s("vault"), None);
    assert_eq!(g.lsd_adapters.len(), 4);
    assert_eq!(g.lsd_adapters[1].kind, LsdKind::Steak);
    assert_eq!(g.lsd_adapters[1].cw20, s("backbonecw"));
    assert_eq!(g.lsd_adapters[0].wallet, s("vault"));
    let g2 = lsd_group_wallet(&lsds, &s("vault"), Some(s("user")));
    assert_eq!(g2.lsd_adapters[3].wallet, s("user"));
    assert_eq!(g.get(&AssetInfo::Token { contract_addr: s("stadercw") }), Ok(2));
    assert_eq!(
        g.get(&AssetInfo::NativeToken { denom: s("stadercw") }),
        Err(ContractError::AssetUnknown)
    );
    assert_eq!(
        g.get(&AssetInfo::Token { contract_addr: s("other") }),
        Err(ContractError::AssetUnknown)
    );
}

fn steps_default() -> UtilizationMethod {
    UtilizationMethod::Steps(vec![
        (dec(10_000_000_000_000_000), dec(500_000_000_000_000_000)),
        (dec(15_000_000_000_000_000), dec(700_000_000_000_000_000)),
        (dec(20_000_000_000_000_000), dec(900_000_000_000_000_000)),
        (dec(25_000_000_000_000_000), dec(ONE)),
    ])
}

fn default_config() -> Config {
    Config {
        utoken: s("utoken"),
        utilization_method: steps_default(),
        unbond_time_s: 100,
        lp_addr: s("lptoken"),
        lsds: create_default_lsd_configs(),
    }
}

#[test]
fn tests_update_config() {
    assert_eq!(assert_owner(&s("owner"), &s("user")), Err(ContractError::Unauthorized));
    assert!(assert_owner(&s("owner"), &s("owner")).is_ok());
    let c = update_config(default_config(), None, Some(10), None).unwrap();
    assert_eq!(
        c,
        Config {
            utoken: s("utoken"),
            utilization_method: steps_default(),
            unbond_time_s: 10,
            lp_addr: s("lptoken"),
            lsds: create_default_lsd_configs(),
        }
    );
    let c = update_config(c, Some(UtilizationMethod::Steps(vec![])), None, None).unwrap();
    assert_eq!(
        c,
        Config {
            utoken: s("utoken"),
            utilization_method: UtilizationMethod::Steps(vec![]),
            unbond_time_s: 10,
            lp_addr: s("lptoken"),
            lsds: create_default_lsd_configs(),
        }
    );
}

#[test]
fn integration_update_config() {
    let c = default_config();
    assert_eq!(c.utilization_method, steps_default());
    let new_method = UtilizationMethod::Steps(vec![(dec(100_000_000_000_000_000), dec(ONE))]);
    assert_eq!(assert_owner(&s("owner"), &s("user")), Err(ContractError::Unauthorized));
    assert_eq!(assert_owner(&s("owner"), &s("owner")), Ok(s("owner")));
    let c = update_config(c, Some(new_method), None, None).unwrap();
    assert_eq!(
        c.utilization_method,
        UtilizationMethod::Steps(vec![(dec(100_000_000_000_000_000), dec(ONE))])
    );
}

#[test]
fn execute_arb() {
    let old = total_assets(220_000000, 120_000000, 98_880000, 0).unwrap();
    let takeable = old.vault_takeable;
    assert_eq!(takeable, 100_000000);
    // the arbitrage spent 40_336000 of the pool and bought eriscw at 1.1
    let spent: u128 = 40_336000;
    let wanted_profit = dec(15_000_000_000_000_000);
    let profit_factor = dec(ONE).add(wanted_profit);
    let eris_amount = eris_logic::decimal::mul_uint(spent, profit_factor.div(dec(1_100_000_000_000_000_000)));
    let new = total_assets(220_000000 - spent, 120_000000, 98_880000, 0).unwrap();
    let group = lsd_group_wallet(&create_default_lsd_configs(), &s("cosmos2contract"), None);
    let idx = group.get(&AssetInfo::Token { contract_addr: s("eriscw") }).unwrap();
    assert_eq!(group.lsd_adapters[idx].kind, LsdKind::Eris);
    let checkpoint = assert_is_nested(&Some(BalanceCheckpoint {
        vault_available: old.vault_available,
        tvl_utoken: old.tvl_utoken,
    }))
    .unwrap();
    let i = ArbInput {
        old: checkpoint,
        new,
        xbalance: eris_amount,
        xfactor: dec(1_100_000_000_000_000_000),
        wanted_profit,
        performance_fee: dec(10_000_000_000_000_000),
        total_lp_supply: 100_000000,
    };
    let o = check_arbitrage(&i).unwrap();
    let xvalue = eris_logic::decimal::mul_uint(eris_amount, dec(1_100_000_000_000_000_000));
    assert_eq!(o.old_tvl, old.tvl_utoken);
    assert_eq!(o.new_tvl, old.tvl_utoken + xvalue - spent);
    assert_eq!(o.used_balance, spent);
    assert_eq!(o.unbond_xamount, eris_amount);
    assert_eq!(o.xvalue, xvalue);
    assert_eq!(o.profit, 605039);
    assert_eq!(o.exchange_rate, dec(1_994_789_890_000_000_000));
    assert_eq!(o.fee, FeeTransfer::Utoken(6050));
}

#[test]
fn execute_arb_throws() {
    let group = lsd_group_wallet(&create_default_lsd_configs(), &s("cosmos2contract"), None);
    assert_eq!(
        group.get(&AssetInfo::Token { contract_addr: s("xxx") }),
        Err(ContractError::AssetUnknown)
    );
    assert_eq!(assert_is_nested(&None), Err(ContractError::NotExecuting));
}

#[test]
fn query_check_balances() {
    let per_lsd_unbonding: u128 = 24_000000;
    let per_lsd_withdrawable: u128 = 10_000000;
    let eris_rate = dec(1_100_000_000_000_000_000);
    let stader_rate = dec(1_020_000_000_000_000_000);
    let claims = [
        (eris_logic::decimal::mul_uint(per_lsd_withdrawable, eris_rate), eris_logic::decimal::mul_uint(per_lsd_unbonding, eris_rate)),
        (per_lsd_withdrawable, per_lsd_unbonding),
        (eris_logic::decimal::mul_uint(per_lsd_withdrawable, stader_rate), eris_logic::decimal::mul_uint(per_lsd_unbonding, stader_rate)),
        (per_lsd_withdrawable, per_lsd_unbonding),
    ];
    let unbonding = sum_amounts(&claims.iter().map(|c| c.1).collect());
    let withdrawable = sum_amounts(&claims.iter().map(|c| c.0).collect());
    assert_eq!(unbonding, 98_880000);
    assert_eq!(withdrawable, 41_200000);
    let b = total_assets(220_000000, 120_000000, unbonding, withdrawable).unwrap();
    assert_eq!(b.vault_total, 240_080000);
    assert_eq!(b.tvl_utoken, 360_080000);
    assert_eq!(b.vault_takeable, 100_000000);
    assert_eq!(b.vault_available, 220_000000);
    assert_eq!(b.locked_user_withdrawls, 120_000000);
    assert_eq!(Decimal::from_ratio(b.vault_total, 100_000000), dec(2_400_800_000_000_000_000));
}

#[test]
fn check_withdrawing() {
    let withdrawable: u128 = 10_000000;
    let claimable = vec![
        eris_logic::decimal::mul_uint(withdrawable, dec(1_100_000_000_000_000_000)),
        withdrawable,
        eris_logic::decimal::mul_uint(withdrawable, dec(1_020_000_000_000_000_000)),
        withdrawable,
    ];
    assert_eq!(claimable, vec![11_000000, 10_000000, 10_200000, 10_000000]);
    let group = lsd_group_wallet(&create_default_lsd_configs(), &s("cosmos2contract"), None);
    let picked = withdrawable_adapters(&claimable);
    assert_eq!(picked, vec![0, 1, 2, 3]);
    let kinds: Vec<LsdKind> = picked.iter().map(|i| group.lsd_adapters[*i].kind).collect();
    assert_eq!(kinds, vec![LsdKind::Eris, LsdKind::Steak, LsdKind::Stader, LsdKind::Prism]);
    let names: Vec<String> = picked.iter().map(|i| group.lsd_adapters[*i].kind.name()).collect();
    assert_eq!(names, vec![s("eris"), s("steak"), s("stader"), s("prism")]);
    let hubs: Vec<String> = picked.iter().map(|i| group.lsd_adapters[*i].addr.clone()).collect();
    assert_eq!(hubs, vec![s("eris"), s("backbone"), s("stader"), s("prism")]);
}

#[test]
fn steak_items_in_order() {
    let rate = dec(1_200_000_000_000_000_000);
    let reqs = vec![
        SteakRequest { id: 7, shares: 10 },
        SteakRequest { id: 5, shares: 20 },
        SteakRequest { id: 6, shares: 30 },
    ];
    let prev = vec![
        None,
        Some(SteakBatch { reconciled: true, total_shares: 100, amount_unclaimed: 110 }),
        Some(SteakBatch { reconciled: false, total_shares: 50, amount_unclaimed: 60 }),
    ];
    let items = steak_cache_items(&reqs, 7, rate, &prev);
    assert_eq!(
        items,
        vec![
            item(7, 10, false, 1_200_000_000_000_000_000),
            item(5, 20, true, 1_100_000_000_000_000_000),
            item(6, 30, false, 1_200_000_000_000_000_000),
        ]
    );
    assert!(steak_cache_items(&vec![], 1, rate, &vec![]).is_empty());
}

#[test]
fn vault_deposits() {
    let d = eris_logic::arb_vault::vault_deposit(s("vault"), s("uluna"), 5, Some(s("me")));
    assert_eq!(d.vault, s("vault"));
    assert_eq!(d.asset, eris_logic::asset::Asset { info: AssetInfo::NativeToken { denom: s("uluna") }, amount: 5 });
    assert_eq!(d.receiver, Some(s("me")));
    assert_eq!(d.funds, eris_logic::hub::Coin::new(5, s("uluna")));
}
