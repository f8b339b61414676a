use eris_logic::decimal::Decimal;
use eris_logic::error::StdError;
use eris_logic::yield_extractor::{
    accept_ownership, transfer_ownership, Ownership, check_received_token, compute_extraction, compute_mint_amount, compute_withdraw_amount,
    extractor_state, share_response,
};

fn dec(s: &str) -> Decimal {
    let d: cosmwasm_std::Decimal = s.parse().unwrap();
    Decimal::raw(d.atomics().u128())
}

#[test]
fn test_compute_mint_amount() {
    let result = compute_mint_amount(1000u128, 100u128, 1000u128);
    assert_eq!(result, 100u128);

    let result = compute_mint_amount(1100u128, 100u128, 1100u128);
    assert_eq!(result, 100u128);

    let result = compute_mint_amount(1000u128, 100u128, 1100u128);
    assert_eq!(result, 90u128);
}

#[test]
fn test_compute_withdraw_amount() {
    let result = compute_withdraw_amount(1100u128, 100u128, 1100u128);
    assert_eq!(result, 100u128);

    let result = compute_withdraw_amount(1000u128, 100u128, 1100u128);
    assert_eq!(result, 110u128);
}

#[test]
fn mint_into_empty_pool_is_one_to_one() {
    assert_eq!(compute_mint_amount(0, 100_000000, 0), 100_000000);
    assert_eq!(compute_mint_amount(500, 7, 0), 7);
}

#[test]
fn deposit_then_withdraw_never_gains() {
    // 1000 shares over 1100 stake: a deposit of 100 mints 90 shares
    let minted = compute_mint_amount(1000, 100, 1100);
    let back = compute_withdraw_amount(1000 + minted, minted, 1100 + 100);
    assert!(back <= 100);
    assert_eq!(back, 99);
}

#[test]
fn extraction_takes_share_of_rate_growth() {
    // rate 1.0 -> 1.05, 10 % of the growth of 100_000000 available stake
    let (extracted, available) =
        compute_extraction(100_000000, 0, dec("1"), dec("1.05"), dec("0.1")).unwrap();
    // (0.05 / 1.05) * 0.1 * 100_000000 = 476190.47..
    assert_eq!(extracted, 476190);
    assert_eq!(available, 100_000000 - 476190);
}

#[test]
fn extraction_skips_when_rate_did_not_grow() {
    let r = compute_extraction(100, 10, dec("1.1"), dec("1.0"), dec("0.1")).unwrap();
    assert_eq!(r, (10, 90));
    let r = compute_extraction(100, 10, dec("0"), dec("2.0"), dec("0.1")).unwrap();
    assert_eq!(r, (10, 90));
}

#[test]
fn extraction_fails_when_more_extracted_than_held() {
    assert_eq!(compute_extraction(10, 11, dec("1"), dec("2"), dec("0.1")), Err(StdError::Overflow));
}

#[test]
fn state_reports_rates_and_user_asset() {
    let st = extractor_state(1000, 1200, 100, 5, 1100, dec("2"), Some(100)).unwrap();
    assert_eq!(st.exchange_rate_lp_stake, dec("1.1"));
    assert_eq!(st.user_received_asset, Some(110));
    assert_eq!(st.tvl_uluna, 2400);
    let st = extractor_state(0, 0, 0, 0, 0, dec("2"), None).unwrap();
    assert_eq!(st.exchange_rate_lp_stake, Decimal::zero());
    assert_eq!(st.user_received_asset, None);
}

#[test]
fn state_fails_when_tvl_overflows() {
    assert_eq!(
        extractor_state(1, u128::MAX, 0, 0, 1, dec("2"), None),
        Err(StdError::Overflow)
    );
}

#[test]
fn share_of_holder() {
    let s = share_response(1000, 1200, 100, 100).unwrap();
    assert_eq!(s.received_asset, 110);
    assert_eq!(s.share, 100);
    assert_eq!(s.total_lp, 1000);
    assert_eq!(share_response(1000, 10, 100, 0), Err(StdError::Overflow));
}

#[test]
fn received_token_must_match() {
    assert_eq!(check_received_token(&"stake".to_string(), &"stake".to_string(), "Stake"), Ok(()));
    assert_eq!(
        check_received_token(&"random_token".to_string(), &"stake".to_string(), "Stake"),
        Err(StdError::GenericErr { msg: "expecting Stake token, received random_token".to_string() })
    );
    assert_eq!(
        check_received_token(&"random_token".to_string(), &"lp_token".to_string(), "LP"),
        Err(StdError::GenericErr { msg: "expecting LP token, received random_token".to_string() })
    );
}

#[test]
fn test_query_state() {
    let one = 1_000_000_000_000_000_000u128;
    let last = eris_logic::decimal::Decimal { atomics: 10 * one };
    let p = eris_logic::decimal::Decimal { atomics: one / 10 };
    let cases = [
        (10 * one, 0u128, 100_000000u128, 1_000_000_000_000_000_000u128, 1000_000000u128),
        (20 * one, 5_000000, 95_000000, 950_000_000_000_000_000, 2000_000000),
        (25 * one, 6_000000, 94_000000, 940_000_000_000_000_000, 2500_000000),
    ];
    for (rate, extracted, available, lp_rate, tvl) in cases {
        let rate = eris_logic::decimal::Decimal { atomics: rate };
        let (e, a) = eris_logic::yield_extractor::compute_extraction(100_000000, 0, last, rate, p).unwrap();
        assert_eq!((e, a), (extracted, available));
        let st = eris_logic::yield_extractor::extractor_state(
            100_000000,
            100_000000,
            e,
            0,
            a,
            rate,
            Some(100_000000),
        )
        .unwrap();
        assert_eq!(st.exchange_rate_lp_stake.atomics, lp_rate);
        assert_eq!(st.exchange_rate_stake_uluna, rate);
        assert_eq!(st.stake_available, available);
        assert_eq!(st.stake_balance, 100_000000);
        assert_eq!(st.stake_extracted, extracted);
        assert_eq!(st.stake_harvested, 0);
        assert_eq!(st.total_lp, 100_000000);
        assert_eq!(st.tvl_uluna, tvl);
        assert_eq!(st.user_received_asset, Some(available));
        assert_eq!(st.user_share, Some(100_000000));
    }
}

#[test]
fn deposit_withdraw_same() {
    let stake = "stake".to_string();
    let lp = "lp_token".to_string();
    // the first deposit of 100 mints 100 (the balance already holds it)
    assert_eq!(check_received_token(&stake, &stake, "Stake"), Ok(()));
    assert_eq!(compute_mint_amount(0, 100, 100 - 100), 100);
    // 100 lp and 100 stake, a deposit of 50 mints 50
    assert_eq!(compute_mint_amount(100, 50, 150 - 50), 50);
    // only the lp token is taken for a withdrawal
    assert_eq!(
        check_received_token(&"random_token".to_string(), &lp, "LP"),
        Err(StdError::GenericErr { msg: "expecting LP token, received random_token".to_string() })
    );
    assert_eq!(check_received_token(&lp, &lp, "LP"), Ok(()));
    // burning 50 of 150 lp gives 50 of 150 stake
    assert_eq!(compute_withdraw_amount(150, 50, 150), 50);
}

#[test]
fn deposit_extract_withdraw() {
    let one = 1_000_000_000_000_000_000u128;
    assert_eq!(compute_mint_amount(0, 100_000000, 0), 100_000000);
    assert_eq!(compute_mint_amount(100_000000, 50_000000, 100_000000), 50_000000);
    let s = share_response(150_000000, 150_000000, 0, 100_000000).unwrap();
    assert_eq!((s.received_asset, s.share, s.total_lp), (100_000000, 100_000000, 150_000000));
    // after the withdrawal: 750000 extracted at a rate of 1.05, which is now the last rate
    let rate = Decimal { atomics: one + one / 20 };
    let s = share_response(100_000000, 100_250000, 750000, 50_000000).unwrap();
    assert_eq!((s.received_asset, s.share, s.total_lp), (49_750000, 50_000000, 100_000000));
    let (e, a) = compute_extraction(100_250000, 750000, rate, rate, Decimal { atomics: one / 10 }).unwrap();
    assert_eq!((e, a), (750000, 99_500000));
    let st = extractor_state(100_000000, 100_250000, e, 0, a, rate, None).unwrap();
    assert_eq!(st.tvl_uluna, 105262500);
    assert_eq!(st.exchange_rate_lp_stake, Decimal { atomics: 995_000_000_000_000_000 });
    assert_eq!(st.stake_available, 99_500000);
    // harvesting moves the 750000 out: the balance and the extracted amount fall together
    let (e, a) = compute_extraction(99_500000, 0, rate, rate, Decimal { atomics: one / 10 }).unwrap();
    let st = extractor_state(100_000000, 99_500000, e, 750000, a, rate, Some(50_000000)).unwrap();
    assert_eq!(st.tvl_uluna, 104475000);
    assert_eq!(st.stake_harvested, 750000);
    assert_eq!(st.exchange_rate_lp_stake, Decimal { atomics: 995_000_000_000_000_000 });
    assert_eq!(st.user_received_asset, Some(49_750000));
    let s = share_response(100_000000, 99_500000, 0, 0).unwrap();
    assert_eq!((s.received_asset, s.share), (0, 0));
}

#[test]
fn transferring_ownership() {
    let mut o = Ownership { owner: "owner".to_string(), new_owner: None };
    assert_eq!(
        transfer_ownership(&mut o, &"jake".to_string(), "jake".to_string()),
        Err(StdError::GenericErr { msg: "unauthorized: sender is not owner".to_string() })
    );
    assert_eq!(transfer_ownership(&mut o, &"owner".to_string(), "jake".to_string()), Ok(()));
    assert_eq!(o.owner, "owner".to_string());
    assert_eq!(
        accept_ownership(&mut o, &"pumpkin".to_string()),
        Err(StdError::GenericErr { msg: "unauthorized: sender is not new owner".to_string() })
    );
    assert_eq!(accept_ownership(&mut o, &"jake".to_string()), Ok(()));
    assert_eq!(o.owner, "jake".to_string());
    assert_eq!(
        eris_logic::yield_extractor::assert_owner(&o.owner, &"owner".to_string()),
        Err(StdError::GenericErr { msg: "unauthorized: sender is not owner".to_string() })
    );
}
