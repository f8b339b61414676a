use eris_logic::decimal::Decimal;
use eris_logic::error::StdError;
use eris_logic::gov::{
    adjust_vp_and_slope, calc_coefficient, get_periods_count, PropGaugesConfig, PropInfo,
    VoteOption, MAX_LOCK_TIME, WEEK,
};

const ONE: u128 = 1_000_000_000_000_000_000;

fn generic(msg: &str) -> StdError {
    StdError::GenericErr { msg: msg.to_string() }
}

#[test]
fn periods_and_coefficient() {
    assert_eq!(get_periods_count(MAX_LOCK_TIME), 104);
    assert_eq!(get_periods_count(WEEK - 1), 0);
    assert_eq!(get_periods_count(3 * WEEK + 5), 3);
    assert_eq!(calc_coefficient(0), Decimal { atomics: 2 * ONE });
    assert_eq!(calc_coefficient(104), Decimal { atomics: 10 * ONE });
    assert_eq!(calc_coefficient(52), Decimal { atomics: 6 * ONE });
    assert_eq!(calc_coefficient(1), Decimal { atomics: 2_076_923_076_923_076_923 });
    // the coefficient grows with the lock
    let mut last = 0u128;
    for i in 0..200u64 {
        let c = calc_coefficient(i).atomics;
        assert!(c >= last);
        last = c;
    }
}

#[test]
fn slope_rounding() {
    let mut vp: u128 = 1000;
    assert_eq!(adjust_vp_and_slope(&mut vp, 7, 10), Ok(141));
    assert_eq!(vp, 141 * 7 + 10);
    assert!(vp <= 1000 && 1000 - vp < 7);
    let mut vp: u128 = 5;
    assert_eq!(adjust_vp_and_slope(&mut vp, 7, 10), Err(StdError::Overflow));
    assert_eq!(vp, 5);
    let mut vp: u128 = 50;
    assert_eq!(adjust_vp_and_slope(&mut vp, 0, 10), Err(StdError::DivideByZero));
    assert_eq!(vp, 50);
}

fn prop(yes: u128, no: u128, abstain: u128, nwv: u128) -> PropInfo {
    PropInfo {
        period: 1,
        end_time_s: 2,
        yes_vp: yes,
        no_vp: no,
        abstain_vp: abstain,
        nwv_vp: nwv,
        current_vote: None,
    }
}

#[test]
fn wanted_vote_follows_the_most_power() {
    assert_eq!(prop(10, 5, 0, 0).get_wanted_vote(100, 1000), Ok(Some(VoteOption::Yes)));
    assert_eq!(prop(5, 10, 0, 0).get_wanted_vote(100, 1000), Ok(Some(VoteOption::No)));
    assert_eq!(prop(1, 2, 3, 4).get_wanted_vote(100, 1000), Ok(Some(VoteOption::NoWithVeto)));
    assert_eq!(prop(1, 2, 7, 0).get_wanted_vote(100, 1000), Ok(Some(VoteOption::Abstain)));
    // ties go to yes, then no, then no with veto
    assert_eq!(prop(5, 5, 5, 5).get_wanted_vote(100, 1000), Ok(Some(VoteOption::Yes)));
    assert_eq!(prop(0, 5, 5, 5).get_wanted_vote(100, 1000), Ok(Some(VoteOption::No)));
    assert_eq!(prop(0, 0, 5, 5).get_wanted_vote(100, 1000), Ok(Some(VoteOption::NoWithVeto)));
    // below the quorum of 10 % nothing is voted
    assert_eq!(prop(5, 4, 0, 0).get_wanted_vote(100, 1000), Ok(None));
    assert_eq!(prop(5, 5, 0, 0).get_wanted_vote(100, 1000), Ok(Some(VoteOption::Yes)));
    assert_eq!(
        prop(5, 5, 0, 0).get_wanted_vote(100, 10001),
        Err(generic("Basic points conversion error"))
    );
}

#[test]
fn prop_gauges_access() {
    let c = PropGaugesConfig {
        owner: "owner".to_string(),
        escrow_addr: "ve".to_string(),
        hub_addr: "hub".to_string(),
        quorum_bps: 500,
    };
    assert_eq!(c.assert_owner(&"owner".to_string()), Ok(()));
    assert_eq!(c.assert_owner(&"x".to_string()), Err(generic("unauthorized")));
    assert_eq!(c.assert_owner_or_self(&"me".to_string(), &"me".to_string()), Ok(()));
    assert_eq!(c.assert_owner_or_self(&"owner".to_string(), &"me".to_string()), Ok(()));
    assert_eq!(
        c.assert_owner_or_self(&"x".to_string(), &"me".to_string()),
        Err(generic("unauthorized"))
    );
}
