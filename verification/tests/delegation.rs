use eris_logic::decimal::Decimal;
use eris_logic::delegation::{
    active_validators, filter_above, gauge_factors, sort_by_total_share_desc, uniform_shares,
    wanted_gauge_delegations, wanted_uniform_delegations, DelegationStrategy, GaugeContext,
    ScoredValidator, WantedDelegationsShare,
};
use eris_logic::error::StdError;

fn s(x: &str) -> String {
    x.to_string()
}

fn generic(msg: &str) -> StdError {
    StdError::GenericErr { msg: msg.to_string() }
}

fn dec(atomics: u128) -> Decimal {
    Decimal { atomics }
}

fn vals(names: &[&str]) -> Vec<String> {
    names.iter().map(|n| n.to_string()).collect()
}

fn points(p: &[(&str, u128)]) -> Vec<(String, u128)> {
    p.iter().map(|(n, a)| (n.to_string(), *a)).collect()
}

#[test]
fn uniform_shares_split_evenly() {
    let w = uniform_shares(&vals(&["a", "b", "c"]), 7, 100);
    assert_eq!(w.tune_time, 7);
    assert_eq!(w.tune_period, 100);
    assert_eq!(
        w.shares,
        vec![
            (s("a"), dec(333_333_333_333_333_333)),
            (s("b"), dec(333_333_333_333_333_333)),
            (s("c"), dec(333_333_333_333_333_333)),
        ]
    );
    // the even split never hands out more than the whole
    let total: u128 = w.shares.iter().map(|x| x.1.atomics).sum();
    assert!(total <= 1_000_000_000_000_000_000);
}

#[test]
fn uniform_strategy_is_not_stored() {
    let (w, store) = wanted_uniform_delegations(&vals(&["a", "b"]), 1, 2);
    assert!(!store);
    assert_eq!(
        w.shares,
        vec![(s("a"), dec(500_000_000_000_000_000)), (s("b"), dec(500_000_000_000_000_000))]
    );
}

#[test]
fn gauge_factors_from_basis_points() {
    let f = gauge_factors(2500, 100, 5000).unwrap();
    assert_eq!(f.min_delegation, dec(10_000_000_000_000_000));
    assert_eq!(f.max_delegation, dec(500_000_000_000_000_000));
    assert_eq!(f.vamp_factor, dec(250_000_000_000_000_000));
    assert_eq!(f.emp_factor, dec(750_000_000_000_000_000));
    assert_eq!(gauge_factors(10001, 0, 0).unwrap_err(), generic("Basic points conversion error"));
    assert_eq!(gauge_factors(0, 10001, 0).unwrap_err(), generic("Basic points conversion error"));
    assert_eq!(gauge_factors(0, 0, 10001).unwrap_err(), generic("Basic points conversion error"));
}

#[test]
fn gauge_context_checks_points() {
    assert_eq!(
        GaugeContext::from_amps(points(&[("a", 0)])).unwrap_err(),
        generic("No vAMP. Vote first before tuning.")
    );
    assert_eq!(
        GaugeContext::from_emps(Some(points(&[]))).unwrap_err(),
        generic("EMP not tuned.")
    );
    assert!(GaugeContext::from_emps(None).unwrap().is_none());
    let c = GaugeContext::from_amps(points(&[("a", 5), ("b", 7), ("a", 9)])).unwrap();
    assert_eq!(c.sum, 21);
    // the last entry of a validator counts
    assert_eq!(c.get(&s("a")), 9);
    assert_eq!(c.get(&s("b")), 7);
    assert_eq!(c.get(&s("z")), 0);
}

#[test]
fn vamp_gauges_cap_filter_sort_and_normalize() {
    let (w, store) = wanted_gauge_delegations(
        &vals(&["c", "a", "b"]),
        10000,
        500,
        5000,
        2,
        Ok(points(&[("a", 60), ("b", 30), ("c", 10)])),
        None,
        11,
        22,
    )
    .unwrap();
    assert!(store);
    assert_eq!(w.tune_time, 11);
    assert_eq!(w.tune_period, 22);
    // a: 0.6 capped to 0.5, b: 0.3; c dropped by the count; 0.5 / 0.8 and 0.3 / 0.8
    assert_eq!(
        w.shares,
        vec![(s("a"), dec(625_000_000_000_000_000)), (s("b"), dec(375_000_000_000_000_000))]
    );
}

#[test]
fn emp_gauges_weigh_in() {
    let (w, _) = wanted_gauge_delegations(
        &vals(&["a", "b", "c"]),
        5000,
        0,
        10000,
        5,
        Ok(points(&[("a", 50), ("b", 50)])),
        Some(Ok(points(&[("a", 100)]))),
        0,
        0,
    )
    .unwrap();
    // a: 0.5 * 0.5 + 0.5 * 1 = 0.75, b: 0.25, c: nothing and filtered out
    assert_eq!(
        w.shares,
        vec![(s("a"), dec(750_000_000_000_000_000)), (s("b"), dec(250_000_000_000_000_000))]
    );
}

#[test]
fn minimum_share_filters_validators() {
    let (w, _) = wanted_gauge_delegations(
        &vals(&["a", "b"]),
        10000,
        2000,
        10000,
        10,
        Ok(points(&[("a", 90), ("b", 10)])),
        None,
        0,
        0,
    )
    .unwrap();
    assert_eq!(w.shares, vec![(s("a"), dec(1_000_000_000_000_000_000))]);
}

#[test]
fn gauge_delegation_errors_in_order() {
    let v = vals(&["a"]);
    assert_eq!(
        wanted_gauge_delegations(&v, 0, 20000, 0, 1, Err(generic("q")), None, 0, 0).unwrap_err(),
        generic("Basic points conversion error")
    );
    assert_eq!(
        wanted_gauge_delegations(&v, 0, 0, 0, 1, Err(generic("query failed")), None, 0, 0)
            .unwrap_err(),
        generic("query failed")
    );
    assert_eq!(
        wanted_gauge_delegations(&v, 0, 0, 0, 1, Ok(vec![]), Some(Err(generic("e"))), 0, 0)
            .unwrap_err(),
        generic("No vAMP. Vote first before tuning.")
    );
    assert_eq!(
        wanted_gauge_delegations(
            &v,
            0,
            0,
            0,
            1,
            Ok(points(&[("a", 1)])),
            Some(Err(generic("emp query failed"))),
            0,
            0
        )
        .unwrap_err(),
        generic("emp query failed")
    );
    assert_eq!(
        wanted_gauge_delegations(
            &v,
            0,
            0,
            0,
            1,
            Ok(points(&[("a", 1)])),
            Some(Ok(points(&[("a", 0)]))),
            0,
            0
        )
        .unwrap_err(),
        generic("EMP not tuned.")
    );
}

#[test]
fn gauge_shares_law_on_values() {
    let (w, _) = wanted_gauge_delegations(
        &vals(&["a", "b", "c", "d"]),
        7000,
        100,
        4000,
        3,
        Ok(points(&[("a", 13), ("b", 29), ("c", 41), ("d", 17)])),
        Some(Ok(points(&[("d", 3), ("b", 5)]))),
        0,
        0,
    )
    .unwrap();
    assert!(w.shares.len() <= 3);
    let total: u128 = w.shares.iter().map(|x| x.1.atomics).sum();
    assert!(total <= 1_000_000_000_000_000_000);
    for pair in w.shares.windows(2) {
        assert!(pair[0].1.atomics >= pair[1].1.atomics);
    }
}

#[test]
fn active_validators_prefer_the_goal() {
    let goal = WantedDelegationsShare {
        tune_time: 0,
        tune_period: 0,
        shares: vec![(s("x"), dec(1)), (s("y"), dec(2))],
    };
    assert_eq!(active_validators(Some(goal), Some(vals(&["a"]))), vals(&["x", "y"]));
    assert_eq!(active_validators(None, Some(vals(&["a", "b"]))), vals(&["a", "b"]));
    assert!(active_validators(None, None).is_empty());
}

#[test]
fn strategy_validation_takes_checked_addresses() {
    let g = DelegationStrategy::Gauges {
        amp_gauges: s("AMP"),
        emp_gauges: Some(s("EMP")),
        amp_factor_bps: 1,
        min_delegation_bps: 2,
        max_delegation_bps: 3,
        validator_count: 4,
    };
    assert_eq!(
        g.clone().validate(Ok(s("amp")), Some(Ok(s("emp")))),
        Ok(DelegationStrategy::Gauges {
            amp_gauges: s("amp"),
            emp_gauges: Some(s("emp")),
            amp_factor_bps: 1,
            min_delegation_bps: 2,
            max_delegation_bps: 3,
            validator_count: 4,
        })
    );
    assert_eq!(
        g.clone().validate(Err(generic("bad amp")), Some(Err(generic("bad emp")))),
        Err(generic("bad amp"))
    );
    assert_eq!(
        g.validate(Ok(s("amp")), Some(Err(generic("bad emp")))),
        Err(generic("bad emp"))
    );
    assert_eq!(
        DelegationStrategy::Uniform.validate(Err(generic("x")), None),
        Ok(DelegationStrategy::Uniform)
    );
}

fn scored(v: &str, score: u128, total: u128) -> ScoredValidator {
    ScoredValidator { validator: s(v), score: dec(score), total_share: dec(total) }
}

fn names_of(v: &[ScoredValidator]) -> Vec<String> {
    v.iter().map(|x| x.validator.clone()).collect()
}

#[test]
fn sort_is_stable_and_keeps_every_entry() {
    let entries = vec![
        scored("a", 1, 5),
        scored("b", 2, 9),
        scored("c", 3, 5),
        scored("d", 4, 7),
        scored("e", 5, 9),
    ];
    let sorted = sort_by_total_share_desc(&entries);
    assert_eq!(names_of(&sorted), vals(&["b", "e", "d", "a", "c"]));
    let mut before = names_of(&entries);
    let mut after = names_of(&sorted);
    before.sort();
    after.sort();
    assert_eq!(before, after);
}

#[test]
fn filter_keeps_scores_above_the_minimum() {
    let entries = vec![scored("a", 10, 0), scored("b", 5, 0), scored("c", 6, 0)];
    assert_eq!(names_of(&filter_above(&entries, dec(5))), vals(&["a", "c"]));
    assert!(filter_above(&entries, dec(10)).is_empty());
}
