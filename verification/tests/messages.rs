use eris_logic::ampz::{CapapultConfig, ClaimType, FeeConfig, Source, WhiteWhaleConfig};
use eris_logic::asset::{swap_plan, Asset, AssetInfo, AssetInfoBase, Expiration, TransferAction};
use eris_logic::decimal::BasicPoints;
use eris_logic::error::StdError;
use eris_logic::fees_collector::{default_type, TargetConfig, TargetType};
use eris_logic::hub::Coin;
use eris_logic::voting_escrow::BlacklistedVotersResponse;

fn s(x: &str) -> String {
    x.to_string()
}

fn generic(msg: &str) -> StdError {
    StdError::GenericErr { msg: msg.to_string() }
}

fn native(denom: &str, amount: u128) -> Asset {
    Asset { info: AssetInfo::NativeToken { denom: s(denom) }, amount }
}

fn token(addr: &str, amount: u128) -> Asset {
    Asset { info: AssetInfo::Token { contract_addr: s(addr) }, amount }
}

#[test]
fn swap_plan_splits_assets() {
    let plan = swap_plan(&vec![
        native("uluna", 10),
        token("cw1", 5),
        native("uusd", 0),
        token("cw2", 0),
        native("ibc/x", 7),
        token("cw3", 1),
    ]);
    assert_eq!(plan.funds, vec![Coin::new(10, s("uluna")), Coin::new(7, s("ibc/x"))]);
    assert_eq!(plan.transfers, vec![token("cw1", 5), token("cw3", 1)]);
    assert_eq!(
        plan.infos,
        vec![
            AssetInfo::NativeToken { denom: s("uluna") },
            AssetInfo::Token { contract_addr: s("cw1") },
            AssetInfo::NativeToken { denom: s("ibc/x") },
            AssetInfo::Token { contract_addr: s("cw3") },
        ]
    );
    let empty = swap_plan(&vec![native("uluna", 0)]);
    assert!(empty.funds.is_empty() && empty.transfers.is_empty() && empty.infos.is_empty());
}

#[test]
fn source_unique_keys() {
    assert_eq!(Source::Claim.try_get_uniq_key(), Some(s("claim")));
    assert_eq!(
        Source::ClaimContract { claim_type: ClaimType::WhiteWhaleRewards }.try_get_uniq_key(),
        Some(s("claim_WhiteWhaleRewards"))
    );
    assert_eq!(Source::AstroRewards { lps: vec![] }.try_get_uniq_key(), Some(s("astro_rewards")));
    assert_eq!(
        Source::WhiteWhaleRewards { lps: vec![s("lp")] }.try_get_uniq_key(),
        Some(s("whitewhale_rewards"))
    );
    assert_eq!(
        Source::Wallet { over: native("uluna", 1), max_amount: None }.try_get_uniq_key(),
        None
    );
    assert_eq!(ClaimType::WhiteWhaleRewards.to_display_string(), s("WhiteWhaleRewards"));
}

fn fee(fee_bps: u16, operator_bps: u16) -> FeeConfig {
    FeeConfig {
        fee_bps: BasicPoints::unchecked(fee_bps),
        operator_bps: BasicPoints::unchecked(operator_bps),
        receiver: s("unchecked"),
    }
}

#[test]
fn fee_config_limits() {
    let c = fee(500, 100).validate(Ok(s("receiver"))).unwrap();
    assert_eq!(c.fee_bps.u16(), 500);
    assert_eq!(c.operator_bps.u16(), 100);
    assert_eq!(c.receiver, s("receiver"));
    assert_eq!(fee(501, 0).validate(Ok(s("r"))).unwrap_err(), generic("max fee is 5 %"));
    assert_eq!(
        fee(0, 501).validate(Ok(s("r"))).unwrap_err(),
        generic("max operator fee is 5 %")
    );
    assert_eq!(fee(1, 1).validate(Err(generic("invalid"))).unwrap_err(), generic("invalid"));
}

#[test]
fn target_configs() {
    assert_eq!(default_type(), TargetType::Weight);
    let t = TargetConfig::new(s("a"), 3);
    assert_eq!(t.addr, s("a"));
    assert_eq!(t.weight, 3);
    assert_eq!(t.target_type, TargetType::Weight);
    assert!(t.msg.is_none() && t.asset_override.is_none());
    let t = TargetConfig::new_asset(s("a"), 1, AssetInfo::NativeToken { denom: s("uluna") });
    assert_eq!(t.asset_override, Some(AssetInfo::NativeToken { denom: s("uluna") }));
    let t = TargetConfig::new_msg(s("a"), 1, Some(vec![1, 2]));
    assert_eq!(t.msg, Some(vec![1, 2]));
    assert_eq!(t.validate(), Ok(TargetConfig::new_msg(s("a"), 1, Some(vec![1, 2]))));
    let fill = TargetConfig {
        addr: s("f"),
        weight: 12,
        msg: None,
        target_type: TargetType::FillUpFirst { filled_to: 100, min_fill: None },
        asset_override: None,
    };
    assert_eq!(fill.validate(), Err(generic("FillUp can't have a weight (12)")));
    let fill0 = TargetConfig { weight: 0, ..fill };
    assert_eq!(fill0.validate().unwrap().target_type, TargetType::FillUpFirst { filled_to: 100, min_fill: None });
}

#[test]
fn blacklist_display() {
    assert_eq!(
        BlacklistedVotersResponse::VotersBlacklisted.to_display_string(),
        s("Voters are blacklisted!")
    );
    assert_eq!(
        BlacklistedVotersResponse::VotersNotBlacklisted { voter: s("terra1x") }.to_display_string(),
        s("Voter is not blacklisted: terra1x")
    );
}

#[test]
fn transfer_actions() {
    assert_eq!(
        native("uluna", 5).transfer_msg(&s("to")),
        TransferAction::BankSend { to_address: s("to"), denom: s("uluna"), amount: 5 }
    );
    assert_eq!(
        token("cw", 6).transfer_msg(&s("to")),
        TransferAction::Cw20Transfer { token: s("cw"), recipient: s("to"), amount: 6 }
    );
    let plain = TargetConfig::new(s("target"), 1);
    assert_eq!(
        token("cw", 6).transfer_msg_target(&plain),
        TransferAction::Cw20Transfer { token: s("cw"), recipient: s("target"), amount: 6 }
    );
    let hooked = TargetConfig::new_msg(s("target"), 1, Some(vec![7]));
    assert_eq!(
        token("cw", 6).transfer_msg_target(&hooked),
        TransferAction::Cw20Send { token: s("cw"), contract: s("target"), amount: 6, msg: vec![7] }
    );
    assert_eq!(
        native("uluna", 5).transfer_msg_target(&hooked),
        TransferAction::ExecuteWithFunds { contract: s("target"), msg: vec![7], denom: s("uluna"), amount: 5 }
    );
    assert_eq!(
        native("uluna", 5).transfer_from_msg(&s("a"), &s("b")),
        Err(generic("TransferFrom does not apply to native tokens"))
    );
    assert_eq!(
        token("cw", 6).transfer_from_msg(&s("a"), &s("b")),
        Ok(TransferAction::Cw20TransferFrom { token: s("cw"), owner: s("a"), recipient: s("b"), amount: 6 })
    );
    assert_eq!(
        token("cw", 6).increase_allowance_msg(s("spender"), Some(Expiration::AtHeight(9))),
        TransferAction::Cw20IncreaseAllowance {
            contract: s("cw"),
            spender: s("spender"),
            amount: 6,
            expires: Some(Expiration::AtHeight(9)),
        }
    );
    assert_eq!(AssetInfo::NativeToken { denom: s("uluna") }.to_display_string(), s("uluna"));
}

#[test]
fn deposits() {
    let mut msgs = vec![];
    assert_eq!(token("cw", 0).deposit_asset(&s("user"), &vec![], &s("me"), &mut msgs), Ok(()));
    assert!(msgs.is_empty());
    assert_eq!(token("cw", 3).deposit_asset(&s("user"), &vec![], &s("me"), &mut msgs), Ok(()));
    assert_eq!(
        msgs,
        vec![TransferAction::Cw20TransferFrom { token: s("cw"), owner: s("user"), recipient: s("me"), amount: 3 }]
    );
    let uluna = |a: u128| Coin::new(a, s("uluna"));
    let mut none = vec![];
    assert_eq!(native("uluna", 3).deposit_asset(&s("u"), &vec![uluna(3)], &s("me"), &mut none), Ok(()));
    assert!(none.is_empty());
    assert_eq!(
        native("uluna", 3).deposit_asset(&s("u"), &vec![], &s("me"), &mut none),
        Err(generic("No funds sent"))
    );
    assert_eq!(
        native("uluna", 3).deposit_asset(&s("u"), &vec![uluna(3), Coin::new(1, s("uusd"))], &s("me"), &mut none),
        Err(generic("Sent more than one denomination"))
    );
    assert_eq!(
        native("uluna", 3).deposit_asset(&s("u"), &vec![uluna(0)], &s("me"), &mut none),
        Err(generic("No funds sent"))
    );
    assert_eq!(
        native("uluna", 3).deposit_asset(&s("u"), &vec![Coin::new(3, s("uusd"))], &s("me"), &mut none),
        Err(generic("Must send reserve token 'uluna'"))
    );
    assert_eq!(
        native("uluna", 3).deposit_asset(&s("u"), &vec![uluna(4)], &s("me"), &mut none),
        Err(generic("Native token balance mismatch between the argument and the transferred"))
    );
    assert!(none.is_empty());
}

#[test]
fn zapper_notation() {
    assert_eq!(AssetInfo::NativeToken { denom: s("uluna") }.to_new(), AssetInfoBase::Native(s("uluna")));
    assert_eq!(AssetInfo::Token { contract_addr: s("cw") }.to_new(), AssetInfoBase::Cw20(s("cw")));
}

#[test]
fn config_address_checks() {
    assert_eq!(
        CapapultConfig::validate(Ok(s("m")), Err(generic("bad overseer")), Err(generic("bad custody")), Ok(s("c"))),
        Err(generic("bad overseer"))
    );
    assert_eq!(
        CapapultConfig::validate(Ok(s("m")), Ok(s("o")), Ok(s("cu")), Ok(s("st"))),
        Ok(CapapultConfig { market: s("m"), overseer: s("o"), stable_cw: s("st"), custody: s("cu") })
    );
    let ww = || WhiteWhaleConfig {
        fee_distributor: s("F"),
        coins: vec![AssetInfo::NativeToken { denom: s("uwhale") }],
        incentive_factory_addr: s("I"),
        lp_tokens: vec![s("L1"), s("L2")],
    };
    assert_eq!(
        ww().validate(Ok(s("f")), Ok(s("i")), vec![Ok(s("l1")), Err(generic("bad lp")), Err(generic("worse"))]),
        Err(generic("bad lp"))
    );
    assert_eq!(
        ww().validate(Err(generic("bad fee")), Err(generic("bad inc")), vec![]),
        Err(generic("bad fee"))
    );
    assert_eq!(
        ww().validate(Ok(s("f")), Ok(s("i")), vec![Ok(s("l1")), Ok(s("l2"))]),
        Ok(WhiteWhaleConfig {
            fee_distributor: s("f"),
            coins: vec![AssetInfo::NativeToken { denom: s("uwhale") }],
            incentive_factory_addr: s("i"),
            lp_tokens: vec![s("l1"), s("l2")],
        })
    );
}

#[test]
fn bond_funds_sorted_by_denom() {
    let sorted = eris_logic::farm::sort_funds(vec![
        Coin::new(1, s("uusd")),
        Coin::new(2, s("ibc/B")),
        Coin::new(3, s("uluna")),
        Coin::new(4, s("ibc/A")),
        Coin::new(5, s("uluna")),
    ]);
    assert_eq!(
        sorted,
        vec![
            Coin::new(4, s("ibc/A")),
            Coin::new(2, s("ibc/B")),
            Coin::new(3, s("uluna")),
            Coin::new(5, s("uluna")),
            Coin::new(1, s("uusd")),
        ]
    );
    assert!(eris_logic::farm::str_less("ab", "b"));
    assert!(eris_logic::farm::str_less("a", "ab"));
    assert!(!eris_logic::farm::str_less("b", "b"));
}
