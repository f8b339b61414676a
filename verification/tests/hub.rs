use eris_logic::error::StdError;
use eris_logic::hub::{
    assert_callback_sender, assert_owner, assert_stake_token, assert_vote_operator,
    check_reply_id, dedupe, first_alphabetic, own_delegations, parse_coin, parse_received_fund,
    try_parse_coin, Coin,
    ContractError, Delegation, UnbondRequest, UnbondRequestsByBatchResponseItem,
    UnbondRequestsByUserResponseItem,
};

fn s(x: &str) -> String {
    x.to_string()
}

fn generic(msg: &str) -> StdError {
    StdError::GenericErr { msg: msg.to_string() }
}

#[test]
fn parse_coin_splits_amount_and_denom() {
    assert_eq!(parse_coin("100uluna"), Ok(Coin::new(100, s("uluna"))));
    assert_eq!(parse_coin("0ibc/ABC"), Ok(Coin::new(0, s("ibc/ABC"))));
    assert_eq!(parse_coin("12345"), Err(generic("failed to parse coin: 12345")));
    assert!(matches!(parse_coin("uluna"), Err(StdError::GenericErr { .. })));
    assert!(matches!(parse_coin("1.5uluna"), Err(StdError::GenericErr { .. })));
    match parse_coin("1.5uluna") {
        Err(StdError::GenericErr { msg }) => assert!(msg.starts_with("Parsing u128: ")),
        other => panic!("unexpected {:?}", other),
    }
    assert!(matches!(
        parse_coin("340282366920938463463374607431768211456uluna"),
        Err(StdError::GenericErr { .. })
    ));
}

#[test]
fn received_fund_checks() {
    let funds = vec![Coin::new(100, s("uluna"))];
    assert_eq!(parse_received_fund(&funds, "uluna"), Ok(100));
    assert_eq!(
        parse_received_fund(&vec![], "uluna"),
        Err(generic("must deposit exactly one coin; received 0"))
    );
    assert_eq!(
        parse_received_fund(&vec![Coin::new(1, s("a")), Coin::new(1, s("b"))], "uluna"),
        Err(generic("must deposit exactly one coin; received 2"))
    );
    assert_eq!(
        parse_received_fund(&vec![Coin::new(1, s("uusd"))], "uluna"),
        Err(generic("expected uluna deposit, received uusd"))
    );
    assert_eq!(
        parse_received_fund(&vec![Coin::new(0, s("uluna"))], "uluna"),
        Err(generic("deposit amount must be non-zero"))
    );
}

#[test]
fn access_checks() {
    assert_eq!(assert_owner(&s("owner"), &s("owner")), Ok(()));
    assert_eq!(assert_owner(&s("owner"), &s("user")), Err(ContractError::Unauthorized));
    assert_eq!(assert_vote_operator(&None, &s("op")), Err(ContractError::NoVoteOperatorSet));
    assert_eq!(assert_vote_operator(&Some(s("op")), &s("op")), Ok(()));
    assert_eq!(
        assert_vote_operator(&Some(s("op")), &s("user")),
        Err(ContractError::UnauthorizedSenderNotVoteOperator)
    );
    assert_eq!(assert_callback_sender(&s("hub"), &s("hub")), Ok(()));
    assert_eq!(
        assert_callback_sender(&s("hub"), &s("user")),
        Err(ContractError::CallbackOnlyCalledByContract)
    );
    assert_eq!(assert_stake_token(&s("stake"), &s("stake")), Ok(()));
    assert_eq!(
        assert_stake_token(&s("stake"), &s("other")),
        Err(ContractError::ExpectingStakeToken(s("other")))
    );
    assert_eq!(check_reply_id(1), Ok(()));
    assert_eq!(check_reply_id(7), Err(ContractError::InvalidReplyId(7)));
}

#[test]
fn dedupe_keeps_first_occurrences() {
    let mut v = vec![s("val2"), s("val1"), s("val2"), s("val3"), s("val1")];
    dedupe(&mut v);
    assert_eq!(v, vec![s("val2"), s("val1"), s("val3")]);
    let mut e: Vec<String> = vec![];
    dedupe(&mut e);
    assert!(e.is_empty());
}

#[test]
fn own_delegations_filter_denom_and_zero() {
    let all = vec![
        (s("val1"), Coin::new(10, s("uluna"))),
        (s("val2"), Coin::new(0, s("uluna"))),
        (s("val3"), Coin::new(5, s("uusd"))),
        (s("val4"), Coin::new(7, s("uluna"))),
    ];
    assert_eq!(
        own_delegations(&all, "uluna"),
        vec![
            Delegation { validator: s("val1"), amount: 10 },
            Delegation { validator: s("val4"), amount: 7 }
        ]
    );
}

#[test]
fn unbond_request_items() {
    let r = UnbondRequest { id: 3, user: s("alice"), shares: 42 };
    let by_batch: UnbondRequestsByBatchResponseItem = r.into();
    assert_eq!(by_batch, UnbondRequestsByBatchResponseItem { user: s("alice"), shares: 42 });
    let r = UnbondRequest { id: 3, user: s("alice"), shares: 42 };
    let by_user: UnbondRequestsByUserResponseItem = r.into();
    assert_eq!(by_user, UnbondRequestsByUserResponseItem { id: 3, shares: 42 });
}

#[test]
fn coin_split_checks() {
    assert_eq!(first_alphabetic("123uluna"), 3);
    assert_eq!(first_alphabetic("123"), 3);
    assert_eq!(try_parse_coin("123uluna"), Some(Ok(Coin::new(123, s("uluna")))));
    assert_eq!(try_parse_coin("123"), Some(Err(generic("failed to parse coin: 123"))));
    // the split counts characters but cuts bytes: here it falls inside the euro sign
    assert_eq!(try_parse_coin("\u{20ac}1uluna"), None);
}
