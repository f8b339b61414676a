//! Helpers of the staking hub: funds received with a message, coins written
//! as strings, the validator whitelist, and the checks on who may call what.
use vstd::prelude::*;
use vstd::string::{StringExecFns, StrSliceExecFns, StringSliceAdditionalSpecFns};
use crate::decimal::max_u128;
use crate::error::{generic_msg, StdError};
use crate::text::{decimal_string, push_decimal, spec_parse_u128};

verus! {

/// An amount of a native denomination.
#[derive(Debug, PartialEq, Eq)]
pub struct Coin {
    pub denom: String,
    pub amount: u128,
}

impl Coin {
    pub fn new(amount: u128, denom: String) -> (r: Coin)
        ensures
            r.amount == amount,
            r.denom@ == denom@,
    {
        Coin { denom, amount }
    }
}

/// Finds the amount of `denom` sent along a message: exactly one coin must
/// have been sent, of that denomination, and not zero.
pub fn parse_received_fund(funds: &Vec<Coin>, denom: &str) -> (r: Result<u128, StdError>)
    ensures
        r is Ok <==> funds@.len() == 1 && funds@[0].denom@ == denom@ && funds@[0].amount > 0,
        r matches Ok(a) ==> a == funds@[0].amount,
        funds@.len() != 1 ==> generic_msg(r) == Some("must deposit exactly one coin; received "@ + decimal_string(funds@.len() as nat)),
        funds@.len() == 1 && funds@[0].denom@ != denom@ ==> generic_msg(r) == Some("expected "@ + denom@ + " deposit, received "@ + funds@[0].denom@),
        funds@.len() == 1 && funds@[0].denom@ == denom@ && funds@[0].amount == 0 ==> generic_msg(r) == Some("deposit amount must be non-zero"@),
{
    if funds.len() != 1 {
        let mut msg = String::from_str("must deposit exactly one coin; received ");
        push_decimal(&mut msg, funds.len() as u128);
        return Err(StdError::GenericErr { msg });
    }
    let fund = &funds[0];
    if !str_eq(fund.denom.as_str(), denom) {
        let mut msg = String::from_str("expected ");
        msg.append(denom);
        msg.append(" deposit, received ");
        msg.append(fund.denom.as_str());
        return Err(StdError::GenericErr { msg });
    }
    if fund.amount == 0 {
        return Err(StdError::generic_err("deposit amount must be non-zero"));
    }
    Ok(fund.amount)
}

/// What `char::is_alphabetic` returns for `c`: whether `c` has Unicode's
/// Alphabetic property.
pub uninterp spec fn spec_is_alphabetic(c: char) -> bool;

/// Calls `char::is_alphabetic`. Its result is named; for ASCII characters
/// the documentation pins it down: exactly the letters `a`-`z` and `A`-`Z`.
#[verifier::external_body]
fn char_is_alphabetic(c: char) -> (r: bool)
    ensures
        r == spec_is_alphabetic(c),
        (c as u32) < 128 ==> (r <==> (('a' <= c && c <= 'z') || ('A' <= c && c <= 'Z'))),
{
    c.is_alphabetic()
}

/// Calls `cosmwasm_std::Uint128::from_str` (through `str::parse`), which parses with
/// `u128::from_str`: an optional `+` and one or more decimal digits whose
/// value fits. Its error is a generic error whose message starts with
/// `Parsing u128: `; the rest of it, std's text for the parse failure, is
/// not stated.
#[verifier::external_body]
fn uint128_from_str(s: &str) -> (r: Result<u128, StdError>)
    ensures
        r is Ok <==> spec_parse_u128(s@) is Some,
        r matches Ok(v) ==> spec_parse_u128(s@) == Some(v as int),
        r matches Err(e) ==> e matches StdError::GenericErr { msg } && "Parsing u128: "@.is_prefix_of(msg@),
{
    match s.parse::<cosmwasm_std::Uint128>() {
        Ok(v) => Ok(v.u128()),
        Err(cosmwasm_std::StdError::GenericErr { msg, .. }) => Err(StdError::GenericErr { msg }),
        Err(e) => Err(StdError::GenericErr { msg: e.to_string() }),
    }
}

/// The index of the first alphabetic character of `s` at or after `from`,
/// or the length of `s`.
pub open spec fn first_alphabetic_from(s: Seq<char>, from: int) -> int
    decreases s.len() - from,
{
    if from >= s.len() {
        s.len() as int
    } else if spec_is_alphabetic(s[from]) {
        from
    } else {
        first_alphabetic_from(s, from + 1)
    }
}

/// The characters of the first `i` bytes of `s`.
pub open spec fn byte_prefix(s: &str, i: int) -> Seq<char> {
    vstd::utf8::decode_utf8(s.spec_bytes().subrange(0, i))
}

/// The characters of `s` from byte `i` on.
pub open spec fn byte_suffix(s: &str, i: int) -> Seq<char> {
    vstd::utf8::decode_utf8(s.spec_bytes().subrange(i, s.spec_bytes().len() as int))
}

proof fn lemma_first_alphabetic_bounds(s: Seq<char>, from: int)
    requires
        0 <= from <= s.len(),
    ensures
        from <= first_alphabetic_from(s, from) <= s.len(),
        forall|j: int| from <= j < first_alphabetic_from(s, from) ==> !spec_is_alphabetic(#[trigger] s[j]),
        first_alphabetic_from(s, from) < s.len() ==> spec_is_alphabetic(s[first_alphabetic_from(s, from)]),
    decreases s.len() - from,
{
    if from < s.len() && !spec_is_alphabetic(s[from]) {
        lemma_first_alphabetic_bounds(s, from + 1);
    }
}

/// Whether `c` is an ASCII letter.
pub open spec fn is_ascii_letter(c: char) -> bool {
    ('a' <= c && c <= 'z') || ('A' <= c && c <= 'Z')
}

/// What parsing `s` as a coin gives: split before the first alphabetic
/// character (for ASCII text, the first letter), the part before it parsed
/// as the amount and the rest kept as the denomination; a failure where no
/// character is alphabetic or the amount does not parse.
pub open spec fn parse_coin_result(s: &str, r: Result<Coin, StdError>) -> bool {
    let k = first_alphabetic_from(s@, 0);
    &&& forall|j: int| 0 <= j < k && (s@[j] as u32) < 128 ==> !is_ascii_letter(#[trigger] s@[j])
    &&& k < s@.len() && (s@[k] as u32) < 128 ==> is_ascii_letter(s@[k])
    &&& k == s@.len() ==> generic_msg(r) == Some("failed to parse coin: "@ + s@)
    &&& k < s@.len() ==> (r is Ok <==> spec_parse_u128(byte_prefix(s, k)) is Some)
    &&& r matches Ok(c) ==> spec_parse_u128(byte_prefix(s, k)) == Some(c.amount as int)
    &&& r matches Ok(c) ==> c.denom@ == byte_suffix(s, k)
    &&& r matches Err(e) ==> e is GenericErr
    &&& k < s@.len() && r is Err ==> (generic_msg(r) matches Some(m) && "Parsing u128: "@.is_prefix_of(m))
}

/// Whether parsing `s` cuts it inside a character: the split counts
/// characters but cuts bytes.
pub open spec fn coin_split_inside_char(s: &str) -> bool {
    first_alphabetic_from(s@, 0) < s@.len() && !vstd::utf8::is_char_boundary(s.spec_bytes(), first_alphabetic_from(s@, 0))
}

/// The index of the first alphabetic character of `s`, or its length.
pub fn first_alphabetic(s: &str) -> (r: usize)
    ensures
        r == first_alphabetic_from(s@, 0),
        forall|j: int| 0 <= j < r && (s@[j] as u32) < 128 ==> !is_ascii_letter(#[trigger] s@[j]),
        r < s@.len() && (s@[r as int] as u32) < 128 ==> is_ascii_letter(s@[r as int]),
{
    let n = s.unicode_len();
    let mut i: usize = 0;
    proof {
        lemma_first_alphabetic_bounds(s@, 0);
    }
    while i < n
        invariant
            n == s@.len(),
            i <= n,
            forall|j: int| 0 <= j < i ==> !spec_is_alphabetic(#[trigger] s@[j]),
            forall|j: int| 0 <= j < i && (s@[j] as u32) < 128 ==> !is_ascii_letter(#[trigger] s@[j]),
            first_alphabetic_from(s@, 0) >= i,
            0 <= first_alphabetic_from(s@, 0) <= s@.len(),
            forall|j: int| 0 <= j < first_alphabetic_from(s@, 0) ==> !spec_is_alphabetic(#[trigger] s@[j]),
            first_alphabetic_from(s@, 0) < s@.len() ==> spec_is_alphabetic(s@[first_alphabetic_from(s@, 0)]),
        decreases n - i,
    {
        let c = s.get_char(i);
        if char_is_alphabetic(c) {
            return i;
        }
        i = i + 1;
    }
    i
}

/// Parses a coin written as an amount followed by its denomination, such as
/// `100uluna`: the string is split before its first alphabetic character
/// (a denomination never starts with a digit). The split index counts
/// characters but cuts bytes, so `requires` leaves out the strings where it
/// falls inside a character, on which slicing panics.
pub fn parse_coin(s: &str) -> (r: Result<Coin, StdError>)
    requires
        !coin_split_inside_char(s),
    ensures
        parse_coin_result(s, r),
{
    let i = first_alphabetic(s);
    if i < s.unicode_len() {
        proof {
            vstd::utf8::encode_utf8_decode_utf8(s@);
        }
        let (head, tail) = s.split_at(i);
        proof {
            vstd::utf8::encode_utf8_decode_utf8(head@);
            vstd::utf8::encode_utf8_decode_utf8(tail@);
            assert(head.spec_bytes() == vstd::utf8::encode_utf8(head@));
            assert(tail.spec_bytes() == vstd::utf8::encode_utf8(tail@));
        }
        let amount = match uint128_from_str(head) {
            Ok(a) => a,
            Err(e) => return Err(e),
        };
        return Ok(Coin::new(amount, String::from_str(tail)));
    }
    let mut msg = String::from_str("failed to parse coin: ");
    msg.append(s);
    Err(StdError::GenericErr { msg })
}

/// Parses a coin, or answers `None` where the split falls inside a
/// character, on which `parse_coin` would panic.
pub fn try_parse_coin(s: &str) -> (r: Option<Result<Coin, StdError>>)
    ensures
        r is None <==> coin_split_inside_char(s),
        r matches Some(p) ==> parse_coin_result(s, p),
{
    let i = first_alphabetic(s);
    if i < s.unicode_len() && !s.is_char_boundary(i) {
        return None;
    }
    Some(parse_coin(s))
}

proof fn lemma_encode_concat(a: Seq<char>, b: Seq<char>)
    ensures
        vstd::utf8::encode_utf8(a + b) == vstd::utf8::encode_utf8(a) + vstd::utf8::encode_utf8(b),
    decreases a.len(),
{
    if a.len() > 0 {
        assert((a + b)[0] == a[0]);
        assert((a + b).drop_first() =~= a.drop_first() + b);
        lemma_encode_concat(a.drop_first(), b);
        assert(vstd::utf8::encode_utf8(a + b) =~= vstd::utf8::encode_utf8(a) + vstd::utf8::encode_utf8(b));
    } else {
        assert(a + b =~= b);
        assert(vstd::utf8::encode_utf8(a) =~= Seq::<u8>::empty());
        assert(vstd::utf8::encode_utf8(a) + vstd::utf8::encode_utf8(b) =~= vstd::utf8::encode_utf8(b));
    }
}

proof fn lemma_encode_ascii_len(a: Seq<char>)
    requires
        forall|j: int| 0 <= j < a.len() ==> ((#[trigger] a[j]) as u32) < 128,
    ensures
        vstd::utf8::encode_utf8(a).len() == a.len(),
    decreases a.len(),
{
    if a.len() > 0 {
        assert(a[0] as u32 <= 0x7F);
        assert forall|j: int| 0 <= j < a.drop_first().len() implies ((#[trigger] a.drop_first()[j]) as u32) < 128 by {
            assert(a.drop_first()[j] == a[j + 1]);
        }
        lemma_encode_ascii_len(a.drop_first());
    }
}

proof fn lemma_decimal_string_digits(n: nat)
    ensures
        decimal_string(n).len() > 0,
        forall|j: int| 0 <= j < decimal_string(n).len() ==> crate::text::is_digit(#[trigger] decimal_string(n)[j]),
        crate::text::digits_value(decimal_string(n)) == n,
    decreases n,
{
    lemma_digit_char_value((n % 10) as int);
    if n >= 10 {
        lemma_decimal_string_digits(n / 10);
        let p = decimal_string(n / 10);
        let t = p.push(crate::text::digit_char((n % 10) as int));
        assert(t.drop_last() =~= p);
        assert(t.last() == crate::text::digit_char((n % 10) as int));
        assert(crate::text::digits_value(t) == (n / 10) * 10 + n % 10);
        assert((n / 10) * 10 + n % 10 == n) by (nonlinear_arith);
        assert(decimal_string(n) == t);
        assert forall|j: int| 0 <= j < t.len() implies crate::text::is_digit(#[trigger] t[j]) by {
            if j < p.len() {
                assert(t[j] == p[j]);
            }
        }
    } else {
        let t = decimal_string(n);
        assert(t == seq![crate::text::digit_char(n as int)]);
        assert(t.drop_last() =~= Seq::<char>::empty());
        assert(crate::text::digits_value(t.drop_last()) == 0);
        assert(n % 10 == n);
        assert(crate::text::digits_value(t) == n);
    }
}

proof fn lemma_digit_char_value(d: int)
    requires
        0 <= d < 10,
    ensures
        (crate::text::digit_char(d) as int) - ('0' as int) == d,
        crate::text::is_digit(crate::text::digit_char(d)),
{
}

/// A coin written as an amount in decimal digits followed by a denomination
/// that starts with an ASCII letter parses back to that amount and
/// denomination.
pub proof fn law_parse_coin_round_trip(s: &str, n: u128, d: Seq<char>, r: Result<Coin, StdError>)
    requires
        s@ == decimal_string(n as nat) + d,
        d.len() > 0,
        (d[0] as u32) < 128,
        is_ascii_letter(d[0]),
        parse_coin_result(s, r),
    ensures
        r matches Ok(c) && c.amount == n && c.denom@ == d,
{
    let ds = decimal_string(n as nat);
    lemma_decimal_string_digits(n as nat);
    let k = first_alphabetic_from(s@, 0);
    lemma_first_alphabetic_bounds(s@, 0);
    assert(s@[ds.len() as int] == d[0]);
    // the split falls at the end of the digits
    if k > ds.len() {
        assert(!is_ascii_letter(s@[ds.len() as int]));
    }
    if k < ds.len() {
        assert(s@[k] == ds[k]);
        assert(crate::text::is_digit(ds[k]));
    }
    assert(k == ds.len());
    // the digits take one byte each
    assert forall|j: int| 0 <= j < ds.len() implies ((#[trigger] ds[j]) as u32) < 128 by {
        assert(crate::text::is_digit(ds[j]));
    }
    lemma_encode_ascii_len(ds);
    lemma_encode_concat(ds, d);
    let bytes = s.spec_bytes();
    assert(bytes == vstd::utf8::encode_utf8(ds) + vstd::utf8::encode_utf8(d));
    assert(bytes.subrange(0, k) =~= vstd::utf8::encode_utf8(ds));
    assert(bytes.subrange(k, bytes.len() as int) =~= vstd::utf8::encode_utf8(d));
    vstd::utf8::encode_utf8_decode_utf8(ds);
    vstd::utf8::encode_utf8_decode_utf8(d);
    assert(byte_prefix(s, k) == ds);
    assert(byte_suffix(s, k) == d);
    // and the digits parse to the amount
    assert(ds[0] != '+') by {
        assert(crate::text::is_digit(ds[0]));
    }
    assert(spec_parse_u128(ds) == Some(n as int));
}

/// Equality of two strings by their characters.
pub fn str_eq(a: &str, b: &str) -> (r: bool)
    ensures
        r == (a@ == b@),
{
    let n = a.unicode_len();
    if n != b.unicode_len() {
        return false;
    }
    let mut i: usize = 0;
    while i < n
        invariant
            n == a@.len(),
            n == b@.len(),
            i <= n,
            forall|j: int| 0 <= j < i ==> a@[j] == b@[j],
        decreases n - i,
    {
        if a.get_char(i) != b.get_char(i) {
            return false;
        }
        i = i + 1;
    }
    assert(a@ =~= b@);
    true
}

/// The errors of the hub contract.
#[derive(Debug, PartialEq, Eq)]
pub enum ContractError {
    Std(StdError),
    Overflow,
    Unauthorized,
    UnauthorizedSenderNotNewOwner,
    UnauthorizedSenderNotVoteOperator,
    ExpectingStakeToken(String),
    ProtocolRewardFeeTooHigh,
    CantBeZero(String),
    SubmitBatchAfter(u64),
    CallbackOnlyCalledByContract,
    InvalidReplyId(u64),
    DonationsDisabled,
    NoTokensAvailable(String),
    ValidatorAlreadyWhitelisted(String),
    ValidatorNotWhitelisted(String),
    CannotFindInstantiateEvent,
    CannotFindContractAddress,
    NoVoteOperatorSet,
    ComputeUndelegationsWrong(u128),
    MigrationError,
}

/// Only the owner passes.
pub fn assert_owner(owner: &String, sender: &String) -> (r: Result<(), ContractError>)
    ensures
        r is Ok <==> sender@ == owner@,
        r is Err ==> r == Err::<(), ContractError>(ContractError::Unauthorized),
{
    if sender.eq(owner) {
        Ok(())
    } else {
        Err(ContractError::Unauthorized)
    }
}

/// Only the vote operator passes; where none is set, nobody does.
pub fn assert_vote_operator(vote_operator: &Option<String>, sender: &String) -> (r: Result<(), ContractError>)
    ensures
        vote_operator is None ==> r == Err::<(), ContractError>(ContractError::NoVoteOperatorSet),
        vote_operator matches Some(op) ==> (r is Ok <==> sender@ == op@),
        vote_operator matches Some(op) && sender@ != op@ ==> r == Err::<(), ContractError>(ContractError::UnauthorizedSenderNotVoteOperator),
{
    match vote_operator {
        None => Err(ContractError::NoVoteOperatorSet),
        Some(op) => {
            if sender.eq(op) {
                Ok(())
            } else {
                Err(ContractError::UnauthorizedSenderNotVoteOperator)
            }
        },
    }
}

/// Callbacks may only come from the contract itself.
pub fn assert_callback_sender(contract: &String, sender: &String) -> (r: Result<(), ContractError>)
    ensures
        r is Ok <==> sender@ == contract@,
        r is Err ==> r == Err::<(), ContractError>(ContractError::CallbackOnlyCalledByContract),
{
    if contract.eq(sender) {
        Ok(())
    } else {
        Err(ContractError::CallbackOnlyCalledByContract)
    }
}

/// Unbonding requests come as the stake token only.
pub fn assert_stake_token(stake_token: &String, sender: &String) -> (r: Result<(), ContractError>)
    ensures
        r is Ok <==> sender@ == stake_token@,
        r matches Err(ContractError::ExpectingStakeToken(s)) ==> s@ == sender@,
        r matches Err(e) ==> e is ExpectingStakeToken,
{
    if sender.eq(stake_token) {
        Ok(())
    } else {
        Err(ContractError::ExpectingStakeToken(sender.clone()))
    }
}

/// The one reply the hub expects is the instantiation of its stake token.
pub fn check_reply_id(id: u64) -> (r: Result<(), ContractError>)
    ensures
        r is Ok <==> id == 1,
        r is Err ==> r == Err::<(), ContractError>(ContractError::InvalidReplyId(id)),
{
    if id == 1 {
        Ok(())
    } else {
        Err(ContractError::InvalidReplyId(id))
    }
}

/// The names in `s`, each kept at its first occurrence.
pub open spec fn dedup(s: Seq<Seq<char>>) -> Seq<Seq<char>>
    decreases s.len(),
{
    if s.len() == 0 {
        s
    } else {
        let p = dedup(s.drop_last());
        if s.drop_last().contains(s.last()) {
            p
        } else {
            p.push(s.last())
        }
    }
}

/// The validators' names.
pub open spec fn names(v: Seq<String>) -> Seq<Seq<char>> {
    v.map_values(|s: String| s@)
}

/// Deduplication keeps exactly the names that occur, each once.
pub proof fn law_dedup_keeps_each_once(s: Seq<Seq<char>>)
    ensures
        forall|x: Seq<char>| dedup(s).contains(x) <==> s.contains(x),
        forall|i: int, j: int| 0 <= i < j < dedup(s).len() ==> dedup(s)[i] != dedup(s)[j],
    decreases s.len(),
{
    if s.len() > 0 {
        let d = s.drop_last();
        law_dedup_keeps_each_once(d);
        let l = s.last();
        let p = dedup(d);
        assert forall|x: Seq<char>| s.contains(x) <==> (d.contains(x) || x == l) by {
            if s.contains(x) {
                let k = choose|k: int| 0 <= k < s.len() && s[k] == x;
                if k < s.len() - 1 {
                    assert(d[k] == x);
                }
            }
            if d.contains(x) {
                let k = choose|k: int| 0 <= k < d.len() && d[k] == x;
                assert(s[k] == x);
            }
            if x == l {
                assert(s[s.len() - 1] == x);
            }
        }
        assert forall|x: Seq<char>| p.push(l).contains(x) <==> (p.contains(x) || x == l) by {
            if p.push(l).contains(x) {
                let k = choose|k: int| 0 <= k < p.push(l).len() && p.push(l)[k] == x;
                if k < p.len() {
                    assert(p[k] == x);
                }
            }
            if p.contains(x) {
                let k = choose|k: int| 0 <= k < p.len() && p[k] == x;
                assert(p.push(l)[k] == x);
            }
            if x == l {
                assert(p.push(l)[p.len() as int] == x);
            }
        }
        if !d.contains(s.last()) {
            assert forall|i: int, j: int| 0 <= i < j < dedup(s).len() implies dedup(s)[i] != dedup(s)[j] by {
                if j == dedup(s).len() - 1 && dedup(s)[i] == dedup(s)[j] {
                    assert(dedup(d).contains(dedup(d)[i]));
                }
            }
        }
    }
}

/// Whether `v` holds a string equal to `x`.
pub fn contains_name(v: &Vec<String>, x: &String) -> (r: bool)
    ensures
        r == names(v@).contains(x@),
{
    let mut i: usize = 0;
    while i < v.len()
        invariant
            i <= v@.len(),
            forall|j: int| 0 <= j < i ==> v@[j]@ != x@,
        decreases v@.len() - i,
    {
        if v[i].eq(x) {
            assert(names(v@)[i as int] == x@);
            return true;
        }
        i = i + 1;
    }
    assert forall|j: int| 0 <= j < names(v@).len() implies names(v@)[j] != x@ by {
        assert(v@[j]@ != x@);
    }
    false
}

/// Removes repeated validators, keeping each at its first occurrence.
pub fn dedupe(v: &mut Vec<String>)
    ensures
        names(final(v)@) == dedup(names(old(v)@)),
{
    let mut out: Vec<String> = Vec::new();
    let mut i: usize = 0;
    let ghost orig = names(v@);
    while i < v.len()
        invariant
            i <= v@.len(),
            orig == names(v@),
            names(out@) == dedup(orig.take(i as int)),
        decreases v@.len() - i,
    {
        proof {
            let t = orig.take(i as int + 1);
            assert(t.drop_last() =~= orig.take(i as int));
            law_dedup_keeps_each_once(orig.take(i as int));
        }
        let ghost prev = out@;
        if !contains_name(&out, &v[i]) {
            out.push(v[i].clone());
            proof {
                assert(names(out@) =~= names(prev).push(v@[i as int]@));
            }
        }
        i = i + 1;
    }
    proof {
        assert(orig.take(i as int) =~= orig);
    }
    *v = out;
}

/// A delegation of the hub: a validator and an amount of the contract's
/// denomination.
#[derive(Debug, PartialEq, Eq)]
pub struct Delegation {
    pub validator: String,
    pub amount: u128,
}

/// The delegations of the contract's denomination that are not zero, each
/// as validator and amount, in order.
pub open spec fn spec_own_delegations(d: Seq<(Seq<char>, Seq<char>, u128)>, denom: Seq<char>) -> Seq<(Seq<char>, u128)>
    decreases d.len(),
{
    if d.len() == 0 {
        Seq::empty()
    } else {
        let p = spec_own_delegations(d.drop_last(), denom);
        if d.last().1 == denom && d.last().2 != 0 {
            p.push((d.last().0, d.last().2))
        } else {
            p
        }
    }
}

/// Delegations as validator, denomination and amount.
pub open spec fn delegations_view(d: Seq<(String, Coin)>) -> Seq<(Seq<char>, Seq<char>, u128)> {
    d.map_values(|e: (String, Coin)| (e.0@, e.1.denom@, e.1.amount))
}

/// Keeps the delegations in `denom` that are not zero.
pub fn own_delegations(all: &Vec<(String, Coin)>, denom: &str) -> (r: Vec<Delegation>)
    ensures
        r@.map_values(|e: Delegation| (e.validator@, e.amount)) == spec_own_delegations(delegations_view(all@), denom@),
{
    let mut out: Vec<Delegation> = Vec::new();
    let mut i: usize = 0;
    while i < all.len()
        invariant
            i <= all@.len(),
            out@.map_values(|e: Delegation| (e.validator@, e.amount)) == spec_own_delegations(delegations_view(all@.take(i as int)), denom@),
        decreases all@.len() - i,
    {
        proof {
            let t = delegations_view(all@.take(i as int + 1));
            assert(t.drop_last() =~= delegations_view(all@.take(i as int)));
        }
        let ghost prev = out@;
        if str_eq(all[i].1.denom.as_str(), denom) && all[i].1.amount != 0 {
            out.push(Delegation { validator: all[i].0.clone(), amount: all[i].1.amount });
            proof {
                assert(out@.map_values(|e: Delegation| (e.validator@, e.amount)) =~= prev.map_values(|e: Delegation| (e.validator@, e.amount)).push((all@[i as int].0@, all@[i as int].1.amount)));
            }
        }
        i = i + 1;
    }
    proof {
        assert(all@.take(i as int) =~= all@);
    }
    out
}

/// A user's share in an unbonding batch.
#[derive(Debug, PartialEq, Eq)]
pub struct UnbondRequest {
    /// The batch.
    pub id: u64,
    /// The user's address.
    pub user: String,
    /// The user's share in the batch.
    pub shares: u128,
}

/// An unbonding request as listed by batch.
#[derive(Debug, PartialEq, Eq)]
pub struct UnbondRequestsByBatchResponseItem {
    pub user: String,
    pub shares: u128,
}

/// An unbonding request as listed by user.
#[derive(Debug, PartialEq, Eq)]
pub struct UnbondRequestsByUserResponseItem {
    pub id: u64,
    pub shares: u128,
}

impl From<UnbondRequest> for UnbondRequestsByBatchResponseItem {
    fn from(s: UnbondRequest) -> (r: Self) {
        UnbondRequestsByBatchResponseItem { user: s.user, shares: s.shares }
    }
}

impl vstd::std_specs::convert::FromSpecImpl<UnbondRequest> for UnbondRequestsByBatchResponseItem {
    open spec fn obeys_from_spec() -> bool {
        true
    }

    open spec fn from_spec(s: UnbondRequest) -> Self {
        UnbondRequestsByBatchResponseItem { user: s.user, shares: s.shares }
    }
}

impl From<UnbondRequest> for UnbondRequestsByUserResponseItem {
    fn from(s: UnbondRequest) -> (r: Self) {
        UnbondRequestsByUserResponseItem { id: s.id, shares: s.shares }
    }
}

impl vstd::std_specs::convert::FromSpecImpl<UnbondRequest> for UnbondRequestsByUserResponseItem {
    open spec fn obeys_from_spec() -> bool {
        true
    }

    open spec fn from_spec(s: UnbondRequest) -> Self {
        UnbondRequestsByUserResponseItem { id: s.id, shares: s.shares }
    }
}

} // verus!
