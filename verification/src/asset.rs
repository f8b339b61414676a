//! Assets: native coins and CW20 tokens with an amount, and how a batch of
//! them is sent to the zapper for a swap.
use vstd::prelude::*;
use vstd::string::StringExecFns;
use crate::error::{generic_msg, StdError};
use crate::fees_collector::TargetConfig;
use crate::hub::Coin;

verus! {

/// A native denomination or a CW20 token contract.
#[derive(Debug, PartialEq, Eq)]
pub enum AssetInfo {
    Token { contract_addr: String },
    NativeToken { denom: String },
}

/// An amount of an asset.
#[derive(Debug, PartialEq, Eq)]
pub struct Asset {
    pub info: AssetInfo,
    pub amount: u128,
}

/// The zapper's own notation of an asset: a native denomination or a CW20
/// address.
#[derive(Debug, PartialEq, Eq)]
pub enum AssetInfoBase {
    Native(String),
    Cw20(String),
}

/// Whether the zapper can swap between two assets.
#[derive(Clone, Copy, Debug, PartialEq, Eq, Structural)]
pub struct SupportsSwapResponse {
    pub suppored: bool,
}

/// An asset info as a tag (native or not) and its address or denomination.
pub open spec fn info_view(i: AssetInfo) -> (bool, Seq<char>) {
    match i {
        AssetInfo::Token { contract_addr } => (false, contract_addr@),
        AssetInfo::NativeToken { denom } => (true, denom@),
    }
}

/// An asset as its info and amount.
pub open spec fn asset_view(a: Asset) -> ((bool, Seq<char>), u128) {
    (info_view(a.info), a.amount)
}

impl AssetInfo {
    pub fn duplicate(&self) -> (r: AssetInfo)
        ensures
            info_view(r) == info_view(*self),
    {
        match self {
            AssetInfo::Token { contract_addr } => AssetInfo::Token { contract_addr: contract_addr.clone() },
            AssetInfo::NativeToken { denom } => AssetInfo::NativeToken { denom: denom.clone() },
        }
    }
}

/// How assets go to the zapper for a swap: native coins as funds of the
/// swap message, CW20 tokens by a transfer each; the infos of all of them
/// name what is swapped. Assets of zero amount are left out.
#[derive(Debug)]
pub struct SwapPlan {
    pub funds: Vec<Coin>,
    pub transfers: Vec<Asset>,
    pub infos: Vec<AssetInfo>,
}

/// The non-zero assets, in order.
pub open spec fn nonzero(s: Seq<((bool, Seq<char>), u128)>) -> Seq<((bool, Seq<char>), u128)>
    decreases s.len(),
{
    if s.len() == 0 {
        s
    } else if s.last().1 == 0 {
        nonzero(s.drop_last())
    } else {
        nonzero(s.drop_last()).push(s.last())
    }
}

/// The assets as views.
pub open spec fn assets_view(s: Seq<Asset>) -> Seq<((bool, Seq<char>), u128)> {
    s.map_values(|a: Asset| asset_view(a))
}

/// Splits the assets of a swap into funds, transfers and infos.
pub fn swap_plan(assets: &Vec<Asset>) -> (r: SwapPlan)
    ensures
        r.infos@.map_values(|i: AssetInfo| info_view(i)) == nonzero(assets_view(assets@)).map_values(|a: ((bool, Seq<char>), u128)| a.0),
        r.funds@.map_values(|c: Coin| ((true, c.denom@), c.amount)) == nonzero(assets_view(assets@)).filter(|a: ((bool, Seq<char>), u128)| a.0.0),
        assets_view(r.transfers@) == nonzero(assets_view(assets@)).filter(|a: ((bool, Seq<char>), u128)| !a.0.0),
{
    let mut funds: Vec<Coin> = Vec::new();
    let mut transfers: Vec<Asset> = Vec::new();
    let mut infos: Vec<AssetInfo> = Vec::new();
    let mut i: usize = 0;
    while i < assets.len()
        invariant
            i <= assets@.len(),
            infos@.map_values(|i: AssetInfo| info_view(i)) == nonzero(assets_view(assets@.take(i as int))).map_values(|a: ((bool, Seq<char>), u128)| a.0),
            funds@.map_values(|c: Coin| ((true, c.denom@), c.amount)) == nonzero(assets_view(assets@.take(i as int))).filter(|a: ((bool, Seq<char>), u128)| a.0.0),
            assets_view(transfers@) == nonzero(assets_view(assets@.take(i as int))).filter(|a: ((bool, Seq<char>), u128)| !a.0.0),
        decreases assets@.len() - i,
    {
        let ghost before = nonzero(assets_view(assets@.take(i as int)));
        proof {
            let t = assets_view(assets@.take(i as int + 1));
            assert(t.drop_last() =~= assets_view(assets@.take(i as int)));
            assert(t.last() == asset_view(assets@[i as int]));
        }
        let asset = &assets[i];
        if asset.amount != 0 {
            let ghost fprev = funds@;
            let ghost tprev = transfers@;
            let ghost iprev = infos@;
            proof {
                reveal_with_fuel(Seq::<_>::filter, 1);
                assert(before.push(asset_view(*asset)).drop_last() =~= before);
            }
            match &asset.info {
                AssetInfo::NativeToken { denom } => {
                    funds.push(Coin { denom: denom.clone(), amount: asset.amount });
                    proof {
                        assert(funds@.map_values(|c: Coin| ((true, c.denom@), c.amount)) =~= fprev.map_values(|c: Coin| ((true, c.denom@), c.amount)).push(asset_view(*asset)));
                    }
                },
                AssetInfo::Token { contract_addr } => {
                    transfers.push(Asset { info: AssetInfo::Token { contract_addr: contract_addr.clone() }, amount: asset.amount });
                    proof {
                        assert(assets_view(transfers@) =~= assets_view(tprev).push(asset_view(*asset)));
                    }
                },
            }
            infos.push(asset.info.duplicate());
            proof {
                assert(infos@.map_values(|i: AssetInfo| info_view(i)) =~= iprev.map_values(|i: AssetInfo| info_view(i)).push(info_view(asset.info)));
                assert(before.push(asset_view(*asset)).map_values(|a: ((bool, Seq<char>), u128)| a.0) =~= before.map_values(|a: ((bool, Seq<char>), u128)| a.0).push(info_view(asset.info)));
            }
        }
        i = i + 1;
    }
    proof {
        assert(assets@.take(i as int) =~= assets@);
    }
    SwapPlan { funds, transfers, infos }
}

/// When an allowance expires: at a block height, at a time (in
/// nanoseconds), or never.
#[derive(Clone, Copy, Debug, PartialEq, Eq, Structural)]
pub enum Expiration {
    AtHeight(u64),
    AtTime(u64),
    Never,
}

/// A message that moves an asset, as the chain is to receive it.
#[derive(Debug, PartialEq, Eq)]
pub enum TransferAction {
    /// A bank transfer of native coins.
    BankSend { to_address: String, denom: String, amount: u128 },
    /// A CW20 `Transfer` on the token contract.
    Cw20Transfer { token: String, recipient: String, amount: u128 },
    /// A CW20 `Send` of the token to a contract, with its hook message.
    Cw20Send { token: String, contract: String, amount: u128, msg: Vec<u8> },
    /// An execution of a contract with `msg`, the coins sent as funds.
    ExecuteWithFunds { contract: String, msg: Vec<u8>, denom: String, amount: u128 },
    /// A CW20 `TransferFrom` on the token contract.
    Cw20TransferFrom { token: String, owner: String, recipient: String, amount: u128 },
    /// A CW20 `IncreaseAllowance` on `contract`.
    Cw20IncreaseAllowance { contract: String, spender: String, amount: u128, expires: Option<Expiration> },
}

/// A transfer as its kind (0 to 5) and its fields as text, amount and hook
/// message.
pub open spec fn action_view(a: TransferAction) -> (int, Seq<char>, Seq<char>, u128, Seq<u8>) {
    match a {
        TransferAction::BankSend { to_address, denom, amount } => (0, to_address@, denom@, amount, Seq::empty()),
        TransferAction::Cw20Transfer { token, recipient, amount } => (1, token@, recipient@, amount, Seq::empty()),
        TransferAction::Cw20Send { token, contract, amount, msg } => (2, token@, contract@, amount, msg@),
        TransferAction::ExecuteWithFunds { contract, msg, denom, amount } => (3, contract@, denom@, amount, msg@),
        TransferAction::Cw20TransferFrom { token, owner: _, recipient, amount } => (4, token@, recipient@, amount, Seq::empty()),
        TransferAction::Cw20IncreaseAllowance { contract, spender, amount, expires: _ } => (5, contract@, spender@, amount, Seq::empty()),
    }
}

/// The plain transfer of an asset to `to`: a bank send of a native coin, a
/// CW20 transfer of a token.
pub open spec fn spec_transfer(a: ((bool, Seq<char>), u128), to: Seq<char>) -> (int, Seq<char>, Seq<char>, u128, Seq<u8>) {
    if a.0.0 {
        (0, to, a.0.1, a.1, Seq::empty())
    } else {
        (1, a.0.1, to, a.1, Seq::empty())
    }
}

impl Asset {
    /// Sends the asset to `to`.
    pub fn transfer_msg(&self, to: &String) -> (r: TransferAction)
        ensures
            action_view(r) == spec_transfer(asset_view(*self), to@),
    {
        match &self.info {
            AssetInfo::Token { contract_addr } => TransferAction::Cw20Transfer {
                token: contract_addr.clone(),
                recipient: to.clone(),
                amount: self.amount,
            },
            AssetInfo::NativeToken { denom } => TransferAction::BankSend {
                to_address: to.clone(),
                denom: denom.clone(),
                amount: self.amount,
            },
        }
    }

    /// Sends the asset to a fee target: with the target's hook message where
    /// it has one (a CW20 send of a token, an execution with the coins as
    /// funds), else as a plain transfer.
    pub fn transfer_msg_target(&self, to: &TargetConfig) -> (r: TransferAction)
        ensures
            to.msg is None ==> action_view(r) == spec_transfer(asset_view(*self), to.addr@),
            to.msg matches Some(m) ==> action_view(r) == if info_view(self.info).0 {
                (3int, to.addr@, info_view(self.info).1, self.amount, m@)
            } else {
                (2int, info_view(self.info).1, to.addr@, self.amount, m@)
            },
    {
        match &to.msg {
            Some(msg) => match &self.info {
                AssetInfo::Token { contract_addr } => TransferAction::Cw20Send {
                    token: contract_addr.clone(),
                    contract: to.addr.clone(),
                    amount: self.amount,
                    msg: msg.clone(),
                },
                AssetInfo::NativeToken { denom } => TransferAction::ExecuteWithFunds {
                    contract: to.addr.clone(),
                    msg: msg.clone(),
                    denom: denom.clone(),
                    amount: self.amount,
                },
            },
            None => self.transfer_msg(&to.addr),
        }
    }

    /// Moves a token from `from` to `to` under an allowance; native coins
    /// cannot be moved so.
    pub fn transfer_from_msg(&self, from: &String, to: &String) -> (r: Result<TransferAction, StdError>)
        ensures
            info_view(self.info).0 ==> generic_msg(r) == Some("TransferFrom does not apply to native tokens"@),
            !info_view(self.info).0 ==> (r matches Ok(a) && a matches TransferAction::Cw20TransferFrom { token, owner, recipient, amount }
                && token@ == info_view(self.info).1 && owner@ == from@ && recipient@ == to@ && amount == self.amount),
    {
        match &self.info {
            AssetInfo::Token { contract_addr } => Ok(TransferAction::Cw20TransferFrom {
                token: contract_addr.clone(),
                owner: from.clone(),
                recipient: to.clone(),
                amount: self.amount,
            }),
            AssetInfo::NativeToken { .. } => Err(StdError::generic_err("TransferFrom does not apply to native tokens")),
        }
    }

    /// Lets `spender` move the asset's amount, on the contract the asset
    /// names (its address, or its denomination for a native coin).
    pub fn increase_allowance_msg(&self, spender: String, expires: Option<Expiration>) -> (r: TransferAction)
        ensures
            r matches TransferAction::Cw20IncreaseAllowance { contract, spender: s, amount, expires: e }
                && contract@ == info_view(self.info).1 && s@ == spender@ && amount == self.amount && e == expires,
    {
        TransferAction::Cw20IncreaseAllowance {
            contract: self.info.to_display_string(),
            spender,
            amount: self.amount,
            expires,
        }
    }

    /// Takes a deposit of the asset from `sender` to `recipient`: nothing
    /// for a zero amount; a token is moved under the sender's allowance
    /// (the message is added to `messages`); a native coin must have been
    /// sent along, as exactly the funds of the message.
    pub fn deposit_asset(&self, sender: &String, funds: &Vec<Coin>, recipient: &String, messages: &mut Vec<TransferAction>) -> (r: Result<(), StdError>)
        ensures
            self.amount == 0 ==> r is Ok && final(messages)@ == old(messages)@,
            self.amount != 0 && !info_view(self.info).0 ==> (r is Ok && final(messages)@.len() == old(messages)@.len() + 1
                && final(messages)@.take(old(messages)@.len() as int) == old(messages)@
                && (final(messages)@.last() matches TransferAction::Cw20TransferFrom { token, owner, recipient: to, amount }
                && token@ == info_view(self.info).1 && owner@ == sender@ && to@ == recipient@ && amount == self.amount)),
            self.amount != 0 && info_view(self.info).0 ==> final(messages)@ == old(messages)@
                && (r is Ok <==> native_payment_ok(funds@, info_view(self.info).1, self.amount))
                && (r is Err ==> generic_msg(r) == Some(native_payment_msg(funds@, info_view(self.info).1, self.amount))),
    {
        if self.amount == 0 {
            return Ok(());
        }
        match &self.info {
            AssetInfo::Token { .. } => {
                let action = match self.transfer_from_msg(sender, recipient) {
                    Ok(a) => a,
                    Err(e) => return Err(e),
                };
                let ghost before = messages@;
                messages.push(action);
                proof {
                    assert(messages@.take(before.len() as int) =~= before);
                }
                Ok(())
            },
            AssetInfo::NativeToken { denom } => assert_sent_native(denom, self.amount, funds),
        }
    }
}

impl AssetInfo {
    /// The asset info in the zapper's notation.
    pub fn to_new(&self) -> (r: AssetInfoBase)
        ensures
            info_view(*self).0 ==> (r matches AssetInfoBase::Native(d) && d@ == info_view(*self).1),
            !info_view(*self).0 ==> (r matches AssetInfoBase::Cw20(a) && a@ == info_view(*self).1),
    {
        match self {
            AssetInfo::Token { contract_addr } => AssetInfoBase::Cw20(contract_addr.clone()),
            AssetInfo::NativeToken { denom } => AssetInfoBase::Native(denom.clone()),
        }
    }

    /// The address of a token or the denomination of a native coin, as the
    /// asset info is displayed.
    pub fn to_display_string(&self) -> (r: String)
        ensures
            r@ == info_view(*self).1,
    {
        match self {
            AssetInfo::Token { contract_addr } => contract_addr.clone(),
            AssetInfo::NativeToken { denom } => denom.clone(),
        }
    }
}

/// Whether the funds of a message pay exactly `amount` of `denom`: one coin,
/// not zero, of that denomination and amount.
pub open spec fn native_payment_ok(funds: Seq<Coin>, denom: Seq<char>, amount: u128) -> bool {
    &&& funds.len() == 1
    &&& funds[0].amount != 0
    &&& funds[0].denom@ == denom
    &&& funds[0].amount == amount
}

/// The message of a failed payment check, in the order the checks run.
pub open spec fn native_payment_msg(funds: Seq<Coin>, denom: Seq<char>, amount: u128) -> Seq<char> {
    if funds.len() == 0 {
        "No funds sent"@
    } else if funds.len() > 1 {
        "Sent more than one denomination"@
    } else if funds[0].amount == 0 {
        "No funds sent"@
    } else if funds[0].denom@ != denom {
        "Must send reserve token '"@ + denom + "'"@
    } else {
        "Native token balance mismatch between the argument and the transferred"@
    }
}

/// Calls `astroport::asset::Asset::assert_sent_native_token_balance` on a
/// native asset of `denom` and `amount`, with `funds` as the message's
/// funds (the sender plays no part). The source checks through
/// `cw_utils::must_pay` that exactly one coin, not zero, of `denom` was
/// sent, then that its amount is `amount`; every failure is a generic error
/// with the message of that check.
#[verifier::external_body]
fn assert_sent_native(denom: &String, amount: u128, funds: &Vec<Coin>) -> (r: Result<(), StdError>)
    ensures
        r is Ok <==> native_payment_ok(funds@, denom@, amount),
        r is Err ==> generic_msg(r) == Some(native_payment_msg(funds@, denom@, amount)),
{
    let asset = astroport::asset::Asset {
        info: astroport::asset::AssetInfo::NativeToken { denom: denom.clone() },
        amount: cosmwasm_std::Uint128::new(amount),
    };
    let info = cosmwasm_std::MessageInfo {
        sender: cosmwasm_std::Addr::unchecked(""),
        funds: funds.iter().map(|c| cosmwasm_std::Coin::new(c.amount, c.denom.clone())).collect(),
    };
    match asset.assert_sent_native_token_balance(&info) {
        Ok(()) => Ok(()),
        Err(cosmwasm_std::StdError::GenericErr { msg, .. }) => Err(StdError::GenericErr { msg }),
        Err(e) => Err(StdError::GenericErr { msg: e.to_string() }),
    }
}

} // verus!
