//! The fee collector's targets: who receives the collected fees, and by
//! which rule.
use vstd::prelude::*;
use vstd::string::StringExecFns;
use crate::asset::{AssetInfo, info_view};
use crate::error::{generic_msg, StdError};
use crate::text::{decimal_string, push_decimal};

verus! {

/// How a target is served.
#[derive(Debug, PartialEq, Eq)]
pub enum TargetType {
    /// In proportion to its weight.
    Weight,
    /// First, up to an amount.
    FillUpFirst { filled_to: u128, min_fill: Option<u128> },
    /// Over IBC.
    Ibc { channel_id: String, ics20: Option<String> },
}

/// A receiver of collected fees.
#[derive(Debug, PartialEq, Eq)]
pub struct TargetConfig {
    pub addr: String,
    pub weight: u64,
    pub msg: Option<Vec<u8>>,
    pub target_type: TargetType,
    /// Sent as it is, without swapping it to the stable coin.
    pub asset_override: Option<AssetInfo>,
}

/// The target type of targets written without one.
pub fn default_type() -> (r: TargetType)
    ensures
        r is Weight,
{
    TargetType::Weight
}

impl TargetType {
    pub fn duplicate(&self) -> (r: TargetType)
        ensures
            r == *self,
    {
        match self {
            TargetType::Weight => TargetType::Weight,
            TargetType::FillUpFirst { filled_to, min_fill } => TargetType::FillUpFirst { filled_to: *filled_to, min_fill: *min_fill },
            TargetType::Ibc { channel_id, ics20 } => TargetType::Ibc {
                channel_id: channel_id.clone(),
                ics20: match ics20 {
                    Some(s) => Some(s.clone()),
                    None => None,
                },
            },
        }
    }
}

impl TargetConfig {
    /// A weighted target.
    pub fn new(addr: String, weight: u64) -> (r: TargetConfig)
        ensures
            r.addr == addr && r.weight == weight && r.msg is None && r.target_type is Weight && r.asset_override is None,
    {
        TargetConfig { addr, weight, msg: None, target_type: TargetType::Weight, asset_override: None }
    }

    /// A weighted target that receives `asset_override` as it is.
    pub fn new_asset(addr: String, weight: u64, asset_override: AssetInfo) -> (r: TargetConfig)
        ensures
            r.addr == addr && r.weight == weight && r.msg is None && r.target_type is Weight && r.asset_override == Some(asset_override),
    {
        TargetConfig { addr, weight, msg: None, target_type: TargetType::Weight, asset_override: Some(asset_override) }
    }

    /// A weighted target that is sent `msg` with its fees.
    pub fn new_msg(addr: String, weight: u64, msg: Option<Vec<u8>>) -> (r: TargetConfig)
        ensures
            r.addr == addr && r.weight == weight && r.msg == msg && r.target_type is Weight && r.asset_override is None,
    {
        TargetConfig { addr, weight, msg, target_type: TargetType::Weight, asset_override: None }
    }

    /// Checks the target: one filled up first carries no weight. Returns a
    /// copy.
    pub fn validate(&self) -> (r: Result<TargetConfig, StdError>)
        ensures
            self.target_type is FillUpFirst && self.weight > 0 ==> generic_msg(r) == Some("FillUp can't have a weight ("@ + decimal_string(self.weight as nat) + ")"@),
            !(self.target_type is FillUpFirst && self.weight > 0) ==> (r matches Ok(c) && c.addr@ == self.addr@ && c.weight == self.weight && match (c.msg, self.msg) {
                    (Some(a), Some(b)) => a@ == b@,
                    (None, None) => true,
                    _ => false,
                } && c.target_type == self.target_type
                && match (c.asset_override, self.asset_override) {
                    (Some(a), Some(b)) => info_view(a) == info_view(b),
                    (None, None) => true,
                    _ => false,
                }),
    {
        match self.target_type {
            TargetType::FillUpFirst { .. } => {
                if self.weight > 0 {
                    let mut m = String::from_str("FillUp can't have a weight (");
                    push_decimal(&mut m, self.weight as u128);
                    m.append(")");
                    return Err(StdError::GenericErr { msg: m });
                }
            },
            _ => {},
        }
        Ok(TargetConfig {
            addr: self.addr.clone(),
            weight: self.weight,
            msg: match &self.msg {
                Some(m) => Some(m.clone()),
                None => None,
            },
            target_type: self.target_type.duplicate(),
            asset_override: match &self.asset_override {
                Some(a) => Some(a.duplicate()),
                None => None,
            },
        })
    }
}

} // verus!
