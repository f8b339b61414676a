//! Message types of the voting escrow.
use vstd::prelude::*;
use vstd::string::StringExecFns;

verus! {

/// The hooks of the locked token.
#[derive(Debug, PartialEq, Eq)]
pub enum Cw20HookMsg {
    /// Lock for `time` seconds.
    CreateLock { time: u64 },
    /// Add to another user's lock.
    DepositFor { user: String },
    /// Add to one's own lock.
    ExtendLockAmount,
}

/// Whether voters are blacklisted.
#[derive(Debug, PartialEq, Eq)]
pub enum BlacklistedVotersResponse {
    VotersBlacklisted,
    VotersNotBlacklisted { voter: String },
}

impl BlacklistedVotersResponse {
    /// The response as displayed.
    pub fn to_display_string(&self) -> (r: String)
        ensures
            self is VotersBlacklisted ==> r@ == "Voters are blacklisted!"@,
            self matches BlacklistedVotersResponse::VotersNotBlacklisted { voter } ==> r@ == "Voter is not blacklisted: "@ + voter@,
    {
        match self {
            BlacklistedVotersResponse::VotersBlacklisted => String::from_str("Voters are blacklisted!"),
            BlacklistedVotersResponse::VotersNotBlacklisted { voter } => {
                let mut s = String::from_str("Voter is not blacklisted: ");
                s.append(voter.as_str());
                s
            },
        }
    }
}

} // verus!
