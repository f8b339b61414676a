//! Verified core of the Eris amplified staking contracts: the arithmetic of
//! shares, exchange rates and fees, the delegation strategy of the hub, the
//! accounting of the arbitrage vault and the yield extractor, and the small
//! validation rules of the shared message types.
//!
//! Chain I/O (storage, queries, message serialisation) is not part of this
//! crate: its functions take the values that were read and hand back the
//! values that are to be written or sent.
pub mod decimal;
pub mod error;
pub mod yield_extractor;
pub mod text;
pub mod hub;
pub mod delegation;
pub mod arb_vault;
pub mod gov;
pub mod asset;
pub mod ampz;
pub mod fees_collector;
pub mod voting_escrow;
pub mod farm;
pub mod amp_extractor;
