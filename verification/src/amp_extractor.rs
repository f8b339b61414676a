//! Message types of the amplifier yield extractor.
use vstd::prelude::*;

verus! {

/// How the hub contract is read for the exchange rate.
#[derive(Clone, Copy, Debug, PartialEq, Eq, Structural)]
pub enum LiquidStakingType {
    Eris,
    Stader,
    Steak,
}

} // verus!
