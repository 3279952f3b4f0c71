//! Fee rates by market kind and trader tier.

use crate::types::{FeeTier, PerpType};
use vstd::prelude::*;

verus! {

/// What a tier takes off the base taker rate, in units of 1/100000. The
/// top tier has a rate of its own and takes nothing off.
pub open spec fn tier_discount(fee_tier: FeeTier) -> int {
    match fee_tier {
        FeeTier::Base => 0,
        FeeTier::Zo2 => 10,
        FeeTier::Zo3 => 20,
        FeeTier::Zo4 => 30,
        FeeTier::Zo5 => 40,
        FeeTier::Zo6 => 50,
        FeeTier::Msrm => 0,
    }
}

/// The taker rate in units of 1/100000: a base rate of 100, or 200 on a
/// square market, less the tier's discount; the top tier pays 42, or 100 on
/// a square market.
pub open spec fn taker_rate_of(perp_type: PerpType, fee_tier: FeeTier) -> int {
    let square = perp_type == PerpType::Square;
    if fee_tier == FeeTier::Msrm {
        if square {
            100
        } else {
            42
        }
    } else {
        (if square {
            200int
        } else {
            100int
        }) - tier_discount(fee_tier)
    }
}

/// Returns the taker rate in units of 1/100000.
pub fn taker_rate(perp_type: PerpType, fee_tier: FeeTier) -> (r: u16)
    ensures
        r == taker_rate_of(perp_type, fee_tier),
{
    match perp_type {
        PerpType::Square => match fee_tier {
            FeeTier::Base => 200,
            FeeTier::Zo2 => 190,
            FeeTier::Zo3 => 180,
            FeeTier::Zo4 => 170,
            FeeTier::Zo5 => 160,
            FeeTier::Zo6 => 150,
            FeeTier::Msrm => 100,
        },
        _ => match fee_tier {
            FeeTier::Base => 100,
            FeeTier::Zo2 => 90,
            FeeTier::Zo3 => 80,
            FeeTier::Zo4 => 70,
            FeeTier::Zo5 => 60,
            FeeTier::Zo6 => 50,
            FeeTier::Msrm => 42,
        },
    }
}

/// Returns the maker rate in units of 1/100000: makers pay nothing.
pub fn maker_rate(_perp_type: PerpType, _fee_tier: FeeTier) -> (r: u16)
    ensures
        r == 0,
{
    0u16
}

} // verus!
