//! The first version of Meta Vote: votes recorded per object id, and voting
//! power growing linearly with the locking period.
use vstd::prelude::*;
use crate::utils::{proportional, spec_mul_div};

verus! {

/// One NEAR in yocto units, the unit of the multiplier.
pub const YOCTO_UNITS: u128 = 1_000_000_000_000_000_000_000_000;

/// A vote of the first version: voting power given to object `votable_id`
/// of contract `votable_contract`.
pub struct VotePosition {
    pub amount: u128,
    pub votable_contract: String,
    pub votable_id: u64,
}

/// The multiplier for a locking period, in yocto units:
/// `1 + 4 * (period - min) / (max - min)`, the fraction rounded down.
pub open spec fn linear_multiplier(locking_period: u16, min: u16, max: u16) -> int {
    1_000_000_000_000_000_000_000_000 + spec_mul_div(
        4_000_000_000_000_000_000_000_000,
        locking_period - min,
        max - min,
    )
}

/// The voting power of `amount` locked for `locking_period` days:
/// `amount * multiplier / 1e24`, rounded down.
pub open spec fn spec_linear_voting_power(amount: u128, locking_period: u16, min: u16, max: u16) -> int {
    spec_mul_div(amount as int, linear_multiplier(locking_period, min, max), 1_000_000_000_000_000_000_000_000)
}

/// Voting power is `amount * (1 + 4 * x)` where `x` is the part of the
/// range from `min` to `max` days that the locking period covers.
pub fn linear_voting_power(amount: u128, locking_period: u16, min: u16, max: u16) -> (r: u128)
    requires
        min <= locking_period,
        min < max,
        spec_linear_voting_power(amount, locking_period, min, max) <= u128::MAX,
    ensures
        r == spec_linear_voting_power(amount, locking_period, min, max),
{
    assert(spec_mul_div(4_000_000_000_000_000_000_000_000, locking_period - min, max - min) <= 4_000_000_000_000_000_000_000_000 * 65535) by (nonlinear_arith)
        requires
            0 <= locking_period - min <= 65535,
            max - min >= 1,
    {
        assert(4_000_000_000_000_000_000_000_000 * (locking_period - min) / (max - min) <= 4_000_000_000_000_000_000_000_000 * (locking_period - min));
    }
    let part = proportional(4 * YOCTO_UNITS, (locking_period - min) as u128, (max - min) as u128);
    let multiplier = YOCTO_UNITS + part;
    proportional(amount, multiplier, YOCTO_UNITS)
}

} // verus!
