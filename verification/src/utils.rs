//! Time conversions, the exact `amount * numerator / denominator` computation
//! and the voting-power formula.
use vstd::prelude::*;
use vstd::string::StringExecFns;

verus! {

/// Milliseconds in one day.
pub const MILLIS_PER_DAY: u64 = 86_400_000;

/// One mpDAO (the token has 6 decimals).
pub const ONE_MPDAO: u128 = 1_000_000;

/// Factor that turns a 6-decimals mpDAO amount into a 24-decimals amount.
pub const E18: u128 = 1_000_000_000_000_000_000;

/// Voting power is capped for unbond periods of this many days or more.
pub const MAX_UNBOND_DAYS_FOR_VP: u16 = 3600;

/// Errors of the checks in this module.
#[derive(Debug, PartialEq, Eq, Structural, Clone, Copy)]
pub enum AmountError {
    /// The amount is under one mpDAO.
    BelowOneMpdao,
}

/// Converts days into milliseconds.
pub fn days_to_millis(days: u16) -> (r: u64)
    ensures
        r == days * 86_400_000,
{
    (days as u64) * MILLIS_PER_DAY
}

/// Whole days in a number of milliseconds, truncated to 16 bits as a `u16` cast does.
pub open spec fn spec_millis_to_days(millis: u64) -> int {
    (millis / 86_400_000) as int % 65536
}

/// Converts milliseconds into whole days (the cast to `u16` keeps the low 16 bits).
pub fn millis_to_days(millis: u64) -> (r: u16)
    ensures
        r == spec_millis_to_days(millis),
{
    let d: u64 = millis / MILLIS_PER_DAY;
    let r: u16 = d as u16;
    assert(r == d % 65536) by (bit_vector)
        requires
            r == d as u16,
    ;
    r
}

/// Converting days to milliseconds and back gives the same days.
pub proof fn lemma_days_round_trip(days: u16)
    ensures
        spec_millis_to_days((days * 86_400_000) as u64) == days,
{
    assert((days * 86_400_000) / 86_400_000 == days) by (nonlinear_arith);
}

/// `a * b = q * d + r` with `r < d`, for `a < d`: the quotient and remainder of
/// `a * b` by `d`, computed without a wider integer.
fn mul_div_rem_small(a: u128, b: u128, d: u128) -> (res: (u128, u128))
    requires
        a < d,
    ensures
        res.1 < d,
        a * b == res.0 * d + res.1,
        b == 0 ==> res.0 == 0,
        b > 0 ==> res.0 < b,
    decreases b,
{
    if b == 0 {
        assert(a * b == 0) by (nonlinear_arith)
            requires
                b == 0,
        ;
        return (0, 0);
    }
    let half: u128 = b / 2;
    let (q, r) = mul_div_rem_small(a, half, d);
    // double: 2 * a * half == 2 * q * d + 2 * r
    let (q2, r2): (u128, u128) = if r >= d - r {
        assert(2 * q + 1 <= b);
        (2 * q + 1, r - (d - r))
    } else {
        assert(2 * q <= b);
        (2 * q, 2 * r)
    };
    assert(a * (2 * half) == q2 * d + r2) by (nonlinear_arith)
        requires
            a * half == q * d + r,
            (q2 == 2 * q + 1 && r2 == 2 * r - d) || (q2 == 2 * q && r2 == 2 * r),
    ;
    let (q3, r3): (u128, u128) = if b % 2 == 1 {
        if r2 >= d - a {
            assert(q2 + 1 <= u128::MAX) by {
                assert(q2 <= b);
                assert(b == 2 * half + 1);
            }
            (q2 + 1, r2 - (d - a))
        } else {
            (q2, r2 + a)
        }
    } else {
        (q2, r2)
    };
    assert(a * b == q3 * d + r3) by (nonlinear_arith)
        requires
            a * (2 * half) == q2 * d + r2,
            b == 2 * half + b % 2,
            b % 2 == 1 ==> ((q3 == q2 + 1 && r3 == r2 + a - d) || (q3 == q2 && r3 == r2 + a)),
            b % 2 == 0 ==> (q3 == q2 && r3 == r2),
    ;
    assert(q3 < b) by (nonlinear_arith)
        requires
            a * b == q3 * d + r3,
            a < d,
            0 <= r3,
            0 < b,
            0 <= a,
    ;
    (q3, r3)
}

/// `a * n / d`, rounded down (`d > 0`).
pub open spec fn spec_mul_div(a: int, n: int, d: int) -> int {
    (a * n) / d
}

/// `amount * numerator / denominator` rounded down, or `None` when it does not
/// fit in a `u128`.
pub fn checked_proportional(amount: u128, numerator: u128, denominator: u128) -> (r: Option<u128>)
    requires
        denominator > 0,
    ensures
        r is Some <==> spec_mul_div(amount as int, numerator as int, denominator as int) <= u128::MAX,
        r matches Some(v) ==> v == spec_mul_div(amount as int, numerator as int, denominator as int),
{
    let qa: u128 = amount / denominator;
    let ra: u128 = amount % denominator;
    let (q, rem) = mul_div_rem_small(ra, numerator, denominator);
    proof {
        vstd::arithmetic::div_mod::lemma_fundamental_div_mod(amount as int, denominator as int);
    }
    let ghost total: int = spec_mul_div(amount as int, numerator as int, denominator as int);
    assert(amount * numerator == (qa * numerator + q) * denominator + rem) by (nonlinear_arith)
        requires
            amount == qa * denominator + ra,
            ra * numerator == q * denominator + rem,
    ;
    assert(total == qa * numerator + q) by {
        vstd::arithmetic::div_mod::lemma_fundamental_div_mod_converse(
            amount * numerator,
            denominator as int,
            qa * numerator + q,
            rem as int,
        );
    }
    match qa.checked_mul(numerator) {
        None => {
            assert(qa * numerator > u128::MAX);
            None
        },
        Some(p) => p.checked_add(q),
    }
}

/// Returns `amount * numerator / denominator`, rounded down, computed exactly.
pub fn proportional(amount: u128, numerator: u128, denominator: u128) -> (r: u128)
    requires
        denominator > 0,
        spec_mul_div(amount as int, numerator as int, denominator as int) <= u128::MAX,
    ensures
        r == spec_mul_div(amount as int, numerator as int, denominator as int),
{
    match checked_proportional(amount, numerator, denominator) {
        Some(v) => v,
        None => 0,
    }
}

/// Voting power of `mpdao_amount` (6 decimals) bonded for `unbond_days`:
/// the amount in 24 decimals times `unbond_days / 60`, rounded down.
pub open spec fn spec_voting_power(mpdao_amount: int, unbond_days: int) -> int {
    mpdao_amount * 1_000_000_000_000_000_000 * unbond_days / 60
}

/// More mpDAO, or a longer unbond period, never gives less voting power.
pub proof fn lemma_voting_power_monotone(a1: int, d1: int, a2: int, d2: int)
    requires
        0 <= a1 <= a2,
        0 <= d1 <= d2,
    ensures
        spec_voting_power(a1, d1) <= spec_voting_power(a2, d2),
{
    assert(a1 * 1_000_000_000_000_000_000 * d1 <= a2 * 1_000_000_000_000_000_000 * d2) by (nonlinear_arith)
        requires
            0 <= a1 <= a2,
            0 <= d1 <= d2,
    ;
    vstd::arithmetic::div_mod::lemma_div_is_ordered(
        a1 * 1_000_000_000_000_000_000 * d1,
        a2 * 1_000_000_000_000_000_000 * d2,
        60,
    );
}

/// The inputs on which the voting-power formula is defined: the 24-decimals
/// amount and the result fit in a `u128`, and the period is under 3600 days.
pub open spec fn voting_power_defined(mpdao_amount: int, unbond_days: int) -> bool {
    &&& mpdao_amount * 1_000_000_000_000_000_000 <= u128::MAX
    &&& unbond_days < 3600
    &&& spec_voting_power(mpdao_amount, unbond_days) <= u128::MAX
}

/// Voting power of a bond, or `None` where the formula is not defined.
pub fn checked_voting_power(mpdao_amount: u128, unbond_days: u16) -> (r: Option<u128>)
    ensures
        r is Some <==> voting_power_defined(mpdao_amount as int, unbond_days as int),
        r matches Some(v) ==> v == spec_voting_power(mpdao_amount as int, unbond_days as int),
{
    let base_vp = match mpdao_amount.checked_mul(E18) {
        Some(v) => v,
        None => return None,
    };
    if unbond_days >= MAX_UNBOND_DAYS_FOR_VP {
        return None;
    }
    checked_proportional(base_vp, unbond_days as u128, 60)
}

/// Voting power is proportional to the unbond period:
/// 30 days give 0.5x, 60 days 1x, 120 days 2x, 300 days 5x.
/// The result has 24 decimals while `mpdao_amount` has 6.
pub fn calculate_voting_power(mpdao_amount: u128, unbond_days: u16) -> (r: u128)
    requires
        voting_power_defined(mpdao_amount as int, unbond_days as int),
    ensures
        r == spec_voting_power(mpdao_amount as int, unbond_days as int),
{
    match checked_voting_power(mpdao_amount, unbond_days) {
        Some(v) => v,
        None => 0,
    }
}

/// The account that stands for an external (EVM) address: the address
/// followed by `.evmp.near`.
pub fn pseudo_near_address(external_address: &String) -> (r: String)
    ensures
        r@ == external_address@ + ".evmp.near"@,
{
    external_address.clone().concat(".evmp.near")
}

/// Checks that an amount is at least one mpDAO.
pub fn assert_at_least_1_mpdao(mpdao_amount: u128) -> (r: Result<(), AmountError>)
    ensures
        r is Ok <==> mpdao_amount >= ONE_MPDAO,
        r matches Err(e) ==> e == AmountError::BelowOneMpdao,
{
    if mpdao_amount >= ONE_MPDAO {
        Ok(())
    } else {
        Err(AmountError::BelowOneMpdao)
    }
}

} // verus!
