//! Reward arithmetic: per-epoch rates derived from annual rates, rates scaled
//! by a node's uptime, and the reward that a rate yields on an amount.
use vstd::prelude::*;
use crate::types::{ContractError, ContractErrorView, Decimal, DECIMAL_FRACTIONAL};

verus! {

/// Hours in a (non-leap) year; epoch lengths are counted in hours.
pub const HOURS_IN_YEAR: u128 = 8760;

/// `amount * rate`, rounded down: what `rate` yields on `amount`.
pub open spec fn spec_mul_decimal(amount: u128, rate: Decimal) -> int {
    (amount as int * rate.atomics as int) / (DECIMAL_FRACTIONAL as int)
}

/// `Uint128 * Decimal` of cosmwasm_std.  Its source computes
/// `amount.multiply_ratio(rate_atomics, 10^18)`: the full product in 256 bits
/// divided by 10^18, rounded down, and panics when that does not fit in a
/// `u128`.  The contract claims exactly that quotient.
#[verifier::external_body]
pub(crate) fn mul_by_decimal(amount: u128, rate: Decimal) -> (r: u128)
    requires
        spec_mul_decimal(amount, rate) <= u128::MAX,
    ensures
        r == spec_mul_decimal(amount, rate),
{
    (cosmwasm_std::Uint128::new(amount) * cosmwasm_std::Decimal::raw(rate.atomics)).u128()
}

/// `Uint128::multiply_ratio` of cosmwasm_std: `value * numerator / denominator`
/// computed with a 256-bit product and rounded down.  Its source panics on a
/// zero denominator and when the quotient does not fit in a `u128`; the
/// contract leaves both out and claims the quotient.
#[verifier::external_body]
pub(crate) fn multiply_ratio(value: u128, numerator: u128, denominator: u128) -> (r: u128)
    requires
        denominator > 0,
        (value as int * numerator as int) / (denominator as int) <= u128::MAX,
    ensures
        r == (value as int * numerator as int) / (denominator as int),
{
    cosmwasm_std::Uint128::new(value).multiply_ratio(numerator, denominator).u128()
}

/// The per-epoch gain of an annual reward rate: the annual gain
/// (`rate - 1`) times the share of the year that an epoch of
/// `epoch_length` hours covers, rounded down.
pub open spec fn spec_epoch_reward_rate(epoch_length: u32, annual_reward_rate: Decimal) -> int {
    ((annual_reward_rate.atomics - DECIMAL_FRACTIONAL) * epoch_length) / (HOURS_IN_YEAR as int)
}

/// Whether the per-epoch gain of an annual rate can be computed: the rate is
/// at least one and the gain fits in a `Decimal`.
pub open spec fn epoch_reward_rate_computable(epoch_length: u32, annual_reward_rate: Decimal) -> bool {
    &&& annual_reward_rate.atomics >= DECIMAL_FRACTIONAL
    &&& spec_epoch_reward_rate(epoch_length, annual_reward_rate) <= u128::MAX
}

/// Converts an annual reward rate (such as 1.25) into the gain that one epoch
/// of `epoch_length` hours earns (such as 0.25 * epoch_length / 8760).
pub fn calculate_epoch_reward_rate(epoch_length: u32, annual_reward_rate: Decimal) -> (d: Decimal)
    requires
        epoch_reward_rate_computable(epoch_length, annual_reward_rate),
    ensures
        d.atomics == spec_epoch_reward_rate(epoch_length, annual_reward_rate),
{
    let annual_gain = annual_reward_rate.atomics - DECIMAL_FRACTIONAL;
    Decimal { atomics: multiply_ratio(annual_gain, epoch_length as u128, HOURS_IN_YEAR) }
}

/// A reward rate scaled by an uptime given in percent; an uptime above 100
/// is refused.
pub open spec fn spec_scale_reward_by_uptime(reward: Decimal, uptime: u32) -> Result<
    Decimal,
    ContractErrorView,
> {
    if uptime > 100 {
        Err(ContractErrorView::UnexpectedUptime)
    } else {
        Ok(Decimal { atomics: ((reward.atomics as int * uptime as int) / 100) as u128 })
    }
}

/// Scales `reward` by `uptime` percent: a node that was up 20% of the time
/// earns a fifth of the rate.
pub fn scale_reward_by_uptime(reward: Decimal, uptime: u32) -> (r: Result<Decimal, ContractError>)
    ensures
        match (r, spec_scale_reward_by_uptime(reward, uptime)) {
            (Ok(d), Ok(e)) => d == e,
            (Err(e), Err(f)) => e@ == f,
            _ => false,
        },
{
    if uptime > 100 {
        return Err(ContractError::UnexpectedUptime);
    }
    assert((reward.atomics as int * uptime as int) / 100 <= reward.atomics) by (nonlinear_arith)
        requires
            uptime <= 100,
    ;
    Ok(Decimal { atomics: multiply_ratio(reward.atomics, uptime as u128, 100) })
}

} // verus!
