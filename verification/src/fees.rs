//! The pricing engine: duration units and the rent formula.
//!
//! Rent is the annual fee of the user label's length bucket, scaled by the
//! duration in seconds and the exchange rate, divided by the seconds of one
//! year. All arithmetic is overflow-checked; overflow fails the operation.

use vstd::prelude::*;

use crate::constants::{
    DAY_IN_SECONDS, HOUR_IN_SECONDS, MIN_IN_SECONDS, MONTH_IN_SECONDS, YEAR_IN_SECONDS,
};
use crate::data::{PeriodType, RegistryError, RentalFee};

verus! {

/// The second count of one duration unit.
pub open spec fn spec_unit_seconds(unit: PeriodType) -> u64 {
    match unit {
        PeriodType::Year => YEAR_IN_SECONDS,
        PeriodType::Month => MONTH_IN_SECONDS,
        PeriodType::Day => DAY_IN_SECONDS,
        PeriodType::Hour => HOUR_IN_SECONDS,
        PeriodType::Minute => MIN_IN_SECONDS,
    }
}

/// The annual fee bucket for a user label of `len` bytes.
pub open spec fn spec_annual_fee(fees: RentalFee, len: nat) -> u64 {
    if len == 1 {
        fees.one_letter
    } else if len == 2 {
        fees.two_letter
    } else if len == 3 {
        fees.three_letter
    } else if len == 4 {
        fees.four_letter
    } else {
        fees.other
    }
}

/// The exact rent for `secs` seconds at the given fee bucket and exchange
/// rate, as an unbounded integer: fee times seconds times rate, divided by
/// the seconds of one year, truncating toward zero.
pub open spec fn spec_rent_price(fees: RentalFee, len: nat, secs: u64, rate: u64) -> int {
    spec_annual_fee(fees, len) * secs * rate / (YEAR_IN_SECONDS as int)
}

/// Whether the rent computation stays within the checked 128-bit range.
pub open spec fn rent_price_fits(fees: RentalFee, len: nat, secs: u64, rate: u64) -> bool {
    spec_annual_fee(fees, len) * secs <= u128::MAX && spec_annual_fee(fees, len) * secs * rate
        <= u128::MAX
}

/// The number of seconds a rental of `period` units runs for.
pub fn period_seconds(period: u8, unit: PeriodType) -> (r: u64)
    ensures
        r == period * spec_unit_seconds(unit),
{
    let secs: u64 = match unit {
        PeriodType::Year => YEAR_IN_SECONDS,
        PeriodType::Month => MONTH_IN_SECONDS,
        PeriodType::Day => DAY_IN_SECONDS,
        PeriodType::Hour => HOUR_IN_SECONDS,
        PeriodType::Minute => MIN_IN_SECONDS,
    };
    proof {
        assert((period as int) * (secs as int) <= 255 * 31536000) by (nonlinear_arith)
            requires
                0 <= period as int <= 255,
                0 <= secs as int <= 31536000,
        ;
    }
    (period as u64) * secs
}

/// The rent owed for a user label of `label_len` bytes over `secs` seconds at
/// exchange rate `rate`, or `Overflow` when the checked product leaves the
/// 128-bit range.
pub fn rent_price(fees: &RentalFee, label_len: usize, secs: u64, rate: u64) -> (r: Result<
    u128,
    RegistryError,
>)
    ensures
        match r {
            Ok(p) => rent_price_fits(*fees, label_len as nat, secs, rate) && p == spec_rent_price(
                *fees,
                label_len as nat,
                secs,
                rate,
            ),
            Err(e) => e == RegistryError::Overflow && !rent_price_fits(
                *fees,
                label_len as nat,
                secs,
                rate,
            ),
        },
{
    let annual: u64 = if label_len == 1 {
        fees.one_letter
    } else if label_len == 2 {
        fees.two_letter
    } else if label_len == 3 {
        fees.three_letter
    } else if label_len == 4 {
        fees.four_letter
    } else {
        fees.other
    };
    let base = match (annual as u128).checked_mul(secs as u128) {
        Some(b) => b,
        None => {
            return Err(RegistryError::Overflow);
        },
    };
    let scaled = match base.checked_mul(rate as u128) {
        Some(sc) => sc,
        None => {
            return Err(RegistryError::Overflow);
        },
    };
    Ok(scaled / (YEAR_IN_SECONDS as u128))
}

} // verus!
