//! Fixed parameters of the registry: validity windows, duration units, name
//! length bounds and the flat subdomain fee.

use vstd::prelude::*;

verus! {

/// Window after expiry in which the previous owner keeps reclaim priority.
pub const GRACE_PERIOD: u64 = 21 * 24 * 60 * 60;

/// Seconds in one rental year (365 days, no calendar arithmetic).
pub const YEAR_IN_SECONDS: u64 = 365 * 24 * 60 * 60;

/// Seconds in one rental month (30 days).
pub const MONTH_IN_SECONDS: u64 = 30 * 24 * 60 * 60;

/// Seconds in one rental day.
pub const DAY_IN_SECONDS: u64 = 24 * 60 * 60;

/// Seconds in one rental hour.
pub const HOUR_IN_SECONDS: u64 = 60 * 60;

/// Seconds in one rental minute.
pub const MIN_IN_SECONDS: u64 = 60;

/// A name must be strictly longer than this many bytes.
pub const MIN_LENGTH: usize = 3;

/// A name must be at most this many bytes long.
pub const MAX_LENGTH: usize = 256;

/// Each ownership certificate exists in exactly one copy.
pub const NFT_AMOUNT: u32 = 1;

/// Flat subdomain registration fee in the stable unit of account.
pub const SUB_DOMAIN_COST_USD: u64 = 2_500_000_000;

/// Length of the migration window that opens at the migration start time.
pub const MIGRATION_PERIOD: u64 = 21 * 24 * 60 * 60;

/// The label separator byte, `.`.
pub const SEPARATOR: u8 = 46;

} // verus!
