//! Attendance absence summariser.
//!
//! The library turns the free-form absence-time field of an attendance
//! export into a numeric duration and aggregates per-person totals.
//! The canonical duration unit throughout the library is the minute;
//! aggregated totals are reported in whole school-hours of 67 minutes.

use vstd::prelude::*;

pub mod aggregate;
pub mod dates;
pub mod laws;
pub mod normalize;
pub mod scan;

verus! {

/// Minutes in one school-hour, the domain's local unit of time.
pub const SCHOOL_HOUR_MINUTES: u32 = 67;

/// School-hours attributed to one full school-day.
pub const SCHOOL_HOURS_PER_DAY: u32 = 4;

/// Minutes attributed to an absence of one whole school-day.
pub const WHOLE_DAY_MINUTES: u32 = SCHOOL_HOURS_PER_DAY * SCHOOL_HOUR_MINUTES;

/// Every duration the normalizer emits lies within this many minutes
/// of zero; the bound is what the widest representable date range can
/// reach.
pub const MAX_ENTRY_MINUTES: i64 = 1000000000;

/// Cap on the total magnitude of minutes one aggregation run may see;
/// it keeps every per-person school-hour total, and the sum of two of
/// them, within `i32`.
pub const MAX_TOTAL_MINUTES: i64 = 70000000000;

} // verus!

