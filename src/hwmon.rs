//! Board sensor readings: temperatures, fan RPM and default alarm ranges.
use vstd::prelude::*;
use crate::parse::{attribute_value, parse_attribute};
use crate::speed::TempRange;

verus! {

/// Width of a default range, in millidegrees.
pub const DEFAULT_RANGE_WIDTH: i64 = 20_000;

/// How far below a sensor's critical temperature a default range ends.
pub const CRITICAL_MARGIN: i64 = 10_000;

/// The range used when a sensor reports neither a maximum nor a critical
/// temperature.
pub const FALLBACK_LOW: i64 = 30_000;

pub const FALLBACK_HIGH: i64 = 50_000;

/// Where a default range ends: at the sensor's maximum temperature, or a
/// margin below its critical one.
pub open spec fn default_high(crit: Option<i64>, max: Option<i64>) -> Option<int> {
    match max {
        Some(m) => Some(m as int),
        None => match crit {
            Some(c) => Some(c - CRITICAL_MARGIN),
            None => None,
        },
    }
}

/// The default range: ending at `default_high`, `DEFAULT_RANGE_WIDTH` wide,
/// or the fallback range when there is no such end or the range would not fit.
pub open spec fn default_range_spec(crit: Option<i64>, max: Option<i64>) -> (int, int) {
    match default_high(crit, max) {
        Some(h) => if h - DEFAULT_RANGE_WIDTH >= i64::MIN {
            (h - DEFAULT_RANGE_WIDTH, h)
        } else {
            (FALLBACK_LOW as int, FALLBACK_HIGH as int)
        },
        None => (FALLBACK_LOW as int, FALLBACK_HIGH as int),
    }
}

/// The range a sensor is judged against when none was configured, from its
/// critical and maximum temperature attributes where it has them.
pub fn default_range(crit: Option<i64>, max: Option<i64>) -> (r: TempRange)
    ensures
        r.wf(),
        (r.low as int, r.high as int) == default_range_spec(crit, max),
{
    let high: Option<i64> = match max {
        Some(m) => Some(m),
        None => match crit {
            Some(c) => c.checked_sub(CRITICAL_MARGIN),
            None => None,
        },
    };
    let fallback = TempRange { low: FALLBACK_LOW, high: FALLBACK_HIGH };
    match high {
        Some(h) => match h.checked_sub(DEFAULT_RANGE_WIDTH) {
            Some(low) => TempRange { low, high: h },
            None => fallback,
        },
        None => fallback,
    }
}

/// Reads a temperature attribute, in millidegrees Celsius.
pub fn parse_temperature(s: &[u8]) -> (r: Option<i64>)
    ensures
        r matches Some(v) ==> attribute_value(s@) == Some(v as int),
        r.is_none() ==> match attribute_value(s@) {
            Some(v) => v < i64::MIN || v > i64::MAX,
            None => true,
        },
{
    parse_attribute(s)
}

/// Reads a fan's RPM attribute; a negative count is malformed.
pub fn parse_rpm(s: &[u8]) -> (r: Option<u64>)
    ensures
        r matches Some(v) ==> attribute_value(s@) == Some(v as int),
        r.is_none() ==> match attribute_value(s@) {
            Some(v) => v < 0 || v > i64::MAX,
            None => true,
        },
{
    match parse_attribute(s) {
        Some(v) => if v >= 0 {
            Some(v as u64)
        } else {
            None
        },
        None => None,
    }
}

} // verus!
