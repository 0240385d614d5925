use vstd::prelude::*;

verus! {

/// Milliseconds in one GNSS week.
pub const MS_PER_WEEK: u64 = 604800000;

/// A time of week larger than this (one billion seconds) is treated as
/// garbage and clamped to zero before an epoch is formed.
pub const MAX_TOW_MS: u64 = 1_000_000_000_000;

/// The Galileo system time origin sits exactly 1024 weeks after the GPS time
/// origin, so a GST week number converts to the common scale by this offset.
pub const GST_WEEK_OFFSET: u64 = 1024;

/// An absolute observation instant, kept as whole milliseconds since the GPS
/// time origin.  GPS and Galileo timestamps are mapped onto this one scale so
/// that epochs from both constellations order and compare as instants.
#[derive(Clone, Copy, PartialEq, Eq, Structural, Debug)]
pub struct Epoch {
    pub gpst_ms: u64,
}

/// Ordering of epochs is ordering of their millisecond counts.
pub open spec fn epoch_le(a: Epoch, b: Epoch) -> bool {
    a.gpst_ms <= b.gpst_ms
}

/// The time-of-week clamp: out-of-range values collapse to zero.
pub open spec fn spec_tow_clamped(tow_ms: u64) -> u64 {
    if tow_ms > MAX_TOW_MS {
        0u64
    } else {
        tow_ms
    }
}

/// The instant a GPS time of week and week number denote.
pub open spec fn spec_gps_epoch(tow_ms: u64, week: u64) -> Epoch {
    Epoch { gpst_ms: (week * MS_PER_WEEK + spec_tow_clamped(tow_ms)) as u64 }
}

/// The instant a Galileo time of week and week number denote, shifted onto
/// the common scale by the 1024-week origin offset.
pub open spec fn spec_galileo_epoch(tow_ms: u64, week: u64) -> Epoch {
    Epoch {
        gpst_ms: ((week + GST_WEEK_OFFSET) * MS_PER_WEEK + spec_tow_clamped(tow_ms)) as u64,
    }
}

/// Resolves a GPS time of week (milliseconds) plus an absolute week count to
/// an epoch.  A time of week beyond one billion seconds is clamped to zero.
pub fn rtcm_gps_time2epoch(tow_ms: u64, week: u64) -> (r: Epoch)
    requires
        week * MS_PER_WEEK + spec_tow_clamped(tow_ms) <= u64::MAX,
    ensures
        r == spec_gps_epoch(tow_ms, week),
{
    let tow: u64 = if tow_ms > MAX_TOW_MS {
        0
    } else {
        tow_ms
    };
    Epoch { gpst_ms: week * MS_PER_WEEK + tow }
}

/// Resolves a Galileo time of week (milliseconds) plus an absolute GST week
/// count to an epoch on the common scale.
pub fn rtcm_galileo_time2epoch(tow_ms: u64, week: u64) -> (r: Epoch)
    requires
        (week + GST_WEEK_OFFSET) * MS_PER_WEEK + spec_tow_clamped(tow_ms) <= u64::MAX,
    ensures
        r == spec_galileo_epoch(tow_ms, week),
{
    let tow: u64 = if tow_ms > MAX_TOW_MS {
        0
    } else {
        tow_ms
    };
    Epoch { gpst_ms: (week + GST_WEEK_OFFSET) * MS_PER_WEEK + tow }
}

} // verus!
