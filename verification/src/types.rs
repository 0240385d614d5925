use vstd::prelude::*;

use crate::freq::Constellation;
use crate::time::Epoch;

verus! {

/// Loss-of-lock indicator bit: nothing is known, or the lock is fine.
pub const LLI_OK_OR_UNKNOWN: u8 = 0;

/// Loss-of-lock indicator bit: a cycle slip is possible.
pub const LLI_LOCK_LOSS: u8 = 1;

/// Loss-of-lock indicator bit: a half-cycle ambiguity is flagged.
pub const LLI_HALF_CYCLE_SLIP: u8 = 2;

/// A satellite: a constellation and a pseudo-random-noise number.
#[derive(Clone, Copy, PartialEq, Eq, Structural, Debug, Hash)]
pub struct Sv {
    pub constellation: Constellation,
    pub prn: u8,
}

/// Rank used to order constellations deterministically in the output.
pub open spec fn constellation_rank(c: Constellation) -> int {
    match c {
        Constellation::Gps => 0,
        Constellation::Galileo => 1,
    }
}

/// Total order on satellites: constellation first, then PRN.
pub open spec fn sv_rank(sv: Sv) -> int {
    constellation_rank(sv.constellation) * 256 + sv.prn
}

/// A signal code: the band digit and the attribute letter, the two-character
/// tail of a RINEX observable code such as `1C` or `5Q`.
#[derive(Clone, Copy, PartialEq, Eq, Structural, Debug, Hash)]
pub struct SignalCode {
    pub band: u8,
    pub attribute: char,
}

/// Which of the four RINEX observables a stored value is.
#[derive(Clone, Copy, PartialEq, Eq, Structural, Debug, Hash)]
pub enum ObsKind {
    PseudoRange,
    Phase,
    Doppler,
    Ssi,
}

/// The key an observation is stored under: the observable kind together with
/// the signal code, standing for the three-character RINEX code (`C1C`,
/// `L5Q`, ...).
#[derive(Clone, Copy, PartialEq, Eq, Structural, Debug, Hash)]
pub struct ObservableKey {
    pub kind: ObsKind,
    pub code: SignalCode,
}

/// A stored observation value.
///
/// The numeric part is exact: it is kept in the fixed-point unit of its kind
/// rather than as a rounded floating-point number.
///
/// - `PseudoRange` and `Phase`: the range sum in units of 2^-31 light
///   milliseconds; metres are `num * c / 1000 / 2^31`, and the phase in
///   cycles is that length times `f / c`.
/// - `Doppler`: the negated phase-range rate in units of 0.0001 m/s; the
///   value in Hz is `num * 0.0001 * f / c`.
/// - `Ssi`: the carrier-to-noise ratio in units of 1/16 dBHz.
#[derive(Clone, Copy, PartialEq, Eq, Structural, Debug)]
pub struct ObservationValue {
    pub num: i64,
    pub lli: Option<u8>,
    pub snr: Option<u8>,
}

/// One observation held in the table: its key and its value.
#[derive(Clone, Copy, PartialEq, Eq, Structural, Debug)]
pub struct ObsEntry {
    pub key: ObservableKey,
    pub value: ObservationValue,
}

/// The RINEX epoch flag.  This decoder only ever produces `Ok`.
#[derive(Clone, Copy, PartialEq, Eq, Structural, Debug)]
pub enum EpochFlag {
    Okay,
    PowerFailure,
}

/// Rank used to order epoch flags within one instant.
pub open spec fn flag_rank(f: EpochFlag) -> int {
    match f {
        EpochFlag::Okay => 0,
        EpochFlag::PowerFailure => 1,
    }
}

/// Rank used to order table rows: the instant first, then the flag.
pub open spec fn epoch_rank(e: Epoch, f: EpochFlag) -> int {
    e.gpst_ms * 2 + flag_rank(f)
}

/// One signal row of an MSM message, normalized: the satellite segment has
/// been joined in and every field is at a common resolution.
///
/// Fine ranges are in units of 2^-31 ms, the rough range modulo is the raw
/// ten-bit field (units of 2^-10 ms), the fine rate is in units of
/// 0.0001 m/s, and the carrier-to-noise ratio is in units of 1/16 dBHz.
#[derive(Clone, Copy, PartialEq, Eq, Structural, Debug)]
pub struct MsmData {
    pub constellation: Constellation,
    pub satellite_id: u8,
    pub band: u8,
    pub attribute: char,
    pub rough_range_int_ms: Option<u8>,
    pub rough_range_mod1ms_q10: u16,
    pub rough_phase_range_rate_m_s: Option<i16>,
    pub fine_pseudo_range_q31: Option<i64>,
    pub fine_phase_range_q31: Option<i64>,
    pub fine_phase_range_rate_e4: Option<i16>,
    pub cnr_q4: Option<u16>,
    pub loss_of_lock_indicator: u16,
    pub half_cycle_ambiguity: u8,
}

/// Bounds that every row produced by the normalizers satisfies; they keep the
/// synthesizer's fixed-point arithmetic inside `i64`.
pub open spec fn msm_row_bounded(sig: MsmData) -> bool {
    &&& (match sig.fine_pseudo_range_q31 {
        Some(v) => -0x4_0000_0000 <= v <= 0x4_0000_0000,
        None => true,
    })
    &&& (match sig.fine_phase_range_q31 {
        Some(v) => -0x4_0000_0000 <= v <= 0x4_0000_0000,
        None => true,
    })
}

/// The satellite segment of an MSM4 message: rough range only.
#[derive(Clone, Copy, PartialEq, Eq, Structural, Debug)]
pub struct MsmSat46 {
    pub satellite_id: u8,
    pub rough_range_int_ms: Option<u8>,
    pub rough_range_mod1ms_q10: u16,
}

/// The satellite segment of an MSM7 message: rough range and rough
/// phase-range rate (whole m/s).
#[derive(Clone, Copy, PartialEq, Eq, Structural, Debug)]
pub struct MsmSat57 {
    pub satellite_id: u8,
    pub rough_range_int_ms: Option<u8>,
    pub rough_range_mod1ms_q10: u16,
    pub rough_phase_range_rate_m_s: Option<i16>,
}

/// A signal row of an MSM4 message, at wire resolution: fine pseudorange in
/// 2^-24 ms, fine phase range in 2^-29 ms, a four-bit lock indicator and a
/// whole-dBHz carrier-to-noise ratio.
#[derive(Clone, Copy, PartialEq, Eq, Structural, Debug)]
pub struct MsmSig46 {
    pub satellite_id: u8,
    pub band: u8,
    pub attribute: char,
    pub fine_pseudo_range_q24: Option<i16>,
    pub fine_phase_range_q29: Option<i32>,
    pub lock_time_ind: u8,
    pub half_cycle_ambiguity: u8,
    pub cnr_dbhz: Option<u8>,
}

/// A signal row of an MSM7 message, at wire resolution: fine pseudorange in
/// 2^-29 ms, fine phase range in 2^-31 ms, fine phase-range rate in
/// 0.0001 m/s, a ten-bit extended lock indicator and a carrier-to-noise
/// ratio in 1/16 dBHz.
#[derive(Clone, Copy, PartialEq, Eq, Structural, Debug)]
pub struct MsmSig57 {
    pub satellite_id: u8,
    pub band: u8,
    pub attribute: char,
    pub fine_pseudo_range_q29: Option<i32>,
    pub fine_phase_range_q31: Option<i32>,
    pub fine_phase_range_rate_e4: Option<i16>,
    pub lock_time_ext_ind: u16,
    pub half_cycle_ambiguity: u8,
    pub cnr_q4: Option<u16>,
}

/// An MSM4-class message body: epoch time of week plus the two segments.
#[derive(Clone, PartialEq, Debug)]
pub struct Msm46Message {
    pub epoch_time_ms: u32,
    pub satellites: Vec<MsmSat46>,
    pub signals: Vec<MsmSig46>,
}

/// An MSM7-class message body: epoch time of week plus the two segments.
#[derive(Clone, PartialEq, Debug)]
pub struct Msm57Message {
    pub epoch_time_ms: u32,
    pub satellites: Vec<MsmSat57>,
    pub signals: Vec<MsmSig57>,
}

/// A framed RTCM message, reduced to the variants this decoder acts on.
/// Anything else in a stream maps to `Other` and is ignored.
#[derive(Clone, PartialEq, Debug)]
pub enum RtcmMessage {
    /// Message 1019, a GPS ephemeris: carries the ten-bit GPS week number.
    GpsEphemeris { week_number: u16 },
    /// Message 1046, a Galileo I/NAV ephemeris: carries the GST week number.
    GalileoEphemeris { week_number: u16 },
    /// Message 1074, GPS MSM4.
    GpsMsm4(Msm46Message),
    /// Message 1077, GPS MSM7.
    GpsMsm7(Msm57Message),
    /// Message 1094, Galileo MSM4.
    GalileoMsm4(Msm46Message),
    /// Message 1097, Galileo MSM7.
    GalileoMsm7(Msm57Message),
    /// Any other message number.
    Other,
}

/// Normalization of one MSM4 signal row against its satellite record:
/// rate fields do not exist in MSM4, the fine ranges move to 2^-31 ms, and
/// the carrier-to-noise ratio moves to 1/16 dBHz.
pub open spec fn spec_normalize46(sat: MsmSat46, sig: MsmSig46, c: Constellation) -> MsmData {
    MsmData {
        constellation: c,
        satellite_id: sig.satellite_id,
        band: sig.band,
        attribute: sig.attribute,
        rough_range_int_ms: sat.rough_range_int_ms,
        rough_range_mod1ms_q10: sat.rough_range_mod1ms_q10,
        rough_phase_range_rate_m_s: None,
        fine_pseudo_range_q31: match sig.fine_pseudo_range_q24 {
            Some(v) => Some(((v as int) * 128) as i64),
            None => None,
        },
        fine_phase_range_q31: match sig.fine_phase_range_q29 {
            Some(v) => Some(((v as int) * 4) as i64),
            None => None,
        },
        fine_phase_range_rate_e4: None,
        cnr_q4: match sig.cnr_dbhz {
            Some(v) => Some(((v as int) * 16) as u16),
            None => None,
        },
        loss_of_lock_indicator: sig.lock_time_ind as u16,
        half_cycle_ambiguity: sig.half_cycle_ambiguity,
    }
}

/// Normalization of one MSM7 signal row against its satellite record: the
/// fine pseudorange moves from 2^-29 to 2^-31 ms, everything else is already
/// at the common resolution.
pub open spec fn spec_normalize57(sat: MsmSat57, sig: MsmSig57, c: Constellation) -> MsmData {
    MsmData {
        constellation: c,
        satellite_id: sig.satellite_id,
        band: sig.band,
        attribute: sig.attribute,
        rough_range_int_ms: sat.rough_range_int_ms,
        rough_range_mod1ms_q10: sat.rough_range_mod1ms_q10,
        rough_phase_range_rate_m_s: sat.rough_phase_range_rate_m_s,
        fine_pseudo_range_q31: match sig.fine_pseudo_range_q29 {
            Some(v) => Some(((v as int) * 4) as i64),
            None => None,
        },
        fine_phase_range_q31: match sig.fine_phase_range_q31 {
            Some(v) => Some(v as i64),
            None => None,
        },
        fine_phase_range_rate_e4: sig.fine_phase_range_rate_e4,
        cnr_q4: sig.cnr_q4,
        loss_of_lock_indicator: sig.lock_time_ext_ind,
        half_cycle_ambiguity: sig.half_cycle_ambiguity,
    }
}

} // verus!
