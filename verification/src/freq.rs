use vstd::prelude::*;

verus! {

/// Speed of light in metres per second, the constant the whole range scaling
/// rests on.
pub const SPEED_OF_LIGHT_M_S: u64 = 299792458;

/// GNSS constellations this decoder understands.
#[derive(Clone, Copy, PartialEq, Eq, Structural, Debug, Hash)]
pub enum Constellation {
    Gps,
    Galileo,
}

/// Errors the decoder can report instead of panicking.
#[derive(Clone, Copy, PartialEq, Eq, Structural, Debug)]
pub enum RtcmError {
    /// A signal named a (constellation, band) pair with no known carrier
    /// frequency; the message is rejected without touching the tables.
    UnsupportedSignal { constellation: Constellation, band: u8 },
    /// A signal row referenced a satellite id that the satellite segment of
    /// the same message does not carry.
    MissingSatellite { satellite_id: u8 },
}

/// Carrier frequency in Hz for a GPS band, if the band is one the decoder
/// knows (L1, L2, L5).
pub open spec fn spec_frequency_gps(band: u8) -> Option<u64> {
    match band {
        1u8 => Some(1_575_420_000u64),
        2u8 => Some(1_227_600_000u64),
        5u8 => Some(1_176_450_000u64),
        _ => None,
    }
}

/// Carrier frequency in Hz for a Galileo band, if the band is one the decoder
/// knows (E1, E5a, E6, E5b, E5a+b).
pub open spec fn spec_frequency_galileo(band: u8) -> Option<u64> {
    match band {
        1u8 => Some(1_575_420_000u64),
        5u8 => Some(1_176_450_000u64),
        6u8 => Some(1_278_750_000u64),
        7u8 => Some(1_207_140_000u64),
        8u8 => Some(1_191_795_000u64),
        _ => None,
    }
}

/// Carrier frequency in Hz for a (constellation, band) pair, if supported.
pub open spec fn spec_frequency(constellation: Constellation, band: u8) -> Option<u64> {
    match constellation {
        Constellation::Gps => spec_frequency_gps(band),
        Constellation::Galileo => spec_frequency_galileo(band),
    }
}

/// Whole pair is supported iff a frequency is defined for it.
pub open spec fn band_supported(constellation: Constellation, band: u8) -> bool {
    spec_frequency(constellation, band) is Some
}

fn get_frequency_gps(band: u8) -> (r: Result<u64, RtcmError>)
    ensures
        r == match spec_frequency_gps(band) {
            Some(f) => Result::<u64, RtcmError>::Ok(f),
            None => Result::<u64, RtcmError>::Err(RtcmError::UnsupportedSignal {
                constellation: Constellation::Gps,
                band,
            }),
        },
{
    match band {
        1 => Ok(1_575_420_000),
        2 => Ok(1_227_600_000),
        5 => Ok(1_176_450_000),
        _ => Err(RtcmError::UnsupportedSignal { constellation: Constellation::Gps, band }),
    }
}

fn get_frequency_galileo(band: u8) -> (r: Result<u64, RtcmError>)
    ensures
        r == match spec_frequency_galileo(band) {
            Some(f) => Result::<u64, RtcmError>::Ok(f),
            None => Result::<u64, RtcmError>::Err(RtcmError::UnsupportedSignal {
                constellation: Constellation::Galileo,
                band,
            }),
        },
{
    match band {
        1 => Ok(1_575_420_000),
        5 => Ok(1_176_450_000),
        6 => Ok(1_278_750_000),
        7 => Ok(1_207_140_000),
        8 => Ok(1_191_795_000),
        _ => Err(RtcmError::UnsupportedSignal { constellation: Constellation::Galileo, band }),
    }
}

/// Carrier frequency in Hz for a (constellation, band) pair; an
/// `UnsupportedSignal` error for every other pair.  The caller turns the
/// frequency into the metre-to-cycle factor `f / c` once it reaches
/// floating-point land.
pub fn get_frequency(constellation: Constellation, band: u8) -> (r: Result<u64, RtcmError>)
    ensures
        r == match spec_frequency(constellation, band) {
            Some(f) => Result::<u64, RtcmError>::Ok(f),
            None => Result::<u64, RtcmError>::Err(RtcmError::UnsupportedSignal {
                constellation,
                band,
            }),
        },
{
    match constellation {
        Constellation::Gps => get_frequency_gps(band),
        Constellation::Galileo => get_frequency_galileo(band),
    }
}

} // verus!
