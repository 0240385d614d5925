//! An RTCM 3 to RINEX observation decoder core.
//!
//! The crate ingests framed RTCM Multiple Signal Messages for GPS and
//! Galileo (1074, 1077, 1094, 1097) together with the ephemeris frames that
//! carry the week number (1019, 1046), reconstructs pseudorange, carrier
//! phase, Doppler and carrier-to-noise observables from the split
//! coarse/fine fields, infers RINEX loss-of-lock indicator flags from
//! consecutive lock time indicators, and accumulates everything in an
//! epoch-ordered table ready for a RINEX writer.
//!
//! All values are kept in the exact fixed-point units the wire format
//! defines; the one floating-point step — scaling a stored numerator by
//! `c / 1000` and `f / c` — is left to the caller, so the whole decoding
//! logic is verified.

pub mod decoder;
pub mod freq;
pub mod laws;
pub mod lock;
pub mod table;
pub mod time;
pub mod types;

pub use decoder::RtcmDecoder;
pub use freq::get_frequency;
pub use freq::Constellation;
pub use freq::RtcmError;
pub use lock::LockStatus;
pub use table::RtcmData;
pub use time::rtcm_galileo_time2epoch;
pub use time::rtcm_gps_time2epoch;
pub use time::Epoch;
pub use types::EpochFlag;
pub use types::Msm46Message;
pub use types::Msm57Message;
pub use types::MsmSat46;
pub use types::MsmSat57;
pub use types::MsmSig46;
pub use types::MsmSig57;
pub use types::ObsKind;
pub use types::ObservableKey;
pub use types::ObservationValue;
pub use types::RtcmMessage;
pub use types::SignalCode;
pub use types::Sv;
