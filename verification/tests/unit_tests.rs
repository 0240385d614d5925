use rtcmlib::{
    get_frequency, rtcm_galileo_time2epoch, rtcm_gps_time2epoch, Constellation, Epoch, LockStatus,
    RtcmError, SignalCode, Sv,
};

#[test]
fn frequency_table_gps() {
    assert_eq!(get_frequency(Constellation::Gps, 1), Ok(1_575_420_000));
    assert_eq!(get_frequency(Constellation::Gps, 2), Ok(1_227_600_000));
    assert_eq!(get_frequency(Constellation::Gps, 5), Ok(1_176_450_000));
}

#[test]
fn frequency_table_galileo() {
    assert_eq!(get_frequency(Constellation::Galileo, 1), Ok(1_575_420_000));
    assert_eq!(get_frequency(Constellation::Galileo, 5), Ok(1_176_450_000));
    assert_eq!(get_frequency(Constellation::Galileo, 6), Ok(1_278_750_000));
    assert_eq!(get_frequency(Constellation::Galileo, 7), Ok(1_207_140_000));
    assert_eq!(get_frequency(Constellation::Galileo, 8), Ok(1_191_795_000));
}

#[test]
fn frequency_unsupported_band_is_an_error() {
    assert_eq!(
        get_frequency(Constellation::Gps, 7),
        Err(RtcmError::UnsupportedSignal { constellation: Constellation::Gps, band: 7 })
    );
    assert_eq!(
        get_frequency(Constellation::Galileo, 2),
        Err(RtcmError::UnsupportedSignal { constellation: Constellation::Galileo, band: 2 })
    );
}

#[test]
fn gps_epoch_resolution() {
    let e = rtcm_gps_time2epoch(300_000, 2334);
    assert_eq!(e.gpst_ms, 2334u64 * 604_800_000 + 300_000);
}

#[test]
fn galileo_epoch_is_offset_by_1024_weeks() {
    let e = rtcm_galileo_time2epoch(0, 0);
    let g = rtcm_gps_time2epoch(0, 1024);
    assert_eq!(e.gpst_ms, g.gpst_ms);
}

#[test]
fn huge_time_of_week_is_clamped_to_zero() {
    let e = rtcm_gps_time2epoch(1_000_000_000_001, 10);
    assert_eq!(e.gpst_ms, 10u64 * 604_800_000);
    // the boundary itself is still accepted
    let f = rtcm_gps_time2epoch(1_000_000_000_000, 0);
    assert_eq!(f.gpst_ms, 1_000_000_000_000);
}

#[test]
fn minimum_lock_time_table() {
    assert_eq!(LockStatus::calculate_minimum_lock_time(0), 0);
    assert_eq!(LockStatus::calculate_minimum_lock_time(63), 63);
    assert_eq!(LockStatus::calculate_minimum_lock_time(64), 64);
    assert_eq!(LockStatus::calculate_minimum_lock_time(100), 144);
    assert_eq!(LockStatus::calculate_minimum_lock_time(150), 432);
    assert_eq!(LockStatus::calculate_minimum_lock_time(352), 32_768);
    assert_eq!(LockStatus::calculate_minimum_lock_time(704), 67_108_864);
    assert_eq!(LockStatus::calculate_minimum_lock_time(705), 0);
    assert_eq!(LockStatus::calculate_minimum_lock_time(1023), 0);
}

#[test]
fn lli_coefficient_table() {
    assert_eq!(LockStatus::get_lli_coefficient(0), 1);
    assert_eq!(LockStatus::get_lli_coefficient(100), 4);
    assert_eq!(LockStatus::get_lli_coefficient(150), 8);
    assert_eq!(LockStatus::get_lli_coefficient(704), 2_097_152);
    assert_eq!(LockStatus::get_lli_coefficient(800), 0);
}

fn epoch_ms(ms: u64) -> Epoch {
    Epoch { gpst_ms: ms }
}

fn sv5() -> Sv {
    Sv { constellation: Constellation::Gps, prn: 5 }
}

fn code_1c() -> SignalCode {
    SignalCode { band: 1, attribute: 'C' }
}

#[test]
fn first_sighting_standard_is_ok_or_unknown() {
    // first sighting in standard mode never flags lock loss
    let mut lock = LockStatus::new(false);
    assert_eq!(
        lock.update_lock_status(&sv5(), &code_1c(), &epoch_ms(1000), 100, 0),
        Some(0)
    );
    // and the half-cycle bit alone rides on top for a fresh key
    let mut lock2 = LockStatus::new(false);
    assert_eq!(
        lock2.update_lock_status(&sv5(), &code_1c(), &epoch_ms(1000), 0, 1),
        Some(2)
    );
}

#[test]
fn first_sighting_simplified_flags_zero_indicator() {
    // the simplified rule flags a fresh key whose indicator is zero
    let mut lock = LockStatus::new(true);
    assert_eq!(
        lock.update_lock_status(&sv5(), &code_1c(), &epoch_ms(1000), 0, 0),
        Some(1)
    );
    let mut lock2 = LockStatus::new(true);
    assert_eq!(
        lock2.update_lock_status(&sv5(), &code_1c(), &epoch_ms(1000), 100, 0),
        Some(0)
    );
}

#[test]
fn simplified_mode_is_monotone() {
    // a non-decreasing indicator (not both zero) never flags lock loss
    let mut lock = LockStatus::new(true);
    lock.update_lock_status(&sv5(), &code_1c(), &epoch_ms(1000), 50, 0);
    assert_eq!(
        lock.update_lock_status(&sv5(), &code_1c(), &epoch_ms(2000), 50, 0),
        Some(0)
    );
    assert_eq!(
        lock.update_lock_status(&sv5(), &code_1c(), &epoch_ms(3000), 200, 0),
        Some(0)
    );
    // and a decreasing one does
    assert_eq!(
        lock.update_lock_status(&sv5(), &code_1c(), &epoch_ms(4000), 100, 0),
        Some(1)
    );
}

#[test]
fn standard_mode_equal_indicators_elapsed_time() {
    // p == n, a = 4: loss exactly when the elapsed time reaches a
    let mut lock = LockStatus::new(false);
    lock.update_lock_status(&sv5(), &code_1c(), &epoch_ms(1000), 100, 0);
    assert_eq!(
        lock.update_lock_status(&sv5(), &code_1c(), &epoch_ms(2000), 100, 0),
        Some(1)
    );
    let mut fast = LockStatus::new(false);
    fast.update_lock_status(&sv5(), &code_1c(), &epoch_ms(1000), 100, 0);
    assert_eq!(
        fast.update_lock_status(&sv5(), &code_1c(), &epoch_ms(1003), 100, 0),
        Some(0)
    );
}

#[test]
fn standard_mode_growing_indicator() {
    // p = 144, n = 432, b = 8 <= p, dt = 1000 > n: lock loss
    let mut lock = LockStatus::new(false);
    lock.update_lock_status(&sv5(), &code_1c(), &epoch_ms(1000), 100, 0);
    assert_eq!(
        lock.update_lock_status(&sv5(), &code_1c(), &epoch_ms(2000), 150, 0),
        Some(1)
    );
    // same jump seen quickly enough (dt = 200 <= n = 432): no loss
    let mut fast = LockStatus::new(false);
    fast.update_lock_status(&sv5(), &code_1c(), &epoch_ms(1000), 100, 0);
    assert_eq!(
        fast.update_lock_status(&sv5(), &code_1c(), &epoch_ms(1200), 150, 0),
        Some(0)
    );
}

#[test]
fn standard_mode_dropping_indicator() {
    // p > n is always a loss
    let mut lock = LockStatus::new(false);
    lock.update_lock_status(&sv5(), &code_1c(), &epoch_ms(1000), 150, 0);
    assert_eq!(
        lock.update_lock_status(&sv5(), &code_1c(), &epoch_ms(1001), 100, 0),
        Some(1)
    );
}

#[test]
fn half_cycle_bit_combines_with_lock_loss() {
    let mut lock = LockStatus::new(false);
    lock.update_lock_status(&sv5(), &code_1c(), &epoch_ms(1000), 150, 0);
    // p > n and half-cycle set: both bits
    assert_eq!(
        lock.update_lock_status(&sv5(), &code_1c(), &epoch_ms(1001), 100, 1),
        Some(3)
    );
}
