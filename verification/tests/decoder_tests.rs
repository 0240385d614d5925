use rtcmlib::{
    Constellation, Msm46Message, Msm57Message, MsmSat46, MsmSat57, MsmSig46, MsmSig57, ObsKind,
    ObservationValue, RtcmDecoder, RtcmError, RtcmMessage, SignalCode,
};

const RANGE_MS: f64 = 299_792_458.0 * 0.001;
const Q31: f64 = 2_147_483_648.0;

fn sat57(id: u8, rough_int: Option<u8>, mod1ms_q10: u16, rate: Option<i16>) -> MsmSat57 {
    MsmSat57 {
        satellite_id: id,
        rough_range_int_ms: rough_int,
        rough_range_mod1ms_q10: mod1ms_q10,
        rough_phase_range_rate_m_s: rate,
    }
}

fn sig57(
    id: u8,
    band: u8,
    attribute: char,
    fine_pr_q29: Option<i32>,
    fine_ph_q31: Option<i32>,
    fine_rate_e4: Option<i16>,
    lock_ind: u16,
    half_cycle: u8,
    cnr_q4: Option<u16>,
) -> MsmSig57 {
    MsmSig57 {
        satellite_id: id,
        band,
        attribute,
        fine_pseudo_range_q29: fine_pr_q29,
        fine_phase_range_q31: fine_ph_q31,
        fine_phase_range_rate_e4: fine_rate_e4,
        lock_time_ext_ind: lock_ind,
        half_cycle_ambiguity: half_cycle,
        cnr_q4,
    }
}

fn msm1077_one_signal(tow_ms: u32, lock_ind: u16, half_cycle: u8) -> RtcmMessage {
    RtcmMessage::GpsMsm7(Msm57Message {
        epoch_time_ms: tow_ms,
        satellites: vec![sat57(5, Some(75), 512, None)],
        signals: vec![sig57(
            5,
            1,
            'C',
            Some(53_687),
            Some(429_497),
            None,
            lock_ind,
            half_cycle,
            Some(720),
        )],
    })
}

fn find_obs(d: &RtcmDecoder, row: usize, kind: ObsKind) -> Option<ObservationValue> {
    let table = d.get_rtcm_data();
    let entry = &table.entries[row];
    for sv_entry in entry.svs.iter() {
        for obs in sv_entry.obs.iter() {
            if obs.key.kind == kind {
                return Some(obs.value);
            }
        }
    }
    None
}

#[test]
fn gps_ephemeris_then_msm7_yields_one_epoch() {
    // one 1019 with week 286, then one 1077 at 300 s with one satellite
    let mut d = RtcmDecoder::new(false);
    d.process_message(&RtcmMessage::GpsEphemeris { week_number: 286 })
        .unwrap();
    d.process_message(&msm1077_one_signal(300_000, 100, 0)).unwrap();

    let table = d.get_rtcm_data();
    assert_eq!(table.entries.len(), 1);
    let expected_ms = (286u64 + 2048) * 604_800_000 + 300_000;
    assert_eq!(table.entries[0].epoch.gpst_ms, expected_ms);
    assert_eq!(d.get_first_epoch().unwrap().gpst_ms, expected_ms);
    assert_eq!(d.get_last_epoch().unwrap().gpst_ms, expected_ms);

    assert_eq!(table.entries[0].svs.len(), 1);
    let sv = table.entries[0].svs[0].sv;
    assert_eq!(sv.constellation, Constellation::Gps);
    assert_eq!(sv.prn, 5);

    // pseudorange, phase and carrier-to-noise come out; Doppler has no rate
    let pseudo = find_obs(&d, 0, ObsKind::PseudoRange).unwrap();
    let phase = find_obs(&d, 0, ObsKind::Phase).unwrap();
    let ssi = find_obs(&d, 0, ObsKind::Ssi).unwrap();
    assert!(find_obs(&d, 0, ObsKind::Doppler).is_none());

    // exact fixed-point numerators
    assert_eq!(pseudo.num, 75 * 2_147_483_648 + 512 * 2_097_152 + 53_687 * 4);
    assert_eq!(phase.num, 75 * 2_147_483_648 + 512 * 2_097_152 + 429_497);
    assert_eq!(ssi.num, 720);

    // only phase carries a loss-of-lock mask; nothing carries a snr
    assert_eq!(pseudo.lli, None);
    assert_eq!(phase.lli, Some(0));
    assert_eq!(ssi.lli, None);
    assert_eq!(pseudo.snr, None);
}

#[test]
fn pseudorange_value_matches_row_sum() {
    // the emitted pseudorange equals (rough_int + mod1ms + fine) * c / 1000
    let mut d = RtcmDecoder::new(false);
    d.process_message(&RtcmMessage::GpsEphemeris { week_number: 286 })
        .unwrap();
    d.process_message(&msm1077_one_signal(300_000, 100, 0)).unwrap();
    let pseudo = find_obs(&d, 0, ObsKind::PseudoRange).unwrap();
    let meters = pseudo.num as f64 / Q31 * RANGE_MS;
    let expected = (75.0 + 0.5 + 0.0001) * RANGE_MS;
    assert!(((meters - expected) / expected).abs() < 1e-9);
}

#[test]
fn phase_value_is_range_sum_times_f_over_c() {
    // the emitted phase equals its pre-wavelength sum times f / c
    let mut d = RtcmDecoder::new(false);
    d.process_message(&RtcmMessage::GpsEphemeris { week_number: 286 })
        .unwrap();
    d.process_message(&msm1077_one_signal(300_000, 100, 0)).unwrap();
    let phase = find_obs(&d, 0, ObsKind::Phase).unwrap();
    let f = rtcmlib::get_frequency(Constellation::Gps, 1).unwrap() as f64;
    let pre_wavelength_sum_m = phase.num as f64 / Q31 * RANGE_MS;
    let cycles = pre_wavelength_sum_m * (f / 299_792_458.0);
    let expected = (75.0 + 0.5 + 429_497.0 / Q31) * RANGE_MS * (f / 299_792_458.0);
    assert!(((cycles - expected) / expected).abs() < 1e-9);
}

#[test]
fn doppler_value_is_negated_rate_times_f_over_c() {
    // the emitted Doppler equals -(rough_rate + fine_rate) * f / c
    let mut d = RtcmDecoder::new(false);
    d.process_message(&RtcmMessage::GpsEphemeris { week_number: 286 })
        .unwrap();
    let msg = RtcmMessage::GpsMsm7(Msm57Message {
        epoch_time_ms: 300_000,
        satellites: vec![sat57(5, Some(75), 512, Some(123))],
        signals: vec![sig57(5, 1, 'C', None, None, Some(4567), 100, 0, None)],
    });
    d.process_message(&msg).unwrap();
    let doppler = find_obs(&d, 0, ObsKind::Doppler).unwrap();
    assert_eq!(doppler.num, -(123 * 10_000 + 4567));
    let f = rtcmlib::get_frequency(Constellation::Gps, 1).unwrap() as f64;
    let hz = doppler.num as f64 * 0.0001 * (f / 299_792_458.0);
    let expected = -(123.0 + 0.4567) * (f / 299_792_458.0);
    assert!(((hz - expected) / expected).abs() < 1e-9);
}

#[test]
fn repeated_lock_indicator_flags_loss_in_standard_mode() {
    // two 1077s one second apart, DF407 = 100 both times
    let mut d = RtcmDecoder::new(false);
    d.process_message(&RtcmMessage::GpsEphemeris { week_number: 286 })
        .unwrap();
    d.process_message(&msm1077_one_signal(300_000, 100, 0)).unwrap();
    d.process_message(&msm1077_one_signal(301_000, 100, 0)).unwrap();
    let phase = find_obs(&d, 1, ObsKind::Phase).unwrap();
    assert_eq!(phase.lli, Some(1));
}

#[test]
fn repeated_lock_indicator_stays_ok_in_simplified_mode() {
    let mut d = RtcmDecoder::new(true);
    d.process_message(&RtcmMessage::GpsEphemeris { week_number: 286 })
        .unwrap();
    d.process_message(&msm1077_one_signal(300_000, 100, 0)).unwrap();
    d.process_message(&msm1077_one_signal(301_000, 100, 0)).unwrap();
    let phase = find_obs(&d, 1, ObsKind::Phase).unwrap();
    assert_eq!(phase.lli, Some(0));
}

#[test]
fn growing_lock_indicator_flags_loss_when_time_allows() {
    // second message carries DF407 = 150: p < n, b <= p, dt = 1000 > n
    let mut d = RtcmDecoder::new(false);
    d.process_message(&RtcmMessage::GpsEphemeris { week_number: 286 })
        .unwrap();
    d.process_message(&msm1077_one_signal(300_000, 100, 0)).unwrap();
    d.process_message(&msm1077_one_signal(301_000, 150, 0)).unwrap();
    let phase = find_obs(&d, 1, ObsKind::Phase).unwrap();
    assert_eq!(phase.lli, Some(1));
}

#[test]
fn msm_before_ephemeris_is_dropped() {
    // a Galileo MSM7 before any Galileo ephemeris leaves the table empty
    let mut d = RtcmDecoder::new(false);
    let msg = RtcmMessage::GalileoMsm7(Msm57Message {
        epoch_time_ms: 300_000,
        satellites: vec![sat57(11, Some(80), 100, None)],
        signals: vec![sig57(11, 5, 'Q', Some(1000), Some(1000), None, 50, 0, Some(640))],
    });
    assert_eq!(d.process_message(&msg), Ok(()));
    assert_eq!(d.get_rtcm_data().entries.len(), 0);
    assert!(d.get_first_epoch().is_none());
    assert!(d.get_last_epoch().is_none());
}

#[test]
fn half_cycle_ambiguity_sets_the_bit_in_both_modes() {
    for mode in [false, true] {
        let mut d = RtcmDecoder::new(mode);
        d.process_message(&RtcmMessage::GpsEphemeris { week_number: 286 })
            .unwrap();
        d.process_message(&msm1077_one_signal(300_000, 100, 1)).unwrap();
        let phase = find_obs(&d, 0, ObsKind::Phase).unwrap();
        assert_eq!(phase.lli.unwrap() & 2, 2);
    }
}

#[test]
fn observed_signals_lists_each_pair_once() {
    // two epochs with (Galileo, 11) on band 5 attribute Q
    let mut d = RtcmDecoder::new(false);
    d.process_message(&RtcmMessage::GalileoEphemeris { week_number: 1200 })
        .unwrap();
    for tow in [300_000u32, 301_000u32] {
        let msg = RtcmMessage::GalileoMsm7(Msm57Message {
            epoch_time_ms: tow,
            satellites: vec![sat57(11, Some(80), 100, None)],
            signals: vec![sig57(11, 5, 'Q', Some(1000), Some(1000), None, 50, 0, Some(640))],
        });
        d.process_message(&msg).unwrap();
    }
    assert_eq!(d.get_rtcm_data().entries.len(), 2);
    let signals = d.extract_observed_signals();
    let expected = (Constellation::Galileo, SignalCode { band: 5, attribute: 'Q' });
    let count = signals.iter().filter(|p| **p == expected).count();
    assert_eq!(count, 1);
    assert_eq!(signals.len(), 1);
}

#[test]
fn replaying_the_same_input_gives_identical_tables() {
    let msgs = vec![
        RtcmMessage::GpsEphemeris { week_number: 286 },
        msm1077_one_signal(300_000, 100, 0),
        RtcmMessage::GalileoEphemeris { week_number: 1200 },
        RtcmMessage::GalileoMsm7(Msm57Message {
            epoch_time_ms: 300_500,
            satellites: vec![sat57(11, Some(80), 100, Some(-50))],
            signals: vec![sig57(11, 5, 'Q', Some(1000), Some(1000), Some(7), 50, 0, Some(640))],
        }),
        msm1077_one_signal(301_000, 150, 1),
    ];
    let mut d1 = RtcmDecoder::new(false);
    let mut d2 = RtcmDecoder::new(false);
    for m in msgs.iter() {
        d1.process_message(m).unwrap();
    }
    for m in msgs.iter() {
        d2.process_message(m).unwrap();
    }
    assert_eq!(d1.get_rtcm_data(), d2.get_rtcm_data());
    assert_eq!(d1.extract_observed_signals(), d2.extract_observed_signals());
    assert_eq!(d1.get_first_epoch(), d2.get_first_epoch());
    assert_eq!(d1.get_last_epoch(), d2.get_last_epoch());
}

#[test]
fn epochs_arriving_out_of_order_come_out_sorted() {
    let mut d = RtcmDecoder::new(false);
    d.process_message(&RtcmMessage::GpsEphemeris { week_number: 286 })
        .unwrap();
    d.process_message(&msm1077_one_signal(302_000, 100, 0)).unwrap();
    d.process_message(&msm1077_one_signal(300_000, 100, 0)).unwrap();
    d.process_message(&msm1077_one_signal(301_000, 100, 0)).unwrap();
    let table = d.get_rtcm_data();
    assert_eq!(table.entries.len(), 3);
    let base = (286u64 + 2048) * 604_800_000;
    assert_eq!(table.entries[0].epoch.gpst_ms, base + 300_000);
    assert_eq!(table.entries[1].epoch.gpst_ms, base + 301_000);
    assert_eq!(table.entries[2].epoch.gpst_ms, base + 302_000);
    assert_eq!(d.get_first_epoch().unwrap().gpst_ms, base + 300_000);
    assert_eq!(d.get_last_epoch().unwrap().gpst_ms, base + 302_000);
}

#[test]
fn msm4_message_scales_its_wire_fields() {
    let mut d = RtcmDecoder::new(false);
    d.process_message(&RtcmMessage::GpsEphemeris { week_number: 286 })
        .unwrap();
    let msg = RtcmMessage::GpsMsm4(Msm46Message {
        epoch_time_ms: 300_000,
        satellites: vec![MsmSat46 {
            satellite_id: 7,
            rough_range_int_ms: Some(70),
            rough_range_mod1ms_q10: 256,
        }],
        signals: vec![MsmSig46 {
            satellite_id: 7,
            band: 2,
            attribute: 'W',
            fine_pseudo_range_q24: Some(100),
            fine_phase_range_q29: Some(-200),
            lock_time_ind: 3,
            half_cycle_ambiguity: 0,
            cnr_dbhz: Some(45),
        }],
    });
    d.process_message(&msg).unwrap();
    let pseudo = find_obs(&d, 0, ObsKind::PseudoRange).unwrap();
    let phase = find_obs(&d, 0, ObsKind::Phase).unwrap();
    let ssi = find_obs(&d, 0, ObsKind::Ssi).unwrap();
    // MSM4 fine fields are scaled up to 2^-31 ms, the six-bit cnr to 1/16 dBHz
    assert_eq!(pseudo.num, 70 * 2_147_483_648 + 256 * 2_097_152 + 100 * 128);
    assert_eq!(phase.num, 70 * 2_147_483_648 + 256 * 2_097_152 - 200 * 4);
    assert_eq!(ssi.num, 45 * 16);
    assert!(find_obs(&d, 0, ObsKind::Doppler).is_none());
}

#[test]
fn missing_satellite_rejects_the_whole_message() {
    let mut d = RtcmDecoder::new(false);
    d.process_message(&RtcmMessage::GpsEphemeris { week_number: 286 })
        .unwrap();
    let msg = RtcmMessage::GpsMsm7(Msm57Message {
        epoch_time_ms: 300_000,
        satellites: vec![sat57(5, Some(75), 512, None)],
        signals: vec![
            sig57(5, 1, 'C', Some(100), Some(100), None, 10, 0, None),
            sig57(9, 1, 'C', Some(100), Some(100), None, 10, 0, None),
        ],
    });
    assert_eq!(
        d.process_message(&msg),
        Err(RtcmError::MissingSatellite { satellite_id: 9 })
    );
    // the message is checked whole first: not even the good row was stored
    assert_eq!(d.get_rtcm_data().entries.len(), 0);
}

#[test]
fn unsupported_band_rejects_the_whole_message() {
    let mut d = RtcmDecoder::new(false);
    d.process_message(&RtcmMessage::GpsEphemeris { week_number: 286 })
        .unwrap();
    let msg = RtcmMessage::GpsMsm7(Msm57Message {
        epoch_time_ms: 300_000,
        satellites: vec![sat57(5, Some(75), 512, None)],
        signals: vec![
            sig57(5, 1, 'C', Some(100), Some(100), None, 10, 0, None),
            sig57(5, 3, 'X', Some(100), Some(100), None, 10, 0, None),
        ],
    });
    assert_eq!(
        d.process_message(&msg),
        Err(RtcmError::UnsupportedSignal { constellation: Constellation::Gps, band: 3 })
    );
    assert_eq!(d.get_rtcm_data().entries.len(), 0);
}

#[test]
fn other_messages_are_ignored() {
    let mut d = RtcmDecoder::new(false);
    assert_eq!(d.process_message(&RtcmMessage::Other), Ok(()));
    assert_eq!(d.get_rtcm_data().entries.len(), 0);
}

#[test]
fn clear_resets_table_but_not_lock_history() {
    let mut d = RtcmDecoder::new(true);
    d.process_message(&RtcmMessage::GpsEphemeris { week_number: 286 })
        .unwrap();
    d.process_message(&msm1077_one_signal(300_000, 100, 0)).unwrap();
    d.clear();
    assert_eq!(d.get_rtcm_data().entries.len(), 0);
    assert!(d.get_first_epoch().is_none());
    assert!(d.get_last_epoch().is_none());
    // the lock history survives: a dropping indicator right after a clear
    // is still seen as a loss by the simplified rule
    d.process_message(&msm1077_one_signal(301_000, 50, 0)).unwrap();
    let phase = find_obs(&d, 0, ObsKind::Phase).unwrap();
    assert_eq!(phase.lli, Some(1));
}

#[test]
fn overwriting_an_observable_keeps_one_entry() {
    // the same (epoch, satellite, key) stored twice holds the later value
    let mut d = RtcmDecoder::new(false);
    d.process_message(&RtcmMessage::GpsEphemeris { week_number: 286 })
        .unwrap();
    d.process_message(&msm1077_one_signal(300_000, 100, 0)).unwrap();
    let msg = RtcmMessage::GpsMsm7(Msm57Message {
        epoch_time_ms: 300_000,
        satellites: vec![sat57(5, Some(76), 512, None)],
        signals: vec![sig57(5, 1, 'C', Some(53_687), Some(429_497), None, 101, 0, Some(720))],
    });
    d.process_message(&msg).unwrap();
    let table = d.get_rtcm_data();
    assert_eq!(table.entries.len(), 1);
    assert_eq!(table.entries[0].svs.len(), 1);
    assert_eq!(table.entries[0].svs[0].obs.len(), 3);
    let pseudo = find_obs(&d, 0, ObsKind::PseudoRange).unwrap();
    assert_eq!(pseudo.num, 76 * 2_147_483_648 + 512 * 2_097_152 + 53_687 * 4);
}

#[test]
fn sorted_codes_come_out_ordered_and_unique() {
    let signals = vec![
        (Constellation::Gps, SignalCode { band: 5, attribute: 'Q' }),
        (Constellation::Galileo, SignalCode { band: 1, attribute: 'C' }),
        (Constellation::Gps, SignalCode { band: 1, attribute: 'C' }),
        (Constellation::Gps, SignalCode { band: 1, attribute: 'W' }),
        (Constellation::Gps, SignalCode { band: 5, attribute: 'Q' }),
    ];
    let gps = RtcmDecoder::sorted_codes_for(&signals, Constellation::Gps);
    assert_eq!(
        gps,
        vec![
            SignalCode { band: 1, attribute: 'C' },
            SignalCode { band: 1, attribute: 'W' },
            SignalCode { band: 5, attribute: 'Q' },
        ]
    );
    let gal = RtcmDecoder::sorted_codes_for(&signals, Constellation::Galileo);
    assert_eq!(gal, vec![SignalCode { band: 1, attribute: 'C' }]);
}

#[test]
fn process_msm1077_takes_a_resolved_epoch() {
    let mut d = RtcmDecoder::new(false);
    let epoch = rtcmlib::Epoch { gpst_ms: 1_000_000 };
    let msg = Msm57Message {
        epoch_time_ms: 0,
        satellites: vec![sat57(5, Some(75), 512, None)],
        signals: vec![sig57(5, 1, 'C', Some(100), Some(100), None, 10, 0, None)],
    };
    d.process_msm1077(&msg, epoch).unwrap();
    assert_eq!(d.get_rtcm_data().entries[0].epoch, epoch);
    assert_eq!(d.get_first_epoch(), Some(epoch));
}

#[test]
fn process_msm1094_attributes_signals_to_galileo() {
    let mut d = RtcmDecoder::new(false);
    let epoch = rtcmlib::Epoch { gpst_ms: 2_000_000 };
    let msg = Msm46Message {
        epoch_time_ms: 0,
        satellites: vec![MsmSat46 {
            satellite_id: 11,
            rough_range_int_ms: Some(80),
            rough_range_mod1ms_q10: 100,
        }],
        signals: vec![MsmSig46 {
            satellite_id: 11,
            band: 5,
            attribute: 'Q',
            fine_pseudo_range_q24: Some(10),
            fine_phase_range_q29: Some(10),
            lock_time_ind: 2,
            half_cycle_ambiguity: 0,
            cnr_dbhz: Some(40),
        }],
    };
    d.process_msm1094(&msg, epoch).unwrap();
    let sv = d.get_rtcm_data().entries[0].svs[0].sv;
    assert_eq!(sv.constellation, Constellation::Galileo);
    assert_eq!(sv.prn, 11);
    let signals = d.extract_observed_signals();
    assert_eq!(
        signals,
        vec![(Constellation::Galileo, SignalCode { band: 5, attribute: 'Q' })]
    );
}

#[test]
fn process_msm1074_uses_gps_bands() {
    // band 7 exists for Galileo but not for GPS: a 1074 carrying it fails
    let mut d = RtcmDecoder::new(false);
    let epoch = rtcmlib::Epoch { gpst_ms: 3_000_000 };
    let msg = Msm46Message {
        epoch_time_ms: 0,
        satellites: vec![MsmSat46 {
            satellite_id: 3,
            rough_range_int_ms: Some(80),
            rough_range_mod1ms_q10: 100,
        }],
        signals: vec![MsmSig46 {
            satellite_id: 3,
            band: 7,
            attribute: 'Q',
            fine_pseudo_range_q24: Some(10),
            fine_phase_range_q29: Some(10),
            lock_time_ind: 2,
            half_cycle_ambiguity: 0,
            cnr_dbhz: None,
        }],
    };
    assert_eq!(
        d.process_msm1074(&msg, epoch),
        Err(RtcmError::UnsupportedSignal { constellation: Constellation::Gps, band: 7 })
    );
    let mut gal = RtcmDecoder::new(false);
    gal.process_msm1094(&msg, epoch).unwrap();
    assert_eq!(gal.get_rtcm_data().entries.len(), 1);
}

#[test]
fn process_msm1097_shares_the_epoch_table() {
    // GPS and Galileo observations at one instant share one table row
    let mut d = RtcmDecoder::new(false);
    let epoch = rtcmlib::Epoch { gpst_ms: 4_000_000 };
    let gps = Msm57Message {
        epoch_time_ms: 0,
        satellites: vec![sat57(5, Some(75), 512, None)],
        signals: vec![sig57(5, 1, 'C', Some(100), Some(100), None, 10, 0, None)],
    };
    let gal = Msm57Message {
        epoch_time_ms: 0,
        satellites: vec![sat57(11, Some(80), 100, None)],
        signals: vec![sig57(11, 5, 'Q', Some(100), Some(100), None, 10, 0, None)],
    };
    d.process_msm1077(&gps, epoch).unwrap();
    d.process_msm1097(&gal, epoch).unwrap();
    let table = d.get_rtcm_data();
    assert_eq!(table.entries.len(), 1);
    assert_eq!(table.entries[0].svs.len(), 2);
    // GPS sorts before Galileo within the row
    assert_eq!(table.entries[0].svs[0].sv.constellation, Constellation::Gps);
    assert_eq!(table.entries[0].svs[1].sv.constellation, Constellation::Galileo);
}

#[test]
fn epoch_rows_carry_ok_flag_and_zero_clock_offset() {
    let mut d = RtcmDecoder::new(false);
    d.process_message(&RtcmMessage::GpsEphemeris { week_number: 286 })
        .unwrap();
    d.process_message(&msm1077_one_signal(300_000, 100, 0)).unwrap();
    let entry = &d.get_rtcm_data().entries[0];
    assert_eq!(entry.flag, rtcmlib::EpochFlag::Okay);
    assert_eq!(entry.clock_offset_s, Some(0));
}
