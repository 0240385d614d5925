use vstd::prelude::*;

use crate::freq::{band_supported, get_frequency, Constellation, RtcmError};
use crate::lock::{
    lock_wf, spec_dt, spec_lli, spec_lock_update, spec_prev_epoch, spec_prev_ind, LockEntry,
    LockStatus,
};
use crate::table::{
    entry_ok, lemma_touch_ends, lemma_touch_values_ok, lemma_upsert_keys, lemma_upsert_values_ok,
    svs_has, table_has_row, table_row_index, table_touch, table_upsert, table_values_ok, table_wf,
    EpochGroup, RtcmData,
};
use crate::time::{rtcm_galileo_time2epoch, rtcm_gps_time2epoch, spec_galileo_epoch, spec_gps_epoch, Epoch};
use crate::types::{
    spec_normalize46, spec_normalize57, EpochFlag, Msm46Message, Msm57Message, MsmData, MsmSat46,
    MsmSat57, MsmSig46, MsmSig57, ObsEntry, ObsKind, ObservableKey, ObservationValue, RtcmMessage,
    SignalCode, Sv,
};

verus! {

/// The number of whole GPS week rollovers this decoder assumes when a
/// ten-bit GPS week number arrives: two, correct from April 2019 until the
/// next rollover.
pub const GPS_WEEK_ROLLOVER: u16 = 2048;

/// The complete mathematical state of a decoder.
pub ghost struct DecoderView {
    /// Which lock-loss rule is in force (simplified when true).
    pub use_rtklib_method: bool,
    /// Full GPS week, known once a GPS ephemeris has been seen.
    pub gps_week: Option<u64>,
    /// Galileo week, known once a Galileo ephemeris has been seen.
    pub galileo_week: Option<u64>,
    /// The earliest epoch the table holds.
    pub first_epoch: Option<Epoch>,
    /// The latest epoch the table holds.
    pub last_epoch: Option<Epoch>,
    /// The observation table.
    pub table: Seq<EpochGroup>,
    /// The lock tracker history.
    pub lock: Seq<LockEntry>,
}

/// The pseudorange entry a row yields, if its fields are all present: the
/// range sum in 2^-31 light-milliseconds under the `C` code.
pub open spec fn spec_pseudo_entry(sig: MsmData) -> Option<ObsEntry> {
    match (sig.rough_range_int_ms, sig.fine_pseudo_range_q31) {
        (Some(ri), Some(fp)) => Some(
            ObsEntry {
                key: ObservableKey {
                    kind: ObsKind::PseudoRange,
                    code: SignalCode { band: sig.band, attribute: sig.attribute },
                },
                value: ObservationValue {
                    num: (ri * 0x80000000 + sig.rough_range_mod1ms_q10 * 0x200000 + fp) as i64,
                    lli: None,
                    snr: None,
                },
            },
        ),
        _ => None,
    }
}

/// The carrier-phase entry a row yields: the same range sum with the fine
/// phase range instead, under the `L` code, carrying the loss-of-lock mask.
pub open spec fn spec_phase_entry(sig: MsmData, lli: u8) -> Option<ObsEntry> {
    match (sig.rough_range_int_ms, sig.fine_phase_range_q31) {
        (Some(ri), Some(fp)) => Some(
            ObsEntry {
                key: ObservableKey {
                    kind: ObsKind::Phase,
                    code: SignalCode { band: sig.band, attribute: sig.attribute },
                },
                value: ObservationValue {
                    num: (ri * 0x80000000 + sig.rough_range_mod1ms_q10 * 0x200000 + fp) as i64,
                    lli: Some(lli),
                    snr: None,
                },
            },
        ),
        _ => None,
    }
}

/// The Doppler entry a row yields: the negated phase-range rate in
/// 0.0001 m/s under the `D` code.
pub open spec fn spec_doppler_entry(sig: MsmData) -> Option<ObsEntry> {
    match (sig.rough_phase_range_rate_m_s, sig.fine_phase_range_rate_e4) {
        (Some(rr), Some(fr)) => Some(
            ObsEntry {
                key: ObservableKey {
                    kind: ObsKind::Doppler,
                    code: SignalCode { band: sig.band, attribute: sig.attribute },
                },
                value: ObservationValue { num: (-(rr * 10000 + fr)) as i64, lli: None, snr: None },
            },
        ),
        _ => None,
    }
}

/// The carrier-to-noise entry a row yields: the ratio in 1/16 dBHz under
/// the `S` code.
pub open spec fn spec_ssi_entry(sig: MsmData) -> Option<ObsEntry> {
    match sig.cnr_q4 {
        Some(c) => Some(
            ObsEntry {
                key: ObservableKey {
                    kind: ObsKind::Ssi,
                    code: SignalCode { band: sig.band, attribute: sig.attribute },
                },
                value: ObservationValue { num: c as i64, lli: None, snr: None },
            },
        ),
        None => None,
    }
}

/// The table after storing an optional entry.
pub open spec fn spec_apply_entry(
    t: Seq<EpochGroup>,
    epoch: Epoch,
    sv: Sv,
    e: Option<ObsEntry>,
) -> Seq<EpochGroup> {
    match e {
        Some(en) => table_upsert(t, epoch, EpochFlag::Okay, sv, en),
        None => t,
    }
}

/// What one normalized signal row does to the decoder: the epoch summary
/// moves outward, the lock history advances, and up to four observables are
/// stored.  A row whose (constellation, band) has no known frequency leaves
/// the state untouched (the caller reports the error).
pub open spec fn spec_process_signal(v: DecoderView, sig: MsmData, epoch: Epoch) -> DecoderView {
    if band_supported(sig.constellation, sig.band) {
        let sv = Sv { constellation: sig.constellation, prn: sig.satellite_id };
        let code = SignalCode { band: sig.band, attribute: sig.attribute };
        let first = if v.first_epoch is None || epoch.gpst_ms
            < v.first_epoch->Some_0.gpst_ms {
            Some(epoch)
        } else {
            v.first_epoch
        };
        let last = if v.last_epoch is None || epoch.gpst_ms > v.last_epoch->Some_0.gpst_ms {
            Some(epoch)
        } else {
            v.last_epoch
        };
        let lli = spec_lli(
            v.use_rtklib_method,
            spec_prev_ind(v.lock, sv, code),
            sig.loss_of_lock_indicator,
            spec_dt(spec_prev_epoch(v.lock, sv, code), epoch),
            sig.half_cycle_ambiguity,
        );
        let lock2 = spec_lock_update(v.lock, sv, code, sig.loss_of_lock_indicator, epoch);
        let t1 = table_touch(v.table, epoch, EpochFlag::Okay, sv);
        let t2 = spec_apply_entry(t1, epoch, sv, spec_pseudo_entry(sig));
        let t3 = spec_apply_entry(t2, epoch, sv, spec_phase_entry(sig, lli));
        let t4 = spec_apply_entry(t3, epoch, sv, spec_doppler_entry(sig));
        let t5 = spec_apply_entry(t4, epoch, sv, spec_ssi_entry(sig));
        DecoderView {
            use_rtklib_method: v.use_rtklib_method,
            gps_week: v.gps_week,
            galileo_week: v.galileo_week,
            first_epoch: first,
            last_epoch: last,
            table: t5,
            lock: lock2,
        }
    } else {
        v
    }
}

/// The satellite record an MSM4 signal row joins against: the last record in
/// the satellite segment that carries its satellite id.
pub open spec fn spec_last_sat46(sats: Seq<MsmSat46>, id: u8) -> Option<MsmSat46>
    decreases sats.len(),
{
    if sats.len() == 0 {
        None
    } else if sats.last().satellite_id == id {
        Some(sats.last())
    } else {
        spec_last_sat46(sats.drop_last(), id)
    }
}

/// The satellite record an MSM7 signal row joins against.
pub open spec fn spec_last_sat57(sats: Seq<MsmSat57>, id: u8) -> Option<MsmSat57>
    decreases sats.len(),
{
    if sats.len() == 0 {
        None
    } else if sats.last().satellite_id == id {
        Some(sats.last())
    } else {
        spec_last_sat57(sats.drop_last(), id)
    }
}

/// Why one MSM4 signal row would be rejected, if it would be.
pub open spec fn spec_row_error46(
    sats: Seq<MsmSat46>,
    sig: MsmSig46,
    c: Constellation,
) -> Option<RtcmError> {
    if spec_last_sat46(sats, sig.satellite_id) is None {
        Some(RtcmError::MissingSatellite { satellite_id: sig.satellite_id })
    } else if !band_supported(c, sig.band) {
        Some(RtcmError::UnsupportedSignal { constellation: c, band: sig.band })
    } else {
        None
    }
}

/// Why one MSM7 signal row would be rejected, if it would be.
pub open spec fn spec_row_error57(
    sats: Seq<MsmSat57>,
    sig: MsmSig57,
    c: Constellation,
) -> Option<RtcmError> {
    if spec_last_sat57(sats, sig.satellite_id) is None {
        Some(RtcmError::MissingSatellite { satellite_id: sig.satellite_id })
    } else if !band_supported(c, sig.band) {
        Some(RtcmError::UnsupportedSignal { constellation: c, band: sig.band })
    } else {
        None
    }
}

/// The first rejection among the rows of an MSM4 message, scanning from
/// row `i` on.
pub open spec fn spec_first_error46_from(
    sats: Seq<MsmSat46>,
    sigs: Seq<MsmSig46>,
    c: Constellation,
    i: int,
) -> Option<RtcmError>
    decreases sigs.len() - i,
{
    if i < 0 || i >= sigs.len() {
        None
    } else {
        match spec_row_error46(sats, sigs[i], c) {
            Some(e) => Some(e),
            None => spec_first_error46_from(sats, sigs, c, i + 1),
        }
    }
}

/// The first rejection among the rows of an MSM7 message, scanning from
/// row `i` on.
pub open spec fn spec_first_error57_from(
    sats: Seq<MsmSat57>,
    sigs: Seq<MsmSig57>,
    c: Constellation,
    i: int,
) -> Option<RtcmError>
    decreases sigs.len() - i,
{
    if i < 0 || i >= sigs.len() {
        None
    } else {
        match spec_row_error57(sats, sigs[i], c) {
            Some(e) => Some(e),
            None => spec_first_error57_from(sats, sigs, c, i + 1),
        }
    }
}

/// The decoder state after the rows of an MSM4 message from row `i` on,
/// each normalized against its satellite record and processed in order.
pub open spec fn spec_run_sigs46_from(
    v: DecoderView,
    sats: Seq<MsmSat46>,
    sigs: Seq<MsmSig46>,
    c: Constellation,
    epoch: Epoch,
    i: int,
) -> DecoderView
    decreases sigs.len() - i,
{
    if i < 0 || i >= sigs.len() {
        v
    } else {
        match spec_last_sat46(sats, sigs[i].satellite_id) {
            Some(st) => spec_run_sigs46_from(
                spec_process_signal(v, spec_normalize46(st, sigs[i], c), epoch),
                sats,
                sigs,
                c,
                epoch,
                i + 1,
            ),
            None => spec_run_sigs46_from(v, sats, sigs, c, epoch, i + 1),
        }
    }
}

/// The decoder state after the rows of an MSM7 message from row `i` on.
pub open spec fn spec_run_sigs57_from(
    v: DecoderView,
    sats: Seq<MsmSat57>,
    sigs: Seq<MsmSig57>,
    c: Constellation,
    epoch: Epoch,
    i: int,
) -> DecoderView
    decreases sigs.len() - i,
{
    if i < 0 || i >= sigs.len() {
        v
    } else {
        match spec_last_sat57(sats, sigs[i].satellite_id) {
            Some(st) => spec_run_sigs57_from(
                spec_process_signal(v, spec_normalize57(st, sigs[i], c), epoch),
                sats,
                sigs,
                c,
                epoch,
                i + 1,
            ),
            None => spec_run_sigs57_from(v, sats, sigs, c, epoch, i + 1),
        }
    }
}

/// The state of a freshly built decoder.
pub open spec fn spec_decoder_init(use_rtklib_method: bool) -> DecoderView {
    DecoderView {
        use_rtklib_method,
        gps_week: None,
        galileo_week: None,
        first_epoch: None,
        last_epoch: None,
        table: Seq::empty(),
        lock: Seq::empty(),
    }
}

/// What one framed message does to the decoder state: ephemerides set the
/// week, MSM messages with a known week resolve their epoch and run their
/// rows (a message with a bad row changes nothing), everything else is
/// ignored.
pub open spec fn spec_step(v: DecoderView, msg: RtcmMessage) -> DecoderView {
    match msg {
        RtcmMessage::GpsEphemeris { week_number } => DecoderView {
            gps_week: Some((week_number + GPS_WEEK_ROLLOVER) as u64),
            ..v
        },
        RtcmMessage::GalileoEphemeris { week_number } => DecoderView {
            galileo_week: Some(week_number as u64),
            ..v
        },
        RtcmMessage::GpsMsm4(m) => match v.gps_week {
            None => v,
            Some(w) => {
                let epoch = spec_gps_epoch(m.epoch_time_ms as u64, w);
                if spec_first_error46_from(
                    m.satellites@,
                    m.signals@,
                    Constellation::Gps,
                    0,
                ) is Some {
                    v
                } else {
                    spec_run_sigs46_from(v, m.satellites@, m.signals@, Constellation::Gps, epoch, 0)
                }
            },
        },
        RtcmMessage::GpsMsm7(m) => match v.gps_week {
            None => v,
            Some(w) => {
                let epoch = spec_gps_epoch(m.epoch_time_ms as u64, w);
                if spec_first_error57_from(
                    m.satellites@,
                    m.signals@,
                    Constellation::Gps,
                    0,
                ) is Some {
                    v
                } else {
                    spec_run_sigs57_from(v, m.satellites@, m.signals@, Constellation::Gps, epoch, 0)
                }
            },
        },
        RtcmMessage::GalileoMsm4(m) => match v.galileo_week {
            None => v,
            Some(w) => {
                let epoch = spec_galileo_epoch(m.epoch_time_ms as u64, w);
                if spec_first_error46_from(
                    m.satellites@,
                    m.signals@,
                    Constellation::Galileo,
                    0,
                ) is Some {
                    v
                } else {
                    spec_run_sigs46_from(
                        v,
                        m.satellites@,
                        m.signals@,
                        Constellation::Galileo,
                        epoch,
                        0,
                    )
                }
            },
        },
        RtcmMessage::GalileoMsm7(m) => match v.galileo_week {
            None => v,
            Some(w) => {
                let epoch = spec_galileo_epoch(m.epoch_time_ms as u64, w);
                if spec_first_error57_from(
                    m.satellites@,
                    m.signals@,
                    Constellation::Galileo,
                    0,
                ) is Some {
                    v
                } else {
                    spec_run_sigs57_from(
                        v,
                        m.satellites@,
                        m.signals@,
                        Constellation::Galileo,
                        epoch,
                        0,
                    )
                }
            },
        },
        RtcmMessage::Other => v,
    }
}

/// The error one framed message reports: an MSM message with a known week
/// reports its first bad row, everything else reports nothing.
pub open spec fn spec_step_error(v: DecoderView, msg: RtcmMessage) -> Option<RtcmError> {
    match msg {
        RtcmMessage::GpsMsm4(m) => match v.gps_week {
            None => None,
            Some(w) => spec_first_error46_from(m.satellites@, m.signals@, Constellation::Gps, 0),
        },
        RtcmMessage::GpsMsm7(m) => match v.gps_week {
            None => None,
            Some(w) => spec_first_error57_from(m.satellites@, m.signals@, Constellation::Gps, 0),
        },
        RtcmMessage::GalileoMsm4(m) => match v.galileo_week {
            None => None,
            Some(w) => spec_first_error46_from(
                m.satellites@,
                m.signals@,
                Constellation::Galileo,
                0,
            ),
        },
        RtcmMessage::GalileoMsm7(m) => match v.galileo_week {
            None => None,
            Some(w) => spec_first_error57_from(
                m.satellites@,
                m.signals@,
                Constellation::Galileo,
                0,
            ),
        },
        _ => None,
    }
}


/// Whether a satellite group holds an observable with this two-character
/// code among its first `m` entries.
pub open spec fn sv_has_code_upto(s: crate::table::SvGroup, m: int, code: SignalCode) -> bool {
    exists|k: int| 0 <= k < m && #[trigger] s.obs[k].key.code == code
}

/// Whether a satellite group holds an observable with this code.
pub open spec fn sv_has_code(s: crate::table::SvGroup, code: SignalCode) -> bool {
    sv_has_code_upto(s, s.obs.len() as int, code)
}

/// Whether a row holds this (constellation, code) pair among its first `m`
/// satellites.
pub open spec fn group_has_signal_upto(
    g: EpochGroup,
    m: int,
    c: Constellation,
    code: SignalCode,
) -> bool {
    exists|j: int|
        0 <= j < m && g.svs[j].sv.constellation == c && sv_has_code(#[trigger] g.svs[j], code)
}

/// Whether a row holds this (constellation, code) pair.
pub open spec fn group_has_signal(g: EpochGroup, c: Constellation, code: SignalCode) -> bool {
    group_has_signal_upto(g, g.svs.len() as int, c, code)
}

/// Whether the first `n` rows of a table hold this pair.
pub open spec fn table_has_signal_upto(
    t: Seq<EpochGroup>,
    n: int,
    c: Constellation,
    code: SignalCode,
) -> bool {
    exists|i: int| 0 <= i < n && group_has_signal(#[trigger] t[i], c, code)
}

/// Whether any observation in the table was made by a satellite of this
/// constellation under this code.
pub open spec fn table_has_signal(t: Seq<EpochGroup>, c: Constellation, code: SignalCode) -> bool {
    table_has_signal_upto(t, t.len() as int, c, code)
}

/// No pair appears twice.
pub open spec fn no_dup_pairs(s: Seq<(Constellation, SignalCode)>) -> bool {
    forall|p: int, q: int| 0 <= p < q < s.len() ==> s[p] != s[q]
}


/// What the signal scan has seen after the first `i` rows, the first `j`
/// satellites of row `i`, and the first `k` observations of satellite `j`.
pub open spec fn pair_seen(
    t: Seq<EpochGroup>,
    i: int,
    g: EpochGroup,
    j: int,
    sg: crate::table::SvGroup,
    cons: Constellation,
    k: int,
    c: Constellation,
    code: SignalCode,
) -> bool {
    table_has_signal_upto(t, i, c, code) || group_has_signal_upto(g, j, c, code) || (c == cons
        && sv_has_code_upto(sg, k, code))
}

/// Collecting one observation's pair advances the scan by one observation.
proof fn lemma_pair_step(
    out0: Seq<(Constellation, SignalCode)>,
    out1: Seq<(Constellation, SignalCode)>,
    t: Seq<EpochGroup>,
    i: int,
    g: EpochGroup,
    j: int,
    sg: crate::table::SvGroup,
    cons: Constellation,
    k: int,
    code: SignalCode,
)
    requires
        forall|c: Constellation, c2: SignalCode| #![auto]
            out0.contains((c, c2)) <==> pair_seen(t, i, g, j, sg, cons, k, c, c2),
        0 <= k < sg.obs.len(),
        sg.obs[k].key.code == code,
        out0.contains((cons, code)) ==> out1 == out0,
        !out0.contains((cons, code)) ==> out1 == out0.push((cons, code)),
    ensures
        forall|c: Constellation, c2: SignalCode| #![auto]
            out1.contains((c, c2)) <==> pair_seen(t, i, g, j, sg, cons, k + 1, c, c2),
{
    assert forall|c: Constellation, c2: SignalCode| #![auto]
        out1.contains((c, c2)) <==> pair_seen(t, i, g, j, sg, cons, k + 1, c, c2) by {
        assert(out0.contains((c, c2)) <==> pair_seen(t, i, g, j, sg, cons, k, c, c2));
        if c == cons && c2 == code {
            assert(sv_has_code_upto(sg, k + 1, c2));
            assert(out1.contains((c, c2))) by {
                if out0.contains((cons, code)) {
                    let w2 = choose|w2: int| 0 <= w2 < out0.len() && out0[w2] == (cons, code);
                    assert(out1[w2] == (c, c2));
                } else {
                    assert(out1[out0.len() as int] == (c, c2));
                }
            }
        } else {
            assert(out1.contains((c, c2)) == out0.contains((c, c2))) by {
                if out0.contains((c, c2)) {
                    let w2 = choose|w2: int| 0 <= w2 < out0.len() && out0[w2] == (c, c2);
                    assert(out1[w2] == (c, c2));
                }
                if out1.contains((c, c2)) {
                    let w2 = choose|w2: int| 0 <= w2 < out1.len() && out1[w2] == (c, c2);
                    if w2 < out0.len() {
                        assert(out0[w2] == (c, c2));
                    } else {
                        assert(out1 == out0.push((cons, code)));
                        assert(out1[w2] == (cons, code));
                        assert(false);
                    }
                }
            }
            assert((c == cons && sv_has_code_upto(sg, k + 1, c2)) == (c == cons
                && sv_has_code_upto(sg, k, c2))) by {
                if c == cons && sv_has_code_upto(sg, k + 1, c2) {
                    let k2 = choose|k2: int| 0 <= k2 < k + 1 && sg.obs[k2].key.code == c2;
                    if k2 == k {
                        assert(c2 == code);
                        assert(false);
                    }
                    assert(sv_has_code_upto(sg, k, c2));
                }
                if c == cons && sv_has_code_upto(sg, k, c2) {
                    let k2 = choose|k2: int| 0 <= k2 < k && sg.obs[k2].key.code == c2;
                    assert(0 <= k2 < k + 1 && sg.obs[k2].key.code == c2);
                    assert(sv_has_code_upto(sg, k + 1, c2));
                }
            }
        }
    }
}

/// A fully scanned satellite folds into the row's prefix.
proof fn lemma_pair_sv_boundary(
    t: Seq<EpochGroup>,
    i: int,
    g: EpochGroup,
    j: int,
    sg: crate::table::SvGroup,
    cons: Constellation,
)
    requires
        0 <= j < g.svs.len(),
        sg == g.svs[j],
        cons == sg.sv.constellation,
    ensures
        forall|c: Constellation, c2: SignalCode| #![auto]
            pair_seen(t, i, g, j, sg, cons, sg.obs.len() as int, c, c2) <==> (
            table_has_signal_upto(t, i, c, c2) || group_has_signal_upto(g, j + 1, c, c2)),
{
    assert forall|c: Constellation, c2: SignalCode| #![auto]
        pair_seen(t, i, g, j, sg, cons, sg.obs.len() as int, c, c2) <==> (table_has_signal_upto(
        t,
        i,
        c,
        c2,
    ) || group_has_signal_upto(g, j + 1, c, c2)) by {
        if group_has_signal_upto(g, j + 1, c, c2) {
            let j2 = choose|j2: int|
                0 <= j2 < j + 1 && g.svs[j2].sv.constellation == c && sv_has_code(g.svs[j2], c2);
            if j2 == j {
                assert(c == cons && sv_has_code_upto(sg, sg.obs.len() as int, c2));
            } else {
                assert(group_has_signal_upto(g, j, c, c2));
            }
        }
        if group_has_signal_upto(g, j, c, c2) {
            let j2 = choose|j2: int|
                0 <= j2 < j && g.svs[j2].sv.constellation == c && sv_has_code(g.svs[j2], c2);
            assert(0 <= j2 < j + 1 && g.svs[j2].sv.constellation == c && sv_has_code(
                g.svs[j2],
                c2,
            ));
            assert(group_has_signal_upto(g, j + 1, c, c2));
        }
        if c == cons && sv_has_code_upto(sg, sg.obs.len() as int, c2) {
            assert(g.svs[j].sv.constellation == c && sv_has_code(g.svs[j], c2));
            assert(group_has_signal_upto(g, j + 1, c, c2));
        }
    }
}

/// A fully scanned row folds into the table's prefix.
proof fn lemma_pair_row_boundary(t: Seq<EpochGroup>, i: int, g: EpochGroup)
    requires
        0 <= i < t.len(),
        g == t[i],
    ensures
        forall|c: Constellation, c2: SignalCode| #![auto]
            (table_has_signal_upto(t, i, c, c2) || group_has_signal_upto(
                g,
                g.svs.len() as int,
                c,
                c2,
            )) <==> table_has_signal_upto(t, i + 1, c, c2),
{
    assert forall|c: Constellation, c2: SignalCode| #![auto]
        (table_has_signal_upto(t, i, c, c2) || group_has_signal_upto(
            g,
            g.svs.len() as int,
            c,
            c2,
        )) <==> table_has_signal_upto(t, i + 1, c, c2) by {
        if table_has_signal_upto(t, i + 1, c, c2) {
            let i2 = choose|i2: int| 0 <= i2 < i + 1 && group_has_signal(t[i2], c, c2);
            if i2 == i {
                assert(group_has_signal_upto(g, g.svs.len() as int, c, c2));
            } else {
                assert(table_has_signal_upto(t, i, c, c2));
            }
        }
        if table_has_signal_upto(t, i, c, c2) {
            let i2 = choose|i2: int| 0 <= i2 < i && group_has_signal(t[i2], c, c2);
            assert(0 <= i2 < i + 1 && group_has_signal(t[i2], c, c2));
            assert(table_has_signal_upto(t, i + 1, c, c2));
        }
        if group_has_signal_upto(g, g.svs.len() as int, c, c2) {
            assert(group_has_signal(t[i], c, c2));
            assert(table_has_signal_upto(t, i + 1, c, c2));
        }
    }
}


/// The order a constellation's signal codes are listed in: band first, then
/// attribute.
pub open spec fn code_lt(a: SignalCode, b: SignalCode) -> bool {
    a.band < b.band || (a.band == b.band && (a.attribute as u32) < (b.attribute as u32))
}

/// Whether the first `n` observed pairs hold (c, code).
pub open spec fn contains_pair_upto(
    s: Seq<(Constellation, SignalCode)>,
    n: int,
    c: Constellation,
    code: SignalCode,
) -> bool {
    exists|i: int| 0 <= i < n && #[trigger] s[i] == (c, code)
}

/// Inserting into a sequence adds exactly one member.
proof fn lemma_insert_contains(s: Seq<SignalCode>, j: int, x: SignalCode)
    requires
        0 <= j <= s.len(),
    ensures
        forall|y: SignalCode| #![auto] s.insert(j, x).contains(y) <==> (s.contains(y) || y == x),
{
    let t = s.insert(j, x);
    assert forall|y: SignalCode| #![auto] t.contains(y) <==> (s.contains(y) || y == x) by {
        if t.contains(y) {
            let w = choose|w: int| 0 <= w < t.len() && t[w] == y;
            if w < j {
                assert(s[w] == y);
            } else if w == j {
                assert(y == x);
            } else {
                assert(s[w - 1] == y);
            }
        }
        if s.contains(y) {
            let w = choose|w: int| 0 <= w < s.len() && s[w] == y;
            if w < j {
                assert(t[w] == y);
            } else {
                assert(t[w + 1] == y);
            }
        }
        if y == x {
            assert(t[j] == y);
        }
    }
}


/// The RTCM-to-observation decoder core: dispatches framed messages, holds
/// the ephemeris-derived week state, resolves MSM epochs, and accumulates
/// per-satellite observables with loss-of-lock inference.
pub struct RtcmDecoder {
    first_epoch: Option<Epoch>,
    last_epoch: Option<Epoch>,
    rtcm_data: RtcmData,
    lock_status: LockStatus,
    gps_week: Option<u64>,
    galileo_week: Option<u64>,
}

impl View for RtcmDecoder {
    type V = DecoderView;

    closed spec fn view(&self) -> DecoderView {
        DecoderView {
            use_rtklib_method: self.lock_status.mode(),
            gps_week: self.gps_week,
            galileo_week: self.galileo_week,
            first_epoch: self.first_epoch,
            last_epoch: self.last_epoch,
            table: self.rtcm_data@,
            lock: self.lock_status@,
        }
    }
}

/// The decoder's internal consistency: the table is ordered and unique, the
/// lock history has one entry per key, the epoch summary matches the table's
/// ends, stored values are shaped right (only phase carries a loss-of-lock
/// mask), and known weeks are small enough that epoch arithmetic cannot
/// overflow.
pub open spec fn decoder_wf(v: DecoderView) -> bool {
    &&& table_wf(v.table)
    &&& lock_wf(v.lock)
    &&& table_values_ok(v.table)
    &&& v.table.len() == 0 ==> v.first_epoch is None && v.last_epoch is None
    &&& v.table.len() > 0 ==> v.first_epoch == Some(v.table[0].epoch) && v.last_epoch == Some(
        v.table.last().epoch,
    )
    &&& match v.gps_week {
        Some(w) => w <= 0x20000,
        None => true,
    }
    &&& match v.galileo_week {
        Some(w) => w <= 0x20000,
        None => true,
    }
}

impl RtcmDecoder {
    /// The decoder's internal consistency.
    pub open spec fn wf(&self) -> bool {
        decoder_wf(self@)
    }

    /// A fresh decoder: empty table, empty lock history, no weeks known.
    /// `use_rtklib_method` selects the simplified lock-loss rule.
    pub fn new(use_rtklib_method: bool) -> (r: RtcmDecoder)
        ensures
            r.wf(),
            r@ == spec_decoder_init(use_rtklib_method),
    {
        let r = RtcmDecoder {
            first_epoch: None,
            last_epoch: None,
            rtcm_data: RtcmData::new(),
            lock_status: LockStatus::new(use_rtklib_method),
            gps_week: None,
            galileo_week: None,
        };
        proof {
            assert(r@.table =~= Seq::<EpochGroup>::empty());
            assert(r@.lock =~= Seq::<LockEntry>::empty());
            assert(r@ == spec_decoder_init(use_rtklib_method));
        }
        r
    }

    /// Empty the table and the epoch summary.  The lock history and the
    /// week state stay: this mirrors the batch converter, where `clear`
    /// separates output sections of one continuous stream.
    pub fn clear(&mut self)
        requires
            old(self).wf(),
        ensures
            final(self).wf(),
            final(self)@ == (DecoderView {
                first_epoch: None,
                last_epoch: None,
                table: Seq::empty(),
                ..old(self)@
            }),
    {
        self.first_epoch = None;
        self.last_epoch = None;
        self.rtcm_data = RtcmData::new();
        proof {
            assert(self@.table =~= Seq::<EpochGroup>::empty());
        }
    }

    /// The earliest epoch observed so far, if any.
    pub fn get_first_epoch(&self) -> (r: Option<Epoch>)
        ensures
            r == self@.first_epoch,
    {
        self.first_epoch
    }

    /// The latest epoch observed so far, if any.
    pub fn get_last_epoch(&self) -> (r: Option<Epoch>)
        ensures
            r == self@.last_epoch,
    {
        self.last_epoch
    }

    /// The accumulated observation table.
    pub fn get_rtcm_data(&self) -> (r: &RtcmData)
        ensures
            r@ == self@.table,
    {
        &self.rtcm_data
    }

    /// Process one normalized signal row at a resolved epoch: update the
    /// epoch summary, run the lock tracker, and store up to four
    /// observables.  A row on an unsupported (constellation, band) is
    /// rejected whole: the error comes back and nothing changes.
    #[verifier::rlimit(60)]
    #[verifier::spinoff_prover]
    fn process_signals(&mut self, sig: MsmData, msm_epoch: Epoch) -> (r: Result<(), RtcmError>)
        requires
            old(self).wf(),
            crate::types::msm_row_bounded(sig),
        ensures
            final(self).wf(),
            band_supported(sig.constellation, sig.band) ==> r is Ok && final(self)@
                == spec_process_signal(old(self)@, sig, msm_epoch),
            !band_supported(sig.constellation, sig.band) ==> r == Err::<(), RtcmError>(
                RtcmError::UnsupportedSignal { constellation: sig.constellation, band: sig.band },
            ) && final(self)@ == old(self)@,
    {
        let ghost v0 = self@;
        match get_frequency(sig.constellation, sig.band) {
            Err(e) => {
                return Err(e);
            },
            Ok(_) => {},
        }
        let sv = Sv { constellation: sig.constellation, prn: sig.satellite_id };
        let code = SignalCode { band: sig.band, attribute: sig.attribute };

        // epoch summary
        let update_first = match self.first_epoch {
            None => true,
            Some(fe) => fe.gpst_ms > msm_epoch.gpst_ms,
        };
        if update_first {
            self.first_epoch = Some(msm_epoch);
        }
        let update_last = match self.last_epoch {
            None => true,
            Some(le) => le.gpst_ms < msm_epoch.gpst_ms,
        };
        if update_last {
            self.last_epoch = Some(msm_epoch);
        }

        // lock tracker
        let lli_opt = self.lock_status.update_lock_status(
            &sv,
            &code,
            &msm_epoch,
            sig.loss_of_lock_indicator,
            sig.half_cycle_ambiguity,
        );
        let lli = match lli_opt {
            Some(x) => x,
            None => {
                proof {
                    assert(false);
                }
                0
            },
        };

        // the row's place in the table
        self.rtcm_data.touch(msm_epoch, EpochFlag::Okay, sv);
        let ghost t1 = self.rtcm_data@;
        proof {
            lemma_touch_ends(v0.table, msm_epoch, EpochFlag::Okay, sv);
            lemma_touch_values_ok(v0.table, msm_epoch, EpochFlag::Okay, sv);
        }

        let e_pseudo = Self::make_pseudo_entry(&sig);
        self.store_opt(msm_epoch, sv, e_pseudo);
        let e_phase = Self::make_phase_entry(&sig, lli);
        self.store_opt(msm_epoch, sv, e_phase);
        let e_doppler = Self::make_doppler_entry(&sig);
        self.store_opt(msm_epoch, sv, e_doppler);
        let e_ssi = Self::make_ssi_entry(&sig);
        self.store_opt(msm_epoch, sv, e_ssi);
        let ghost t5 = self.rtcm_data@;

        proof {
            assert(self@ == spec_process_signal(v0, sig, msm_epoch));
            assert(decoder_wf(self@)) by {
                assert(table_wf(t5) && table_values_ok(t5));
                assert(t5.len() == t1.len() && t5.len() > 0);
                assert(t5[0].epoch == t1[0].epoch);
                assert(t5.last().epoch == t1.last().epoch);
            }
        }
        Ok(())
    }

    /// Store one optional observation entry for this satellite at this
    /// epoch, keeping every table invariant and the row keys.
    fn store_opt(&mut self, msm_epoch: Epoch, sv: Sv, e: Option<ObsEntry>)
        requires
            table_wf(old(self)@.table),
            table_values_ok(old(self)@.table),
            table_has_row(old(self)@.table, msm_epoch, EpochFlag::Okay),
            svs_has(
                old(self)@.table[table_row_index(old(self)@.table, msm_epoch, EpochFlag::Okay)].svs,
                sv,
            ),
            match e {
                Some(en) => entry_ok(en),
                None => true,
            },
        ensures
            final(self)@.table == spec_apply_entry(old(self)@.table, msm_epoch, sv, e),
            final(self)@ == (DecoderView { table: final(self)@.table, ..old(self)@ }),
            table_wf(final(self)@.table),
            table_values_ok(final(self)@.table),
            table_has_row(final(self)@.table, msm_epoch, EpochFlag::Okay),
            svs_has(
                final(self)@.table[table_row_index(
                    final(self)@.table,
                    msm_epoch,
                    EpochFlag::Okay,
                )].svs,
                sv,
            ),
            final(self)@.table.len() == old(self)@.table.len(),
            old(self)@.table.len() > 0 ==> final(self)@.table[0].epoch == old(self)@.table[0].epoch
                && final(self)@.table.last().epoch == old(self)@.table.last().epoch,
    {
        match e {
            Some(entry) => {
                proof {
                    lemma_upsert_values_ok(self.rtcm_data@, msm_epoch, EpochFlag::Okay, sv, entry);
                    lemma_upsert_keys(self.rtcm_data@, msm_epoch, EpochFlag::Okay, sv, entry);
                }
                self.rtcm_data.upsert(msm_epoch, EpochFlag::Okay, sv, entry);
            },
            None => {},
        }
    }

    /// The pseudorange entry of a row, if its fields are present.
    fn make_pseudo_entry(sig: &MsmData) -> (r: Option<ObsEntry>)
        requires
            crate::types::msm_row_bounded(*sig),
        ensures
            r == spec_pseudo_entry(*sig),
            match r {
                Some(en) => entry_ok(en),
                None => true,
            },
    {
        match (sig.rough_range_int_ms, sig.fine_pseudo_range_q31) {
            (Some(ri), Some(fp)) => {
                let num: i64 = (ri as i64) * 0x80000000 + (sig.rough_range_mod1ms_q10 as i64)
                    * 0x200000 + fp;
                Some(
                    ObsEntry {
                        key: ObservableKey {
                            kind: ObsKind::PseudoRange,
                            code: SignalCode { band: sig.band, attribute: sig.attribute },
                        },
                        value: ObservationValue { num, lli: None, snr: None },
                    },
                )
            },
            _ => None,
        }
    }

    /// The carrier-phase entry of a row, if its fields are present.
    fn make_phase_entry(sig: &MsmData, lli: u8) -> (r: Option<ObsEntry>)
        requires
            crate::types::msm_row_bounded(*sig),
        ensures
            r == spec_phase_entry(*sig, lli),
            match r {
                Some(en) => entry_ok(en),
                None => true,
            },
    {
        match (sig.rough_range_int_ms, sig.fine_phase_range_q31) {
            (Some(ri), Some(fp)) => {
                let num: i64 = (ri as i64) * 0x80000000 + (sig.rough_range_mod1ms_q10 as i64)
                    * 0x200000 + fp;
                Some(
                    ObsEntry {
                        key: ObservableKey {
                            kind: ObsKind::Phase,
                            code: SignalCode { band: sig.band, attribute: sig.attribute },
                        },
                        value: ObservationValue { num, lli: Some(lli), snr: None },
                    },
                )
            },
            _ => None,
        }
    }

    /// The Doppler entry of a row, if its fields are present.
    fn make_doppler_entry(sig: &MsmData) -> (r: Option<ObsEntry>)
        ensures
            r == spec_doppler_entry(*sig),
            match r {
                Some(en) => entry_ok(en),
                None => true,
            },
    {
        match (sig.rough_phase_range_rate_m_s, sig.fine_phase_range_rate_e4) {
            (Some(rr), Some(fr)) => {
                let num: i64 = -((rr as i64) * 10000 + (fr as i64));
                Some(
                    ObsEntry {
                        key: ObservableKey {
                            kind: ObsKind::Doppler,
                            code: SignalCode { band: sig.band, attribute: sig.attribute },
                        },
                        value: ObservationValue { num, lli: None, snr: None },
                    },
                )
            },
            _ => None,
        }
    }

    /// The carrier-to-noise entry of a row, if its field is present.
    fn make_ssi_entry(sig: &MsmData) -> (r: Option<ObsEntry>)
        ensures
            r == spec_ssi_entry(*sig),
            match r {
                Some(en) => entry_ok(en),
                None => true,
            },
    {
        match sig.cnr_q4 {
            Some(c) => Some(
                ObsEntry {
                    key: ObservableKey {
                        kind: ObsKind::Ssi,
                        code: SignalCode { band: sig.band, attribute: sig.attribute },
                    },
                    value: ObservationValue { num: c as i64, lli: None, snr: None },
                },
            ),
            None => None,
        }
    }


    /// The satellite record for this id, as the message's transient join
    /// table would hold it: the last record with the id wins.
    fn find_sat46(sats: &Vec<MsmSat46>, id: u8) -> (r: Option<MsmSat46>)
        ensures
            r == spec_last_sat46(sats@, id),
    {
        let mut best: Option<MsmSat46> = None;
        let mut i: usize = 0;
        let n = sats.len();
        while i < n
            invariant
                0 <= i <= n,
                n == sats@.len(),
                best == spec_last_sat46(sats@.take(i as int), id),
            decreases n - i,
        {
            let s = sats[i];
            proof {
                assert(sats@.take(i as int + 1).drop_last() =~= sats@.take(i as int));
                assert(sats@.take(i as int + 1).last() == sats@[i as int]);
            }
            if s.satellite_id == id {
                best = Some(s);
            }
            i += 1;
        }
        proof {
            assert(sats@.take(n as int) =~= sats@);
        }
        best
    }

    /// The satellite record for this id in an MSM7 segment.
    fn find_sat57(sats: &Vec<MsmSat57>, id: u8) -> (r: Option<MsmSat57>)
        ensures
            r == spec_last_sat57(sats@, id),
    {
        let mut best: Option<MsmSat57> = None;
        let mut i: usize = 0;
        let n = sats.len();
        while i < n
            invariant
                0 <= i <= n,
                n == sats@.len(),
                best == spec_last_sat57(sats@.take(i as int), id),
            decreases n - i,
        {
            let s = sats[i];
            proof {
                assert(sats@.take(i as int + 1).drop_last() =~= sats@.take(i as int));
                assert(sats@.take(i as int + 1).last() == sats@[i as int]);
            }
            if s.satellite_id == id {
                best = Some(s);
            }
            i += 1;
        }
        proof {
            assert(sats@.take(n as int) =~= sats@);
        }
        best
    }

    /// Flatten one MSM4 signal row against its satellite record.
    fn normalize46(sat: &MsmSat46, sig: &MsmSig46, c: Constellation) -> (r: MsmData)
        ensures
            r == spec_normalize46(*sat, *sig, c),
            crate::types::msm_row_bounded(r),
    {
        MsmData {
            constellation: c,
            satellite_id: sig.satellite_id,
            band: sig.band,
            attribute: sig.attribute,
            rough_range_int_ms: sat.rough_range_int_ms,
            rough_range_mod1ms_q10: sat.rough_range_mod1ms_q10,
            rough_phase_range_rate_m_s: None,
            fine_pseudo_range_q31: match sig.fine_pseudo_range_q24 {
                Some(v) => Some((v as i64) * 128),
                None => None,
            },
            fine_phase_range_q31: match sig.fine_phase_range_q29 {
                Some(v) => Some((v as i64) * 4),
                None => None,
            },
            fine_phase_range_rate_e4: None,
            cnr_q4: match sig.cnr_dbhz {
                Some(v) => Some((v as u16) * 16),
                None => None,
            },
            loss_of_lock_indicator: sig.lock_time_ind as u16,
            half_cycle_ambiguity: sig.half_cycle_ambiguity,
        }
    }

    /// Flatten one MSM7 signal row against its satellite record.
    fn normalize57(sat: &MsmSat57, sig: &MsmSig57, c: Constellation) -> (r: MsmData)
        ensures
            r == spec_normalize57(*sat, *sig, c),
            crate::types::msm_row_bounded(r),
    {
        MsmData {
            constellation: c,
            satellite_id: sig.satellite_id,
            band: sig.band,
            attribute: sig.attribute,
            rough_range_int_ms: sat.rough_range_int_ms,
            rough_range_mod1ms_q10: sat.rough_range_mod1ms_q10,
            rough_phase_range_rate_m_s: sat.rough_phase_range_rate_m_s,
            fine_pseudo_range_q31: match sig.fine_pseudo_range_q29 {
                Some(v) => Some((v as i64) * 4),
                None => None,
            },
            fine_phase_range_q31: match sig.fine_phase_range_q31 {
                Some(v) => Some(v as i64),
                None => None,
            },
            fine_phase_range_rate_e4: sig.fine_phase_range_rate_e4,
            cnr_q4: sig.cnr_q4,
            loss_of_lock_indicator: sig.lock_time_ext_ind,
            half_cycle_ambiguity: sig.half_cycle_ambiguity,
        }
    }

    /// Process the rows of one MSM4-class message.  The message is checked
    /// whole first: if any row references a missing satellite or an unknown
    /// band, the first such error comes back and nothing changes.
    #[verifier::rlimit(60)]
    fn process_msm46(&mut self, msg: &Msm46Message, c: Constellation, msm_epoch: Epoch) -> (r:
        Result<(), RtcmError>)
        requires
            old(self).wf(),
        ensures
            final(self).wf(),
            match spec_first_error46_from(msg.satellites@, msg.signals@, c, 0) {
                None => r is Ok && final(self)@ == spec_run_sigs46_from(
                    old(self)@,
                    msg.satellites@,
                    msg.signals@,
                    c,
                    msm_epoch,
                    0,
                ),
                Some(e) => r == Err::<(), RtcmError>(e) && final(self)@ == old(self)@,
            },
    {
        let ghost v0 = self@;
        let ghost sats = msg.satellites@;
        let ghost sigs = msg.signals@;
        let n = msg.signals.len();
        let mut i: usize = 0;
        while i < n
            invariant
                0 <= i <= n,
                n == sigs.len(),
                sats == msg.satellites@,
                sigs == msg.signals@,
                self@ == v0,
                decoder_wf(v0),
                forall|j: int| 0 <= j < i ==> spec_row_error46(sats, #[trigger] sigs[j], c) is None,
                spec_first_error46_from(sats, sigs, c, 0) == spec_first_error46_from(
                    sats,
                    sigs,
                    c,
                    i as int,
                ),
            decreases n - i,
        {
            let sig = msg.signals[i];
            let sat_opt = Self::find_sat46(&msg.satellites, sig.satellite_id);
            let err: Option<RtcmError> = match sat_opt {
                None => Some(RtcmError::MissingSatellite { satellite_id: sig.satellite_id }),
                Some(_) => match get_frequency(c, sig.band) {
                    Err(e) => Some(e),
                    Ok(_) => None,
                },
            };
            proof {
                assert(err == spec_row_error46(sats, sigs[i as int], c));
            }
            match err {
                Some(e) => {
                    proof {
                        assert(spec_first_error46_from(sats, sigs, c, i as int) == Some(e));
                    }
                    return Err(e);
                },
                None => {},
            }
            i += 1;
        }
        proof {
            assert(spec_first_error46_from(sats, sigs, c, n as int) is None);
            assert(spec_first_error46_from(sats, sigs, c, 0) is None);
        }
        let mut i: usize = 0;
        while i < n
            invariant
                0 <= i <= n,
                n == sigs.len(),
                sats == msg.satellites@,
                sigs == msg.signals@,
                self.wf(),
                forall|j: int|
                    0 <= j < sigs.len() ==> spec_row_error46(sats, #[trigger] sigs[j], c) is None,
                spec_run_sigs46_from(v0, sats, sigs, c, msm_epoch, 0) == spec_run_sigs46_from(
                    self@,
                    sats,
                    sigs,
                    c,
                    msm_epoch,
                    i as int,
                ),
            decreases n - i,
        {
            let ghost prev = self@;
            let sig = msg.signals[i];
            let sat_opt = Self::find_sat46(&msg.satellites, sig.satellite_id);
            let sat = match sat_opt {
                Some(st) => st,
                None => {
                    proof {
                        assert(spec_row_error46(sats, sigs[i as int], c) is None);
                        assert(false);
                    }
                    MsmSat46 { satellite_id: 0, rough_range_int_ms: None, rough_range_mod1ms_q10: 0 }
                },
            };
            let row = Self::normalize46(&sat, &sig, c);
            proof {
                assert(spec_row_error46(sats, sigs[i as int], c) is None);
                assert(band_supported(c, sig.band));
                assert(band_supported(row.constellation, row.band));
            }
            let res = self.process_signals(row, msm_epoch);
            proof {
                assert(res is Ok);
                assert(self@ == spec_process_signal(prev, row, msm_epoch));
                assert(spec_run_sigs46_from(prev, sats, sigs, c, msm_epoch, i as int)
                    == spec_run_sigs46_from(self@, sats, sigs, c, msm_epoch, i as int + 1));
            }
            i += 1;
        }
        Ok(())
    }

    /// Process the rows of one MSM7-class message, checked whole first.
    #[verifier::rlimit(60)]
    fn process_msm57(&mut self, msg: &Msm57Message, c: Constellation, msm_epoch: Epoch) -> (r:
        Result<(), RtcmError>)
        requires
            old(self).wf(),
        ensures
            final(self).wf(),
            match spec_first_error57_from(msg.satellites@, msg.signals@, c, 0) {
                None => r is Ok && final(self)@ == spec_run_sigs57_from(
                    old(self)@,
                    msg.satellites@,
                    msg.signals@,
                    c,
                    msm_epoch,
                    0,
                ),
                Some(e) => r == Err::<(), RtcmError>(e) && final(self)@ == old(self)@,
            },
    {
        let ghost v0 = self@;
        let ghost sats = msg.satellites@;
        let ghost sigs = msg.signals@;
        let n = msg.signals.len();
        let mut i: usize = 0;
        while i < n
            invariant
                0 <= i <= n,
                n == sigs.len(),
                sats == msg.satellites@,
                sigs == msg.signals@,
                self@ == v0,
                decoder_wf(v0),
                forall|j: int| 0 <= j < i ==> spec_row_error57(sats, #[trigger] sigs[j], c) is None,
                spec_first_error57_from(sats, sigs, c, 0) == spec_first_error57_from(
                    sats,
                    sigs,
                    c,
                    i as int,
                ),
            decreases n - i,
        {
            let sig = msg.signals[i];
            let sat_opt = Self::find_sat57(&msg.satellites, sig.satellite_id);
            let err: Option<RtcmError> = match sat_opt {
                None => Some(RtcmError::MissingSatellite { satellite_id: sig.satellite_id }),
                Some(_) => match get_frequency(c, sig.band) {
                    Err(e) => Some(e),
                    Ok(_) => None,
                },
            };
            proof {
                assert(err == spec_row_error57(sats, sigs[i as int], c));
            }
            match err {
                Some(e) => {
                    proof {
                        assert(spec_first_error57_from(sats, sigs, c, i as int) == Some(e));
                    }
                    return Err(e);
                },
                None => {},
            }
            i += 1;
        }
        proof {
            assert(spec_first_error57_from(sats, sigs, c, n as int) is None);
            assert(spec_first_error57_from(sats, sigs, c, 0) is None);
        }
        let mut i: usize = 0;
        while i < n
            invariant
                0 <= i <= n,
                n == sigs.len(),
                sats == msg.satellites@,
                sigs == msg.signals@,
                self.wf(),
                forall|j: int|
                    0 <= j < sigs.len() ==> spec_row_error57(sats, #[trigger] sigs[j], c) is None,
                spec_run_sigs57_from(v0, sats, sigs, c, msm_epoch, 0) == spec_run_sigs57_from(
                    self@,
                    sats,
                    sigs,
                    c,
                    msm_epoch,
                    i as int,
                ),
            decreases n - i,
        {
            let ghost prev = self@;
            let sig = msg.signals[i];
            let sat_opt = Self::find_sat57(&msg.satellites, sig.satellite_id);
            let sat = match sat_opt {
                Some(st) => st,
                None => {
                    proof {
                        assert(spec_row_error57(sats, sigs[i as int], c) is None);
                        assert(false);
                    }
                    MsmSat57 {
                        satellite_id: 0,
                        rough_range_int_ms: None,
                        rough_range_mod1ms_q10: 0,
                        rough_phase_range_rate_m_s: None,
                    }
                },
            };
            let row = Self::normalize57(&sat, &sig, c);
            proof {
                assert(spec_row_error57(sats, sigs[i as int], c) is None);
                assert(band_supported(c, sig.band));
                assert(band_supported(row.constellation, row.band));
            }
            let res = self.process_signals(row, msm_epoch);
            proof {
                assert(res is Ok);
                assert(self@ == spec_process_signal(prev, row, msm_epoch));
                assert(spec_run_sigs57_from(prev, sats, sigs, c, msm_epoch, i as int)
                    == spec_run_sigs57_from(self@, sats, sigs, c, msm_epoch, i as int + 1));
            }
            i += 1;
        }
        Ok(())
    }

    /// Process one GPS MSM4 message (number 1074) at a resolved epoch.
    pub fn process_msm1074(&mut self, msg: &Msm46Message, msm_epoch: Epoch) -> (r: Result<
        (),
        RtcmError,
    >)
        requires
            old(self).wf(),
        ensures
            final(self).wf(),
            match spec_first_error46_from(msg.satellites@, msg.signals@, Constellation::Gps, 0) {
                None => r is Ok && final(self)@ == spec_run_sigs46_from(
                    old(self)@,
                    msg.satellites@,
                    msg.signals@,
                    Constellation::Gps,
                    msm_epoch,
                    0,
                ),
                Some(e) => r == Err::<(), RtcmError>(e) && final(self)@ == old(self)@,
            },
    {
        self.process_msm46(msg, Constellation::Gps, msm_epoch)
    }

    /// Process one GPS MSM7 message (number 1077) at a resolved epoch.
    pub fn process_msm1077(&mut self, msg: &Msm57Message, msm_epoch: Epoch) -> (r: Result<
        (),
        RtcmError,
    >)
        requires
            old(self).wf(),
        ensures
            final(self).wf(),
            match spec_first_error57_from(msg.satellites@, msg.signals@, Constellation::Gps, 0) {
                None => r is Ok && final(self)@ == spec_run_sigs57_from(
                    old(self)@,
                    msg.satellites@,
                    msg.signals@,
                    Constellation::Gps,
                    msm_epoch,
                    0,
                ),
                Some(e) => r == Err::<(), RtcmError>(e) && final(self)@ == old(self)@,
            },
    {
        self.process_msm57(msg, Constellation::Gps, msm_epoch)
    }

    /// Process one Galileo MSM4 message (number 1094) at a resolved epoch.
    pub fn process_msm1094(&mut self, msg: &Msm46Message, msm_epoch: Epoch) -> (r: Result<
        (),
        RtcmError,
    >)
        requires
            old(self).wf(),
        ensures
            final(self).wf(),
            match spec_first_error46_from(
                msg.satellites@,
                msg.signals@,
                Constellation::Galileo,
                0,
            ) {
                None => r is Ok && final(self)@ == spec_run_sigs46_from(
                    old(self)@,
                    msg.satellites@,
                    msg.signals@,
                    Constellation::Galileo,
                    msm_epoch,
                    0,
                ),
                Some(e) => r == Err::<(), RtcmError>(e) && final(self)@ == old(self)@,
            },
    {
        self.process_msm46(msg, Constellation::Galileo, msm_epoch)
    }

    /// Process one Galileo MSM7 message (number 1097) at a resolved epoch.
    pub fn process_msm1097(&mut self, msg: &Msm57Message, msm_epoch: Epoch) -> (r: Result<
        (),
        RtcmError,
    >)
        requires
            old(self).wf(),
        ensures
            final(self).wf(),
            match spec_first_error57_from(
                msg.satellites@,
                msg.signals@,
                Constellation::Galileo,
                0,
            ) {
                None => r is Ok && final(self)@ == spec_run_sigs57_from(
                    old(self)@,
                    msg.satellites@,
                    msg.signals@,
                    Constellation::Galileo,
                    msm_epoch,
                    0,
                ),
                Some(e) => r == Err::<(), RtcmError>(e) && final(self)@ == old(self)@,
            },
    {
        self.process_msm57(msg, Constellation::Galileo, msm_epoch)
    }

    /// Dispatch one framed message: ephemerides set the week state, MSM
    /// messages are processed once their constellation's week is known and
    /// are dropped (not buffered) before that, anything else is ignored.
    #[verifier::rlimit(60)]
    pub fn process_message(&mut self, msg: &RtcmMessage) -> (r: Result<(), RtcmError>)
        requires
            old(self).wf(),
        ensures
            final(self).wf(),
            final(self)@ == spec_step(old(self)@, *msg),
            r is Ok <==> spec_step_error(old(self)@, *msg) is None,
            r is Err ==> Some(r->Err_0) == spec_step_error(old(self)@, *msg),
    {
        match msg {
            RtcmMessage::GpsEphemeris { week_number } => {
                self.gps_week = Some(*week_number as u64 + GPS_WEEK_ROLLOVER as u64);
                Ok(())
            },
            RtcmMessage::GalileoEphemeris { week_number } => {
                self.galileo_week = Some(*week_number as u64);
                Ok(())
            },
            RtcmMessage::GpsMsm4(m) => match self.gps_week {
                None => Ok(()),
                Some(w) => {
                    let epoch = rtcm_gps_time2epoch(m.epoch_time_ms as u64, w);
                    self.process_msm1074(m, epoch)
                },
            },
            RtcmMessage::GpsMsm7(m) => match self.gps_week {
                None => Ok(()),
                Some(w) => {
                    let epoch = rtcm_gps_time2epoch(m.epoch_time_ms as u64, w);
                    self.process_msm1077(m, epoch)
                },
            },
            RtcmMessage::GalileoMsm4(m) => match self.galileo_week {
                None => Ok(()),
                Some(w) => {
                    let epoch = rtcm_galileo_time2epoch(m.epoch_time_ms as u64, w);
                    self.process_msm1094(m, epoch)
                },
            },
            RtcmMessage::GalileoMsm7(m) => match self.galileo_week {
                None => Ok(()),
                Some(w) => {
                    let epoch = rtcm_galileo_time2epoch(m.epoch_time_ms as u64, w);
                    self.process_msm1097(m, epoch)
                },
            },
            RtcmMessage::Other => Ok(()),
        }
    }


    /// Whether this pair was already collected.
    fn contains_pair(v: &Vec<(Constellation, SignalCode)>, c: Constellation, code: SignalCode) -> (r:
        bool)
        ensures
            r == v@.contains((c, code)),
    {
        let mut i: usize = 0;
        let n = v.len();
        while i < n
            invariant
                0 <= i <= n,
                n == v@.len(),
                forall|j: int| 0 <= j < i ==> #[trigger] v@[j] != (c, code),
            decreases n - i,
        {
            let (vc, vcode) = v[i];
            if vc == c && vcode == code {
                proof {
                    assert(v@[i as int] == (c, code));
                }
                return true;
            }
            i += 1;
        }
        proof {
            assert(!v@.contains((c, code)));
        }
        false
    }

    /// The set of (constellation, signal code) pairs observed anywhere in
    /// the table, each exactly once: what a record header needs to list.
    #[verifier::rlimit(60)]
    #[verifier::spinoff_prover]
    pub fn extract_observed_signals(&self) -> (r: Vec<(Constellation, SignalCode)>)
        ensures
            no_dup_pairs(r@),
            forall|c: Constellation, code: SignalCode| #![auto]
                r@.contains((c, code)) <==> table_has_signal(self@.table, c, code),
    {
        let ghost t = self@.table;
        let mut out: Vec<(Constellation, SignalCode)> = Vec::new();
        let n = self.rtcm_data.entries.len();
        let mut i: usize = 0;
        while i < n
            invariant
                0 <= i <= n,
                n == t.len(),
                t == self.rtcm_data@,
                no_dup_pairs(out@),
                forall|c: Constellation, code: SignalCode| #![auto]
                    out@.contains((c, code)) <==> table_has_signal_upto(t, i as int, c, code),
            decreases n - i,
        {
            let ghost g = t[i as int];
            proof {
                assert(g == crate::table::epoch_entry_view(self.rtcm_data.entries@[i as int]));
            }
            let m = self.rtcm_data.entries[i].svs.len();
            let mut j: usize = 0;
            while j < m
                invariant
                    0 <= i < n,
                    0 <= j <= m,
                    n == t.len(),
                    t == self.rtcm_data@,
                    g == t[i as int],
                    g == crate::table::epoch_entry_view(self.rtcm_data.entries@[i as int]),
                    m == g.svs.len(),
                    no_dup_pairs(out@),
                    forall|c: Constellation, code: SignalCode| #![auto]
                        out@.contains((c, code)) <==> (table_has_signal_upto(t, i as int, c, code)
                            || group_has_signal_upto(g, j as int, c, code)),
                decreases m - j,
            {
                let ghost sg = g.svs[j as int];
                proof {
                    assert(sg == crate::table::sv_entry_view(
                        self.rtcm_data.entries@[i as int].svs@[j as int],
                    ));
                }
                let cons = self.rtcm_data.entries[i].svs[j].sv.constellation;
                let w = self.rtcm_data.entries[i].svs[j].obs.len();
                proof {
                    assert forall|c: Constellation, code: SignalCode| #![auto]
                        out@.contains((c, code)) <==> pair_seen(
                        t,
                        i as int,
                        g,
                        j as int,
                        sg,
                        cons,
                        0,
                        c,
                        code,
                    ) by {
                        assert(!sv_has_code_upto(sg, 0, code));
                    }
                }
                let mut k: usize = 0;
                while k < w
                    invariant
                        0 <= i < n,
                        0 <= j < m,
                        0 <= k <= w,
                        n == t.len(),
                        t == self.rtcm_data@,
                        g == t[i as int],
                        g == crate::table::epoch_entry_view(self.rtcm_data.entries@[i as int]),
                        m == g.svs.len(),
                        sg == g.svs[j as int],
                        sg == crate::table::sv_entry_view(
                            self.rtcm_data.entries@[i as int].svs@[j as int],
                        ),
                        w == sg.obs.len(),
                        cons == sg.sv.constellation,
                        no_dup_pairs(out@),
                        forall|c: Constellation, code: SignalCode| #![auto]
                            out@.contains((c, code)) <==> pair_seen(
                                t,
                                i as int,
                                g,
                                j as int,
                                sg,
                                cons,
                                k as int,
                                c,
                                code,
                            ),
                    decreases w - k,
                {
                    let code = self.rtcm_data.entries[i].svs[j].obs[k].key.code;
                    proof {
                        assert(sg.obs[k as int].key.code == code);
                    }
                    let ghost out0 = out@;
                    if !Self::contains_pair(&out, cons, code) {
                        out.push((cons, code));
                        proof {
                            assert forall|p: int, q: int|
                                0 <= p < q < out@.len() implies out@[p] != out@[q] by {
                                if q == out0.len() {
                                    assert(out@[p] == out0[p]);
                                    assert(!out0.contains((cons, code)));
                                } else {
                                    assert(out@[p] == out0[p] && out@[q] == out0[q]);
                                }
                            }
                        }
                    }
                    proof {
                        lemma_pair_step(
                            out0,
                            out@,
                            t,
                            i as int,
                            g,
                            j as int,
                            sg,
                            cons,
                            k as int,
                            code,
                        );
                    }
                    k += 1;
                }
                proof {
                    lemma_pair_sv_boundary(t, i as int, g, j as int, sg, cons);
                    assert forall|c: Constellation, code: SignalCode| #![auto]
                        out@.contains((c, code)) <==> (table_has_signal_upto(t, i as int, c, code)
                            || group_has_signal_upto(g, j as int + 1, c, code)) by {
                        assert(out@.contains((c, code)) <==> pair_seen(
                            t,
                            i as int,
                            g,
                            j as int,
                            sg,
                            cons,
                            w as int,
                            c,
                            code,
                        ));
                        assert(pair_seen(t, i as int, g, j as int, sg, cons, sg.obs.len() as int, c, code)
                            <==> (table_has_signal_upto(t, i as int, c, code)
                            || group_has_signal_upto(g, j as int + 1, c, code)));
                    }
                }
                j += 1;
            }
            proof {
                lemma_pair_row_boundary(t, i as int, g);
                assert forall|c: Constellation, code: SignalCode| #![auto]
                    out@.contains((c, code)) <==> table_has_signal_upto(t, i as int + 1, c, code) by {
                    assert(out@.contains((c, code)) <==> (table_has_signal_upto(t, i as int, c, code)
                        || group_has_signal_upto(g, m as int, c, code)));
                    assert((table_has_signal_upto(t, i as int, c, code) || group_has_signal_upto(
                        g,
                        g.svs.len() as int,
                        c,
                        code,
                    )) <==> table_has_signal_upto(t, i as int + 1, c, code));
                }
            }
            i += 1;
        }
        out
    }

    /// Whether code `a` lists strictly before code `b`.
    fn code_lt_exec(a: SignalCode, b: SignalCode) -> (r: bool)
        ensures
            r == code_lt(a, b),
    {
        a.band < b.band || (a.band == b.band && (a.attribute as u32) < (b.attribute as u32))
    }

    /// The two-character codes one constellation was observed under, each
    /// once, in ascending (band, attribute) order: the order in which a
    /// record header lists that constellation's observables.
    #[verifier::rlimit(60)]
    #[verifier::spinoff_prover]
    pub fn sorted_codes_for(signals: &Vec<(Constellation, SignalCode)>, c: Constellation) -> (r:
        Vec<SignalCode>)
        ensures
            forall|p: int, q: int| 0 <= p < q < r@.len() ==> code_lt(#[trigger] r@[p], #[trigger] r@[q]),
            forall|code: SignalCode| #![auto]
                r@.contains(code) <==> signals@.contains((c, code)),
    {
        let ghost s = signals@;
        let mut out: Vec<SignalCode> = Vec::new();
        let n = signals.len();
        let mut i: usize = 0;
        while i < n
            invariant
                0 <= i <= n,
                n == s.len(),
                signals@ == s,
                forall|p: int, q: int|
                    0 <= p < q < out@.len() ==> code_lt(#[trigger] out@[p], #[trigger] out@[q]),
                forall|code: SignalCode| #![auto]
                    out@.contains(code) <==> contains_pair_upto(s, i as int, c, code),
            decreases n - i,
        {
            let (pc, pcode) = signals[i];
            proof {
                assert(s[i as int] == (pc, pcode));
            }
            let ghost out0 = out@;
            if pc == c {
                let m = out.len();
                let mut j: usize = 0;
                while j < m
                    invariant_except_break
                        0 <= j <= m,
                        m == out0.len(),
                        out@ == out0,
                        forall|p: int, q: int|
                            0 <= p < q < out0.len() ==> code_lt(
                                #[trigger] out0[p],
                                #[trigger] out0[q],
                            ),
                        forall|p: int| 0 <= p < j ==> code_lt(#[trigger] out0[p], pcode),
                    ensures
                        0 <= j <= m,
                        out@ == out0,
                        forall|p: int| 0 <= p < j ==> code_lt(#[trigger] out0[p], pcode),
                        j < m ==> !code_lt(out0[j as int], pcode),
                    decreases m - j,
                {
                    let lt = Self::code_lt_exec(out[j], pcode);
                    if !lt {
                        break;
                    }
                    j += 1;
                }
                let already = j < m && out[j] == pcode;
                if already {
                    proof {
                        assert(out0[j as int] == pcode);
                        assert(out0.contains(pcode));
                    }
                } else {
                    proof {
                        // pcode is new: everything before j is smaller, and
                        // from j on everything is larger
                        assert forall|p: int| 0 <= p < out0.len() implies out0[p] != pcode by {
                            if p < j {
                                assert(code_lt(out0[p], pcode));
                            } else if p == j {
                            } else {
                                assert(code_lt(out0[j as int], out0[p]));
                                assert(!code_lt(out0[j as int], pcode));
                            }
                        }
                        assert(!out0.contains(pcode)) by {
                            if out0.contains(pcode) {
                                let w = choose|w: int| 0 <= w < out0.len() && out0[w] == pcode;
                            }
                        }
                    }
                    out.insert(j, pcode);
                    proof {
                        lemma_insert_contains(out0, j as int, pcode);
                        assert forall|p: int, q: int|
                            0 <= p < q < out@.len() implies code_lt(
                            #[trigger] out@[p],
                            #[trigger] out@[q],
                        ) by {
                            if p < j && q < j {
                                assert(out@[p] == out0[p] && out@[q] == out0[q]);
                            } else if p < j && q == j {
                                assert(out@[p] == out0[p]);
                                assert(code_lt(out0[p], pcode));
                            } else if p < j && q > j {
                                assert(out@[p] == out0[p] && out@[q] == out0[q - 1]);
                            } else if p == j {
                                assert(out@[q] == out0[q - 1]);
                                assert(q - 1 >= j);
                                assert(!code_lt(out0[j as int], pcode));
                                assert(out0[q - 1] != pcode);
                                if q - 1 > j {
                                    assert(code_lt(out0[j as int], out0[q - 1]));
                                }
                            } else {
                                assert(out@[p] == out0[p - 1] && out@[q] == out0[q - 1]);
                            }
                        }
                    }
                }
            }
            proof {
                assert forall|code: SignalCode| #![auto]
                    out@.contains(code) <==> contains_pair_upto(s, i as int + 1, c, code) by {
                    assert(out0.contains(code) <==> contains_pair_upto(s, i as int, c, code));
                    if contains_pair_upto(s, i as int + 1, c, code) {
                        let w = choose|w: int| 0 <= w < i as int + 1 && s[w] == (c, code);
                        if w == i as int {
                            assert(pc == c && pcode == code);
                        } else {
                            assert(contains_pair_upto(s, i as int, c, code));
                        }
                    }
                    if contains_pair_upto(s, i as int, c, code) {
                        let w = choose|w: int| 0 <= w < i as int && s[w] == (c, code);
                        assert(0 <= w < i as int + 1 && s[w] == (c, code));
                        assert(contains_pair_upto(s, i as int + 1, c, code));
                    }
                    if pc == c && code == pcode {
                        assert(s[i as int] == (c, code));
                        assert(contains_pair_upto(s, i as int + 1, c, code));
                        assert(out@.contains(code));
                    }
                }
            }
            i += 1;
        }
        out
    }
}

} // verus!
