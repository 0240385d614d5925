use vstd::prelude::*;

use crate::decoder::{
    decoder_wf, spec_decoder_init, spec_doppler_entry, spec_phase_entry, spec_pseudo_entry,
    spec_step, DecoderView,
};
use crate::table::{lemma_flag_rank_bounds, row_rank, table_values_ok};
use crate::types::{epoch_rank, msm_row_bounded, MsmData, RtcmMessage};

verus! {

/// The state a decoder reaches after a whole message sequence, message by
/// message.  Every mutating method of `RtcmDecoder` promises that its final
/// state is `spec_step` of its old state, so a run of the executable
/// decoder is pinned to this function.
pub open spec fn spec_run(v: DecoderView, msgs: Seq<RtcmMessage>) -> DecoderView
    decreases msgs.len(),
{
    if msgs.len() == 0 {
        v
    } else {
        spec_run(spec_step(v, msgs[0]), msgs.drop_first())
    }
}

/// The table's iteration order is monotone non-decreasing in
/// (epoch, flag): later rows never sort before earlier ones.
pub proof fn lemma_iteration_order_monotone(v: DecoderView)
    requires
        decoder_wf(v),
    ensures
        forall|i: int, j: int|
            0 <= i <= j < v.table.len() ==> epoch_rank(
                (#[trigger] v.table[i]).epoch,
                v.table[i].flag,
            ) <= epoch_rank((#[trigger] v.table[j]).epoch, v.table[j].flag),
{
    assert forall|i: int, j: int| 0 <= i <= j < v.table.len() implies epoch_rank(
        (#[trigger] v.table[i]).epoch,
        v.table[i].flag,
    ) <= epoch_rank((#[trigger] v.table[j]).epoch, v.table[j].flag) by {
        if i < j {
            assert(row_rank(v.table[i]) < row_rank(v.table[j]));
        }
    }
}

/// Every stored carrier-phase observation carries a loss-of-lock mask, no
/// other observable does, and the signal-to-noise slot is always empty.
pub proof fn lemma_phase_lli_only(v: DecoderView, i: int, j: int, k: int)
    requires
        decoder_wf(v),
        0 <= i < v.table.len(),
        0 <= j < v.table[i].svs.len(),
        0 <= k < v.table[i].svs[j].obs.len(),
    ensures
        v.table[i].svs[j].obs[k].key.kind is Phase <==> v.table[i].svs[j].obs[k].value.lli
            is Some,
        v.table[i].svs[j].obs[k].value.snr is None,
{
    assert(table_values_ok(v.table));
    assert(crate::table::entry_ok(v.table[i].svs[j].obs[k]));
}

/// The epoch summary equals the table's ends: `first_epoch` is the minimum
/// stored epoch, `last_epoch` the maximum, and both are absent exactly when
/// the table is empty.
pub proof fn lemma_epoch_summary(v: DecoderView)
    requires
        decoder_wf(v),
    ensures
        v.first_epoch is None <==> v.table.len() == 0,
        v.last_epoch is None <==> v.table.len() == 0,
        v.table.len() > 0 ==> v.first_epoch == Some(v.table[0].epoch) && v.last_epoch == Some(
            v.table.last().epoch,
        ),
        forall|i: int|
            0 <= i < v.table.len() ==> v.first_epoch->Some_0.gpst_ms <= (#[trigger] v.table[i]).epoch.gpst_ms
                && v.table[i].epoch.gpst_ms <= v.last_epoch->Some_0.gpst_ms,
{
    assert forall|i: int| 0 <= i < v.table.len() implies v.first_epoch->Some_0.gpst_ms <= (
    #[trigger] v.table[i]).epoch.gpst_ms && v.table[i].epoch.gpst_ms
        <= v.last_epoch->Some_0.gpst_ms by {
        lemma_flag_rank_bounds(v.table[0].flag);
        lemma_flag_rank_bounds(v.table[i].flag);
        lemma_flag_rank_bounds(v.table[v.table.len() - 1].flag);
        if 0 < i {
            assert(row_rank(v.table[0]) < row_rank(v.table[i]));
        }
        if i < v.table.len() - 1 {
            assert(row_rank(v.table[i]) < row_rank(v.table[v.table.len() - 1]));
        }
    }
}

/// The stored pseudorange numerator is exactly the rough integer
/// milliseconds, the rough modulo and the fine pseudorange, summed in
/// 2^-31 light-milliseconds; the value in metres is this numerator times
/// the constant c / 1000 / 2^31.
pub proof fn lemma_pseudo_range_sum(sig: MsmData, ri: u8, fp: i64)
    requires
        msm_row_bounded(sig),
        sig.rough_range_int_ms == Some(ri),
        sig.fine_pseudo_range_q31 == Some(fp),
    ensures
        spec_pseudo_entry(sig) is Some,
        spec_pseudo_entry(sig)->Some_0.value.num == ri * 0x80000000
            + sig.rough_range_mod1ms_q10 * 0x200000 + fp,
{
}

/// The carrier-phase numerator is the same rough range sum with the fine
/// phase range in place of the fine pseudorange: phase is the
/// pre-wavelength sum, and turning it into cycles is one multiplication by
/// f / c that the caller performs in floating point.
pub proof fn lemma_phase_shares_range_sum(sig: MsmData, lli: u8, ri: u8, fp: i64, fl: i64)
    requires
        msm_row_bounded(sig),
        sig.rough_range_int_ms == Some(ri),
        sig.fine_pseudo_range_q31 == Some(fp),
        sig.fine_phase_range_q31 == Some(fl),
    ensures
        spec_phase_entry(sig, lli) is Some,
        spec_phase_entry(sig, lli)->Some_0.value.num == ri * 0x80000000
            + sig.rough_range_mod1ms_q10 * 0x200000 + fl,
        spec_phase_entry(sig, lli)->Some_0.value.num - spec_pseudo_entry(sig)->Some_0.value.num
            == fl - fp,
{
}

/// The Doppler numerator is the negated sum of the rough rate (whole m/s)
/// and the fine rate, in units of 0.0001 m/s; the value in hertz is this
/// numerator times 0.0001 · f / c.
pub proof fn lemma_doppler_sum(sig: MsmData, rr: i16, fr: i16)
    requires
        sig.rough_phase_range_rate_m_s == Some(rr),
        sig.fine_phase_range_rate_e4 == Some(fr),
    ensures
        spec_doppler_entry(sig) is Some,
        spec_doppler_entry(sig)->Some_0.value.num == -(rr * 10000 + fr),
{
}

/// Replaying a message stream is deterministic: two fresh decoders in the
/// same mode, fed equal sequences, end in equal states — table, signal
/// sets, summary and lock history alike.  This rests on every mutating
/// method's contract pinning its final state to `spec_step`.
pub proof fn lemma_round_trip(msgs1: Seq<RtcmMessage>, msgs2: Seq<RtcmMessage>, mode: bool)
    requires
        msgs1 == msgs2,
    ensures
        spec_run(spec_decoder_init(mode), msgs1) == spec_run(spec_decoder_init(mode), msgs2),
{
}

} // verus!
