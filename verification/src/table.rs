use vstd::prelude::*;

use crate::time::Epoch;
use crate::types::{EpochFlag, ObsEntry, ObservableKey, Sv, epoch_rank, flag_rank, sv_rank};

verus! {

/// All observations of one satellite at one epoch.
#[derive(Clone, PartialEq, Debug)]
pub struct SvEntry {
    pub sv: Sv,
    pub obs: Vec<ObsEntry>,
}

/// One row of the table: an epoch with its flag, the receiver clock offset
/// in whole seconds (always zero here, kept because the record format has
/// the slot), and the per-satellite observations.
#[derive(Clone, PartialEq, Debug)]
pub struct EpochEntry {
    pub epoch: Epoch,
    pub flag: EpochFlag,
    pub clock_offset_s: Option<i64>,
    pub svs: Vec<SvEntry>,
}

/// The epoch-indexed observation table: rows strictly ordered by
/// (epoch, flag), satellites within a row strictly ordered by
/// (constellation, PRN), observables within a satellite unique by key.
#[derive(Clone, PartialEq, Debug)]
pub struct RtcmData {
    pub entries: Vec<EpochEntry>,
}

/// Mathematical shadow of `SvEntry`.
pub ghost struct SvGroup {
    pub sv: Sv,
    pub obs: Seq<ObsEntry>,
}

/// Mathematical shadow of `EpochEntry`.
pub ghost struct EpochGroup {
    pub epoch: Epoch,
    pub flag: EpochFlag,
    pub clock_offset_s: Option<i64>,
    pub svs: Seq<SvGroup>,
}

/// The shadow of one satellite entry.
pub open spec fn sv_entry_view(e: SvEntry) -> SvGroup {
    SvGroup { sv: e.sv, obs: e.obs@ }
}

/// The shadow of one table row.
pub open spec fn epoch_entry_view(e: EpochEntry) -> EpochGroup {
    EpochGroup {
        epoch: e.epoch,
        flag: e.flag,
        clock_offset_s: e.clock_offset_s,
        svs: e.svs@.map_values(|s: SvEntry| sv_entry_view(s)),
    }
}

impl View for RtcmData {
    type V = Seq<EpochGroup>;

    open spec fn view(&self) -> Seq<EpochGroup> {
        self.entries@.map_values(|e: EpochEntry| epoch_entry_view(e))
    }
}

/// The rank a row sorts by.
pub open spec fn row_rank(g: EpochGroup) -> int {
    epoch_rank(g.epoch, g.flag)
}

/// Observable keys within one satellite are unique.
pub open spec fn obs_wf(obs: Seq<ObsEntry>) -> bool {
    forall|i: int, j: int| 0 <= i < j < obs.len() ==> #[trigger] obs[i].key != #[trigger] obs[j].key
}

/// Satellites within one row are strictly ordered, and each is well formed.
pub open spec fn svs_wf(svs: Seq<SvGroup>) -> bool {
    &&& forall|i: int, j: int|
        0 <= i < j < svs.len() ==> sv_rank(#[trigger] svs[i].sv) < sv_rank(#[trigger] svs[j].sv)
    &&& forall|i: int| 0 <= i < svs.len() ==> obs_wf(#[trigger] svs[i].obs)
}

/// Rows are strictly ordered by (epoch, flag), and each is well formed.
pub open spec fn table_wf(t: Seq<EpochGroup>) -> bool {
    &&& forall|i: int, j: int|
        0 <= i < j < t.len() ==> row_rank(#[trigger] t[i]) < row_rank(#[trigger] t[j])
    &&& forall|i: int| 0 <= i < t.len() ==> svs_wf(#[trigger] t[i].svs)
}

/// Whether the table holds a row for this (epoch, flag).
pub open spec fn table_has_row(t: Seq<EpochGroup>, e: Epoch, f: EpochFlag) -> bool {
    exists|i: int| 0 <= i < t.len() && t[i].epoch == e && #[trigger] t[i].flag == f
}

/// The index of that row (meaningful under `table_wf`).
pub open spec fn table_row_index(t: Seq<EpochGroup>, e: Epoch, f: EpochFlag) -> int {
    choose|i: int| 0 <= i < t.len() && t[i].epoch == e && #[trigger] t[i].flag == f
}

/// `i` is the place a row of rank `r` belongs: everything before is smaller,
/// and what stands at `i` (if anything) is not.
pub open spec fn is_row_insert_pos(t: Seq<EpochGroup>, r: int, i: int) -> bool {
    &&& 0 <= i <= t.len()
    &&& forall|j: int| 0 <= j < i ==> row_rank(#[trigger] t[j]) < r
    &&& i < t.len() ==> row_rank(t[i]) >= r
}

/// The insert position for a row of rank `r` (meaningful under `table_wf`).
pub open spec fn row_insert_pos(t: Seq<EpochGroup>, r: int) -> int {
    choose|i: int| is_row_insert_pos(t, r, i)
}

/// Whether a row holds this satellite.
pub open spec fn svs_has(svs: Seq<SvGroup>, sv: Sv) -> bool {
    exists|i: int| 0 <= i < svs.len() && #[trigger] svs[i].sv == sv
}

/// The index of that satellite (meaningful under `svs_wf`).
pub open spec fn svs_index(svs: Seq<SvGroup>, sv: Sv) -> int {
    choose|i: int| 0 <= i < svs.len() && #[trigger] svs[i].sv == sv
}

/// `i` is the place a satellite of this rank belongs in a row.
pub open spec fn is_svs_insert_pos(svs: Seq<SvGroup>, r: int, i: int) -> bool {
    &&& 0 <= i <= svs.len()
    &&& forall|j: int| 0 <= j < i ==> sv_rank(#[trigger] svs[j].sv) < r
    &&& i < svs.len() ==> sv_rank(svs[i].sv) >= r
}

/// The insert position for a satellite (meaningful under `svs_wf`).
pub open spec fn svs_insert_pos(svs: Seq<SvGroup>, r: int) -> int {
    choose|i: int| is_svs_insert_pos(svs, r, i)
}

/// Whether a satellite's list holds this observable key.
pub open spec fn obs_has(obs: Seq<ObsEntry>, k: ObservableKey) -> bool {
    exists|i: int| 0 <= i < obs.len() && #[trigger] obs[i].key == k
}

/// The index of that key (meaningful under `obs_wf`).
pub open spec fn obs_index(obs: Seq<ObsEntry>, k: ObservableKey) -> int {
    choose|i: int| 0 <= i < obs.len() && #[trigger] obs[i].key == k
}

/// A fresh row: clock offset zero, no satellites yet.
pub open spec fn new_epoch_group(e: Epoch, f: EpochFlag) -> EpochGroup {
    EpochGroup { epoch: e, flag: f, clock_offset_s: Some(0i64), svs: Seq::empty() }
}

/// The table with a row for (epoch, flag) present: unchanged if it already
/// had one, else with a fresh row at its ordered place.
pub open spec fn table_touch_row(t: Seq<EpochGroup>, e: Epoch, f: EpochFlag) -> Seq<EpochGroup> {
    if table_has_row(t, e, f) {
        t
    } else {
        t.insert(row_insert_pos(t, epoch_rank(e, f)), new_epoch_group(e, f))
    }
}

/// A row with this satellite present: unchanged if it already was, else with
/// an empty satellite group at its ordered place.
pub open spec fn svs_touch(svs: Seq<SvGroup>, sv: Sv) -> Seq<SvGroup> {
    if svs_has(svs, sv) {
        svs
    } else {
        svs.insert(svs_insert_pos(svs, sv_rank(sv)), SvGroup { sv, obs: Seq::empty() })
    }
}

/// The table with both the row for (epoch, flag) and the satellite's group
/// in it present.
pub open spec fn table_touch(t: Seq<EpochGroup>, e: Epoch, f: EpochFlag, sv: Sv) -> Seq<
    EpochGroup,
> {
    let t1 = table_touch_row(t, e, f);
    let i = table_row_index(t1, e, f);
    let g = t1[i];
    t1.update(
        i,
        EpochGroup { epoch: g.epoch, flag: g.flag, clock_offset_s: g.clock_offset_s, svs: svs_touch(g.svs, sv) },
    )
}

/// An observation list with this entry stored: replaces the entry of the
/// same key, or appends.
pub open spec fn obs_upsert(obs: Seq<ObsEntry>, entry: ObsEntry) -> Seq<ObsEntry> {
    if obs_has(obs, entry.key) {
        obs.update(obs_index(obs, entry.key), entry)
    } else {
        obs.push(entry)
    }
}

/// The table with one observation stored under (epoch, flag) / satellite /
/// key; meaningful when the row and the satellite group exist.
pub open spec fn table_upsert(
    t: Seq<EpochGroup>,
    e: Epoch,
    f: EpochFlag,
    sv: Sv,
    entry: ObsEntry,
) -> Seq<EpochGroup> {
    let i = table_row_index(t, e, f);
    let g = t[i];
    let j = svs_index(g.svs, sv);
    let s = g.svs[j];
    t.update(
        i,
        EpochGroup {
            epoch: g.epoch,
            flag: g.flag,
            clock_offset_s: g.clock_offset_s,
            svs: g.svs.update(j, SvGroup { sv: s.sv, obs: obs_upsert(s.obs, entry) }),
        },
    )
}

/// Under `table_wf` a (epoch, flag) row's index is unique.
pub proof fn lemma_row_index_unique(t: Seq<EpochGroup>, e: Epoch, f: EpochFlag, i: int)
    requires
        table_wf(t),
        0 <= i < t.len(),
        t[i].epoch == e,
        t[i].flag == f,
    ensures
        table_row_index(t, e, f) == i,
{
    assert(table_has_row(t, e, f));
    let j = table_row_index(t, e, f);
    if i < j {
        assert(row_rank(t[i]) < row_rank(t[j]));
    } else if j < i {
        assert(row_rank(t[j]) < row_rank(t[i]));
    }
}

/// Under sortedness an insert position is unique.
pub proof fn lemma_row_insert_pos_unique(t: Seq<EpochGroup>, r: int, i: int)
    requires
        is_row_insert_pos(t, r, i),
    ensures
        row_insert_pos(t, r) == i,
{
    let j = row_insert_pos(t, r);
    assert(is_row_insert_pos(t, r, j));
    if i < j {
        assert(row_rank(t[i]) < r);
    } else if j < i {
        assert(row_rank(t[j]) < r);
    }
}

/// Under `svs_wf` a satellite's index is unique.
pub proof fn lemma_svs_index_unique(svs: Seq<SvGroup>, sv: Sv, i: int)
    requires
        svs_wf(svs),
        0 <= i < svs.len(),
        svs[i].sv == sv,
    ensures
        svs_index(svs, sv) == i,
{
    assert(svs_has(svs, sv));
    let j = svs_index(svs, sv);
    if i < j {
        assert(sv_rank(svs[i].sv) < sv_rank(svs[j].sv));
    } else if j < i {
        assert(sv_rank(svs[j].sv) < sv_rank(svs[i].sv));
    }
}

/// Under sortedness a satellite insert position is unique.
pub proof fn lemma_svs_insert_pos_unique(svs: Seq<SvGroup>, r: int, i: int)
    requires
        is_svs_insert_pos(svs, r, i),
    ensures
        svs_insert_pos(svs, r) == i,
{
    let j = svs_insert_pos(svs, r);
    assert(is_svs_insert_pos(svs, r, j));
    if i < j {
        assert(sv_rank(svs[i].sv) < r);
    } else if j < i {
        assert(sv_rank(svs[j].sv) < r);
    }
}

/// Under `obs_wf` an observable key's index is unique.
pub proof fn lemma_obs_index_unique(obs: Seq<ObsEntry>, k: ObservableKey, i: int)
    requires
        obs_wf(obs),
        0 <= i < obs.len(),
        obs[i].key == k,
    ensures
        obs_index(obs, k) == i,
{
    assert(obs_has(obs, k));
    let j = obs_index(obs, k);
    if i < j {
        assert(obs[i].key != obs[j].key);
    } else if j < i {
        assert(obs[j].key != obs[i].key);
    }
}

/// Every epoch flag ranks as zero or one.
pub proof fn lemma_flag_rank_bounds(f: EpochFlag)
    ensures
        0 <= flag_rank(f) <= 1,
{
    match f {
        EpochFlag::Okay => {},
        EpochFlag::PowerFailure => {},
    }
}

/// The row rank determines the epoch and the flag.
proof fn lemma_row_rank_injective(a: Epoch, af: EpochFlag, b: Epoch, bf: EpochFlag)
    requires
        epoch_rank(a, af) == epoch_rank(b, bf),
    ensures
        a == b && af == bf,
{
    lemma_flag_rank_bounds(af);
    lemma_flag_rank_bounds(bf);
    assert(a.gpst_ms == b.gpst_ms && flag_rank(af) == flag_rank(bf));
    match (af, bf) {
        (EpochFlag::Okay, EpochFlag::Okay) => {},
        (EpochFlag::PowerFailure, EpochFlag::PowerFailure) => {},
        (EpochFlag::Okay, EpochFlag::PowerFailure) => {
            assert(false);
        },
        (EpochFlag::PowerFailure, EpochFlag::Okay) => {
            assert(false);
        },
    }
}

/// The satellite rank determines the satellite.
proof fn lemma_sv_rank_injective(a: Sv, b: Sv)
    requires
        sv_rank(a) == sv_rank(b),
    ensures
        a == b,
{
    assert(0 <= a.prn <= 255 && 0 <= b.prn <= 255);
    match (a.constellation, b.constellation) {
        (crate::freq::Constellation::Gps, crate::freq::Constellation::Gps) => {},
        (crate::freq::Constellation::Galileo, crate::freq::Constellation::Galileo) => {},
        (crate::freq::Constellation::Gps, crate::freq::Constellation::Galileo) => {
            assert(false);
        },
        (crate::freq::Constellation::Galileo, crate::freq::Constellation::Gps) => {
            assert(false);
        },
    }
}

impl SvEntry {
    /// Store one observation for this satellite, replacing any previous one
    /// of the same key.
    fn upsert_obs(&mut self, entry: ObsEntry)
        requires
            obs_wf(old(self).obs@),
        ensures
            final(self).sv == old(self).sv,
            final(self).obs@ == obs_upsert(old(self).obs@, entry),
            obs_wf(final(self).obs@),
    {
        let ghost obs0 = self.obs@;
        let mut found: Option<usize> = None;
        let mut i: usize = 0;
        let n = self.obs.len();
        while found.is_none() && i < n
            invariant
                0 <= i <= n,
                n == obs0.len(),
                self.obs@ == obs0,
                match found {
                    None => forall|j: int| 0 <= j < i ==> #[trigger] obs0[j].key != entry.key,
                    Some(k) => 0 <= k < obs0.len() && obs0[k as int].key == entry.key,
                },
            decreases n - i,
        {
            if self.obs[i].key == entry.key {
                found = Some(i);
            }
            i += 1;
        }
        match found {
            Some(idx) => {
                proof {
                    lemma_obs_index_unique(obs0, entry.key, idx as int);
                }
                self.obs[idx] = entry;
                proof {
                    lemma_obs_upsert_wf(obs0, entry);
                }
            },
            None => {
                assert(!obs_has(obs0, entry.key));
                self.obs.push(entry);
                proof {
                    lemma_obs_upsert_wf(obs0, entry);
                }
            },
        }
    }
}

impl RtcmData {
    /// The three nested orderings hold.
    pub open spec fn wf(&self) -> bool {
        table_wf(self@)
    }

    /// An empty table.
    pub fn new() -> (r: RtcmData)
        ensures
            r@ =~= Seq::<EpochGroup>::empty(),
            r.wf(),
    {
        RtcmData { entries: Vec::new() }
    }

    /// How many rows the table holds.
    pub fn len(&self) -> (r: usize)
        ensures
            r == self@.len(),
    {
        self.entries.len()
    }

    /// Whether `a` sorts strictly before `b` among epoch flags.
    fn flag_lt(a: EpochFlag, b: EpochFlag) -> (r: bool)
        ensures
            r == (flag_rank(a) < flag_rank(b)),
    {
        match (a, b) {
            (EpochFlag::Okay, EpochFlag::PowerFailure) => true,
            _ => false,
        }
    }

    /// Whether two epoch flags are the same.
    fn flag_eq(a: EpochFlag, b: EpochFlag) -> (r: bool)
        ensures
            r == (a == b),
    {
        match (a, b) {
            (EpochFlag::Okay, EpochFlag::Okay) => true,
            (EpochFlag::PowerFailure, EpochFlag::PowerFailure) => true,
            _ => false,
        }
    }

    /// Whether the row key (`a_epoch`, `a_flag`) sorts strictly before the
    /// key (`e`, `f`).
    fn row_key_lt(a_epoch: Epoch, a_flag: EpochFlag, e: Epoch, f: EpochFlag) -> (r: bool)
        ensures
            r == (epoch_rank(a_epoch, a_flag) < epoch_rank(e, f)),
    {
        proof {
            lemma_flag_rank_bounds(a_flag);
            lemma_flag_rank_bounds(f);
        }
        a_epoch.gpst_ms < e.gpst_ms || (a_epoch.gpst_ms == e.gpst_ms && Self::flag_lt(a_flag, f))
    }

    /// Rank of a constellation as an executable value.
    fn constellation_rank_u8(c: crate::freq::Constellation) -> (r: u8)
        ensures
            r as int == crate::types::constellation_rank(c),
    {
        match c {
            crate::freq::Constellation::Gps => 0,
            crate::freq::Constellation::Galileo => 1,
        }
    }

    /// Whether satellite `a` sorts strictly before satellite `b`.
    fn sv_lt(a: Sv, b: Sv) -> (r: bool)
        ensures
            r == (sv_rank(a) < sv_rank(b)),
    {
        let ar: u32 = Self::constellation_rank_u8(a.constellation) as u32 * 256 + a.prn as u32;
        let br: u32 = Self::constellation_rank_u8(b.constellation) as u32 * 256 + b.prn as u32;
        ar < br
    }

    /// Whether two satellites are the same.
    fn sv_eq(a: Sv, b: Sv) -> (r: bool)
        ensures
            r == (a == b),
    {
        a == b
    }

    /// Find this row's index, or the place where it belongs.
    fn find_row(&self, e: Epoch, f: EpochFlag) -> (r: (bool, usize))
        requires
            self.wf(),
        ensures
            r.0 ==> table_has_row(self@, e, f) && r.1 == table_row_index(self@, e, f)
                && r.1 < self@.len(),
            !r.0 ==> !table_has_row(self@, e, f) && is_row_insert_pos(
                self@,
                epoch_rank(e, f),
                r.1 as int,
            ),
    {
        let ghost t = self@;
        let ghost r_rank = epoch_rank(e, f);
        let n = self.entries.len();
        let mut i: usize = 0;
        while i < n
            invariant_except_break
                0 <= i <= n,
                n == t.len(),
                self@ == t,
                self.wf(),
                r_rank == epoch_rank(e, f),
                forall|j: int| 0 <= j < i ==> row_rank(#[trigger] t[j]) < r_rank,
            ensures
                0 <= i <= n,
                n == t.len(),
                self@ == t,
                forall|j: int| 0 <= j < i ==> row_rank(#[trigger] t[j]) < r_rank,
                i < n ==> row_rank(t[i as int]) >= r_rank,
            decreases n - i,
        {
            let lt = Self::row_key_lt(self.entries[i].epoch, self.entries[i].flag, e, f);
            proof {
                assert(t[i as int] == epoch_entry_view(self.entries@[i as int]));
            }
            if !lt {
                break;
            }
            i += 1;
        }
        if i < n && self.entries[i].epoch.gpst_ms == e.gpst_ms && Self::flag_eq(
            self.entries[i].flag,
            f,
        ) {
            proof {
                assert(t[i as int].epoch == e && t[i as int].flag == f);
                lemma_row_index_unique(t, e, f, i as int);
            }
            (true, i)
        } else {
            proof {
                assert(is_row_insert_pos(t, r_rank, i as int));
                assert forall|k: int| 0 <= k < t.len() implies !(t[k].epoch == e
                    && #[trigger] t[k].flag == f) by {
                    if t[k].epoch == e && t[k].flag == f {
                        assert(row_rank(t[k]) == r_rank);
                        if k < i {
                            assert(row_rank(t[k]) < r_rank);
                        } else if k == i {
                            lemma_row_rank_injective(t[k].epoch, t[k].flag, e, f);
                            assert(t[i as int].epoch == e && t[i as int].flag == f);
                            assert(false);
                        } else {
                            assert(row_rank(t[i as int]) < row_rank(t[k]));
                        }
                    }
                }
            }
            (false, i)
        }
    }

    /// Find this satellite's index in a row, or the place where it belongs.
    fn find_sv(svs: &Vec<SvEntry>, sv: Sv) -> (r: (bool, usize))
        requires
            svs_wf(svs@.map_values(|s: SvEntry| sv_entry_view(s))),
        ensures
            ({
                let v = svs@.map_values(|s: SvEntry| sv_entry_view(s));
                &&& r.0 ==> svs_has(v, sv) && r.1 == svs_index(v, sv) && r.1 < v.len()
                &&& !r.0 ==> !svs_has(v, sv) && is_svs_insert_pos(v, sv_rank(sv), r.1 as int)
            }),
    {
        let ghost v = svs@.map_values(|s: SvEntry| sv_entry_view(s));
        let ghost r_rank = sv_rank(sv);
        let n = svs.len();
        let mut i: usize = 0;
        while i < n
            invariant_except_break
                0 <= i <= n,
                n == v.len(),
                svs@.map_values(|s: SvEntry| sv_entry_view(s)) == v,
                svs_wf(v),
                r_rank == sv_rank(sv),
                forall|j: int| 0 <= j < i ==> sv_rank(#[trigger] v[j].sv) < r_rank,
            ensures
                0 <= i <= n,
                n == v.len(),
                svs@.map_values(|s: SvEntry| sv_entry_view(s)) == v,
                forall|j: int| 0 <= j < i ==> sv_rank(#[trigger] v[j].sv) < r_rank,
                i < n ==> sv_rank(v[i as int].sv) >= r_rank,
            decreases n - i,
        {
            let lt = Self::sv_lt(svs[i].sv, sv);
            proof {
                assert(v[i as int] == sv_entry_view(svs@[i as int]));
            }
            if !lt {
                break;
            }
            i += 1;
        }
        if i < n && Self::sv_eq(svs[i].sv, sv) {
            proof {
                assert(v[i as int].sv == sv);
                lemma_svs_index_unique(v, sv, i as int);
            }
            (true, i)
        } else {
            proof {
                assert(is_svs_insert_pos(v, r_rank, i as int));
                assert forall|k: int| 0 <= k < v.len() implies !(#[trigger] v[k].sv == sv) by {
                    if v[k].sv == sv {
                        assert(sv_rank(v[k].sv) == r_rank);
                        if k < i {
                            assert(sv_rank(v[k].sv) < r_rank);
                        } else if k == i {
                            assert(v[i as int].sv != sv);
                            assert(false);
                        } else {
                            assert(sv_rank(v[i as int].sv) < sv_rank(v[k].sv));
                        }
                    }
                }
            }
            (false, i)
        }
    }

    /// Make sure the row for (epoch, flag) and the satellite's group in it
    /// exist, allocating whichever is missing at its ordered place.
    #[verifier::rlimit(50)]
    pub fn touch(&mut self, epoch: Epoch, flag: EpochFlag, sv: Sv)
        requires
            old(self).wf(),
        ensures
            final(self).wf(),
            final(self)@ == table_touch(old(self)@, epoch, flag, sv),
            table_has_row(final(self)@, epoch, flag),
            svs_has(final(self)@[table_row_index(final(self)@, epoch, flag)].svs, sv),
    {
        let ghost t0 = self@;
        let (present, idx) = self.find_row(epoch, flag);
        if !present {
            proof {
                lemma_row_insert_pos_unique(t0, epoch_rank(epoch, flag), idx as int);
            }
            let fresh = EpochEntry { epoch, flag, clock_offset_s: Some(0i64), svs: Vec::new() };
            self.entries.insert(idx, fresh);
            proof {
                assert(epoch_entry_view(fresh).svs =~= Seq::<SvGroup>::empty());
                assert(epoch_entry_view(fresh) == new_epoch_group(epoch, flag));
                assert(self@ =~= table_touch_row(t0, epoch, flag));
                lemma_touch_row_wf(t0, epoch, flag, idx as int);
                assert(self@[idx as int].epoch == epoch && self@[idx as int].flag == flag);
                lemma_row_index_unique(self@, epoch, flag, idx as int);
            }
        }
        let ghost t1 = self@;
        proof {
            assert(t1 == table_touch_row(t0, epoch, flag));
            assert(table_wf(t1));
            assert(table_row_index(t1, epoch, flag) == idx as int);
            assert((idx as int) < t1.len());
            assert(t1[idx as int].epoch == epoch && t1[idx as int].flag == flag);
        }
        let mut row = self.entries.remove(idx);
        let ghost svs0 = epoch_entry_view(row).svs;
        proof {
            assert(epoch_entry_view(row) == t1[idx as int]);
            assert(svs_wf(svs0));
        }
        let (sv_present, j) = Self::find_sv(&row.svs, sv);
        if !sv_present {
            proof {
                lemma_svs_insert_pos_unique(svs0, sv_rank(sv), j as int);
            }
            let fresh_sv = SvEntry { sv, obs: Vec::new() };
            row.svs.insert(j, fresh_sv);
            proof {
                assert(sv_entry_view(fresh_sv).obs =~= Seq::<ObsEntry>::empty());
                assert(sv_entry_view(fresh_sv) == (SvGroup { sv, obs: Seq::empty() }));
                assert(row.svs@.map_values(|s: SvEntry| sv_entry_view(s)) =~= svs_touch(svs0, sv));
            }
        } else {
            proof {
                assert(row.svs@.map_values(|s: SvEntry| sv_entry_view(s)) =~= svs_touch(svs0, sv));
            }
        }
        self.entries.insert(idx, row);
        proof {
            assert(self@ =~= t1.update(idx as int, epoch_entry_view(row)));
            assert(epoch_entry_view(row).svs == svs_touch(svs0, sv));
            assert(epoch_entry_view(row) == (EpochGroup {
                epoch: t1[idx as int].epoch,
                flag: t1[idx as int].flag,
                clock_offset_s: t1[idx as int].clock_offset_s,
                svs: svs_touch(t1[idx as int].svs, sv),
            }));
            assert(self@ == table_touch(t0, epoch, flag, sv));
            lemma_svs_touch_wf(svs0, sv);
            lemma_table_update_svs_wf(t1, idx as int, epoch_entry_view(row));
            assert(self@[idx as int].epoch == epoch && self@[idx as int].flag == flag);
            lemma_row_index_unique(self@, epoch, flag, idx as int);
            if svs_has(svs0, sv) {
                let w = svs_index(svs0, sv);
                assert(svs_touch(svs0, sv)[w].sv == sv);
            } else {
                lemma_svs_insert_pos_unique(svs0, sv_rank(sv), j as int);
                assert(svs_touch(svs0, sv)[j as int].sv == sv);
            }
            assert(svs_has(self@[idx as int].svs, sv));
        }
    }

    /// Store one observation under (epoch, flag) / satellite / key,
    /// replacing any previous value of that key.  The row and the
    /// satellite's group must already exist (`touch` makes them).
    #[verifier::rlimit(50)]
    pub fn upsert(&mut self, epoch: Epoch, flag: EpochFlag, sv: Sv, entry: ObsEntry)
        requires
            old(self).wf(),
            table_has_row(old(self)@, epoch, flag),
            svs_has(old(self)@[table_row_index(old(self)@, epoch, flag)].svs, sv),
        ensures
            final(self).wf(),
            final(self)@ == table_upsert(old(self)@, epoch, flag, sv, entry),
            table_has_row(final(self)@, epoch, flag),
            svs_has(final(self)@[table_row_index(final(self)@, epoch, flag)].svs, sv),
    {
        let ghost t0 = self@;
        let (present, idx) = self.find_row(epoch, flag);
        assert(present);
        let mut row = self.entries.remove(idx);
        let ghost svs0 = epoch_entry_view(row).svs;
        proof {
            assert(epoch_entry_view(row) == t0[idx as int]);
            assert(svs_wf(svs0));
            assert(svs_has(svs0, sv));
        }
        let (sv_present, sj) = Self::find_sv(&row.svs, sv);
        assert(sv_present);
        let mut sve = row.svs.remove(sj);
        let ghost obs0 = sve.obs@;
        proof {
            assert(sv_entry_view(sve) == svs0[sj as int]);
            assert(obs_wf(svs0[sj as int].obs));
            assert(obs_wf(obs0));
        }
        sve.upsert_obs(entry);
        row.svs.insert(sj, sve);
        self.entries.insert(idx, row);
        proof {
            assert(svs0[sj as int].sv == sv);
            assert(sve.sv == sv);
            assert(row.svs@.map_values(|s: SvEntry| sv_entry_view(s)) =~= svs0.update(
                sj as int,
                SvGroup { sv, obs: obs_upsert(obs0, entry) },
            ));
            assert(self@ =~= t0.update(idx as int, epoch_entry_view(row)));
            assert(epoch_entry_view(row) == (EpochGroup {
                epoch: t0[idx as int].epoch,
                flag: t0[idx as int].flag,
                clock_offset_s: t0[idx as int].clock_offset_s,
                svs: t0[idx as int].svs.update(
                    svs_index(t0[idx as int].svs, sv),
                    SvGroup {
                        sv,
                        obs: obs_upsert(t0[idx as int].svs[svs_index(t0[idx as int].svs, sv)].obs, entry),
                    },
                ),
            }));
            assert(self@ == table_upsert(t0, epoch, flag, sv, entry));
            lemma_obs_upsert_wf(obs0, entry);
            lemma_svs_update_same_sv_wf(
                svs0,
                sj as int,
                SvGroup { sv, obs: obs_upsert(obs0, entry) },
            );
            lemma_table_update_svs_wf(t0, idx as int, epoch_entry_view(row));
            assert(self@[idx as int].epoch == epoch && self@[idx as int].flag == flag);
            lemma_row_index_unique(self@, epoch, flag, idx as int);
            assert(self@[idx as int].svs[sj as int].sv == sv);
            assert(svs_has(self@[idx as int].svs, sv));
        }
    }
}


/// Inserting a fresh row at its position keeps the table sorted and well
/// formed.
proof fn lemma_touch_row_wf(t: Seq<EpochGroup>, e: Epoch, f: EpochFlag, i: int)
    requires
        table_wf(t),
        !table_has_row(t, e, f),
        is_row_insert_pos(t, epoch_rank(e, f), i),
    ensures
        table_wf(t.insert(i, new_epoch_group(e, f))),
{
    let r = epoch_rank(e, f);
    let t2 = t.insert(i, new_epoch_group(e, f));
    // no row of rank exactly r exists: rank determines (epoch, flag)
    assert forall|k: int| 0 <= k < t.len() implies row_rank(#[trigger] t[k]) != r by {
        if row_rank(t[k]) == r {
            assert(flag_rank(t[k].flag) == flag_rank(f) && t[k].epoch.gpst_ms == e.gpst_ms) by {
                assert(0 <= flag_rank(t[k].flag) <= 1);
                assert(0 <= flag_rank(f) <= 1);
            }
            assert(t[k].flag == f) by {
                assert(flag_rank(t[k].flag) == flag_rank(f));
            }
            assert(t[k].epoch == e);
            assert(table_has_row(t, e, f));
        }
    }
    assert forall|a: int, b: int| 0 <= a < b < t2.len() implies row_rank(#[trigger] t2[a])
        < row_rank(#[trigger] t2[b]) by {
        if a < i && b < i {
            assert(t2[a] == t[a] && t2[b] == t[b]);
        } else if a < i && b == i {
            assert(t2[a] == t[a]);
            assert(row_rank(t[a]) < r);
        } else if a < i && b > i {
            assert(t2[a] == t[a] && t2[b] == t[b - 1]);
            if b - 1 < i {
            } else {
                if a < b - 1 {
                    assert(row_rank(t[a]) < row_rank(t[b - 1]));
                } else {
                    assert(row_rank(t[a]) < r);
                    assert(row_rank(t[b - 1]) >= r);
                    assert(row_rank(t[b - 1]) != r);
                }
            }
        } else if a == i {
            assert(t2[b] == t[b - 1]);
            assert(b - 1 >= i);
            assert(row_rank(t[b - 1]) >= r);
            assert(row_rank(t[b - 1]) != r);
        } else {
            assert(t2[a] == t[a - 1] && t2[b] == t[b - 1]);
        }
    }
    assert forall|k: int| 0 <= k < t2.len() implies svs_wf(#[trigger] t2[k].svs) by {
        if k < i {
            assert(t2[k] == t[k]);
        } else if k == i {
            assert(t2[k].svs =~= Seq::<SvGroup>::empty());
        } else {
            assert(t2[k] == t[k - 1]);
        }
    }
}

/// Touching a satellite keeps a row's satellite list sorted and well formed.
proof fn lemma_svs_touch_wf(svs: Seq<SvGroup>, sv: Sv)
    requires
        svs_wf(svs),
    ensures
        svs_wf(svs_touch(svs, sv)),
{
    if svs_has(svs, sv) {
    } else {
        let r = sv_rank(sv);
        let i = svs_insert_pos(svs, r);
        assert(is_svs_insert_pos(svs, r, i)) by {
            lemma_svs_insert_pos_exists(svs, r);
        }
        let s2 = svs.insert(i, SvGroup { sv, obs: Seq::empty() });
        assert forall|k: int| 0 <= k < svs.len() implies sv_rank(#[trigger] svs[k].sv) != r by {
            if sv_rank(svs[k].sv) == r {
                assert(svs[k].sv.constellation == sv.constellation) by {
                    assert(0 <= svs[k].sv.prn <= 255);
                    assert(0 <= sv.prn <= 255);
                    assert(crate::types::constellation_rank(svs[k].sv.constellation) * 256
                        + svs[k].sv.prn == crate::types::constellation_rank(sv.constellation) * 256
                        + sv.prn);
                    if crate::types::constellation_rank(svs[k].sv.constellation)
                        != crate::types::constellation_rank(sv.constellation) {
                        assert(false);
                    }
                    lemma_constellation_rank_injective(svs[k].sv.constellation, sv.constellation);
                }
                assert(svs[k].sv.prn == sv.prn);
                assert(svs[k].sv == sv);
                assert(svs_has(svs, sv));
            }
        }
        assert forall|a: int, b: int| 0 <= a < b < s2.len() implies sv_rank(#[trigger] s2[a].sv)
            < sv_rank(#[trigger] s2[b].sv) by {
            if a < i && b < i {
            } else if a < i && b == i {
                assert(sv_rank(svs[a].sv) < r);
            } else if a < i && b > i {
                if a < b - 1 {
                } else {
                    assert(sv_rank(svs[a].sv) < r);
                    assert(sv_rank(svs[b - 1].sv) >= r);
                    assert(sv_rank(svs[b - 1].sv) != r);
                }
            } else if a == i {
                assert(sv_rank(svs[b - 1].sv) >= r);
                assert(sv_rank(svs[b - 1].sv) != r);
            } else {
            }
        }
        assert forall|k: int| 0 <= k < s2.len() implies obs_wf(#[trigger] s2[k].obs) by {
            if k < i {
            } else if k == i {
            } else {
            }
        }
    }
}

/// Two constellations with one rank are the same constellation.
proof fn lemma_constellation_rank_injective(
    a: crate::freq::Constellation,
    b: crate::freq::Constellation,
)
    requires
        crate::types::constellation_rank(a) == crate::types::constellation_rank(b),
    ensures
        a == b,
{
}

/// An insert position always exists in a sorted list.
proof fn lemma_svs_insert_pos_exists(svs: Seq<SvGroup>, r: int)
    requires
        svs_wf(svs),
    ensures
        exists|i: int| is_svs_insert_pos(svs, r, i),
    decreases svs.len(),
{
    if svs.len() == 0 {
        assert(is_svs_insert_pos(svs, r, 0));
    } else if sv_rank(svs[0].sv) >= r {
        assert(is_svs_insert_pos(svs, r, 0));
    } else {
        let tail = svs.drop_first();
        assert(svs_wf(tail)) by {
            assert forall|a: int, b: int| 0 <= a < b < tail.len() implies sv_rank(
                #[trigger] tail[a].sv,
            ) < sv_rank(#[trigger] tail[b].sv) by {
                assert(tail[a] == svs[a + 1] && tail[b] == svs[b + 1]);
            }
            assert forall|k: int| 0 <= k < tail.len() implies obs_wf(#[trigger] tail[k].obs) by {
                assert(tail[k] == svs[k + 1]);
            }
        }
        lemma_svs_insert_pos_exists(tail, r);
        let i = choose|i: int| is_svs_insert_pos(tail, r, i);
        assert(is_svs_insert_pos(svs, r, i + 1)) by {
            assert forall|j: int| 0 <= j < i + 1 implies sv_rank(#[trigger] svs[j].sv) < r by {
                if j == 0 {
                } else {
                    assert(tail[j - 1] == svs[j]);
                    assert(sv_rank(tail[j - 1].sv) < r);
                }
            }
            if i + 1 < svs.len() {
                assert(svs[i + 1] == tail[i]);
            }
        }
    }
}

/// Replacing an observation list keeps a satellite list well formed when the
/// satellite stays the same and the new list is well formed.
proof fn lemma_svs_update_same_sv_wf(svs: Seq<SvGroup>, j: int, g: SvGroup)
    requires
        svs_wf(svs),
        0 <= j < svs.len(),
        g.sv == svs[j].sv,
        obs_wf(g.obs),
    ensures
        svs_wf(svs.update(j, g)),
{
    let s2 = svs.update(j, g);
    assert forall|a: int, b: int| 0 <= a < b < s2.len() implies sv_rank(#[trigger] s2[a].sv)
        < sv_rank(#[trigger] s2[b].sv) by {
        assert(s2[a].sv == svs[a].sv && s2[b].sv == svs[b].sv);
    }
    assert forall|k: int| 0 <= k < s2.len() implies obs_wf(#[trigger] s2[k].obs) by {
        if k != j {
            assert(s2[k] == svs[k]);
        }
    }
}

/// Replacing a row's satellite list keeps the table well formed when the
/// epoch and flag stay the same and the new list is well formed.
proof fn lemma_table_update_svs_wf(t: Seq<EpochGroup>, i: int, g: EpochGroup)
    requires
        table_wf(t),
        0 <= i < t.len(),
        g.epoch == t[i].epoch,
        g.flag == t[i].flag,
        svs_wf(g.svs),
    ensures
        table_wf(t.update(i, g)),
{
    let t2 = t.update(i, g);
    assert forall|a: int, b: int| 0 <= a < b < t2.len() implies row_rank(#[trigger] t2[a])
        < row_rank(#[trigger] t2[b]) by {
        assert(t2[a].epoch == t[a].epoch && t2[a].flag == t[a].flag);
        assert(t2[b].epoch == t[b].epoch && t2[b].flag == t[b].flag);
    }
    assert forall|k: int| 0 <= k < t2.len() implies svs_wf(#[trigger] t2[k].svs) by {
        if k != i {
            assert(t2[k] == t[k]);
        }
    }
}

/// Storing an observation keeps the key list unique.
proof fn lemma_obs_upsert_wf(obs: Seq<ObsEntry>, entry: ObsEntry)
    requires
        obs_wf(obs),
    ensures
        obs_wf(obs_upsert(obs, entry)),
{
    let o2 = obs_upsert(obs, entry);
    if obs_has(obs, entry.key) {
        let i = obs_index(obs, entry.key);
        assert(0 <= i < obs.len() && obs[i].key == entry.key);
        assert forall|a: int, b: int| 0 <= a < b < o2.len() implies #[trigger] o2[a].key
            != #[trigger] o2[b].key by {
            if a != i {
                assert(o2[a] == obs[a]);
            }
            if b != i {
                assert(o2[b] == obs[b]);
            }
            assert(obs[a].key != obs[b].key);
        }
    } else {
        assert forall|a: int, b: int| 0 <= a < b < o2.len() implies #[trigger] o2[a].key
            != #[trigger] o2[b].key by {
            if b == obs.len() {
                assert(o2[a] == obs[a]);
                assert(!(obs[a].key == entry.key));
            } else {
                assert(o2[a] == obs[a] && o2[b] == obs[b]);
            }
        }
    }
}


/// An observation entry the decoder may store: only carrier phase carries a
/// loss-of-lock indicator, and the signal-to-noise slot stays empty.
pub open spec fn entry_ok(e: ObsEntry) -> bool {
    &&& (e.key.kind is Phase <==> e.value.lli is Some)
    &&& e.value.snr is None
}

/// Every observation held anywhere in the table satisfies `entry_ok`.
pub open spec fn table_values_ok(t: Seq<EpochGroup>) -> bool {
    forall|i: int, j: int, k: int|
        0 <= i < t.len() && 0 <= j < t[i].svs.len() && 0 <= k < t[i].svs[j].obs.len()
            ==> entry_ok(#[trigger] t[i].svs[j].obs[k])
}

/// An insert position always exists for a row rank.
proof fn lemma_row_insert_pos_exists(t: Seq<EpochGroup>, r: int)
    requires
        table_wf(t),
    ensures
        is_row_insert_pos(t, r, row_insert_pos(t, r)),
    decreases t.len(),
{
    if t.len() == 0 {
        assert(is_row_insert_pos(t, r, 0));
    } else if row_rank(t[0]) >= r {
        assert(is_row_insert_pos(t, r, 0));
    } else {
        let tail = t.drop_first();
        assert(table_wf(tail)) by {
            assert forall|a: int, b: int| 0 <= a < b < tail.len() implies row_rank(
                #[trigger] tail[a],
            ) < row_rank(#[trigger] tail[b]) by {
                assert(tail[a] == t[a + 1] && tail[b] == t[b + 1]);
            }
            assert forall|k: int| 0 <= k < tail.len() implies svs_wf(#[trigger] tail[k].svs) by {
                assert(tail[k] == t[k + 1]);
            }
        }
        lemma_row_insert_pos_exists(tail, r);
        let i = row_insert_pos(tail, r);
        assert(is_row_insert_pos(t, r, i + 1)) by {
            assert forall|j: int| 0 <= j < i + 1 implies row_rank(#[trigger] t[j]) < r by {
                if j == 0 {
                } else {
                    assert(tail[j - 1] == t[j]);
                    assert(row_rank(tail[j - 1]) < r);
                }
            }
            if i + 1 < t.len() {
                assert(t[i + 1] == tail[i]);
            }
        }
        lemma_row_insert_pos_unique(t, r, i + 1);
    }
}

/// How `table_touch` moves the first and last epochs: a strictly earlier
/// epoch takes the head, a strictly later one takes the tail, everything
/// else leaves them.
pub proof fn lemma_touch_ends(t: Seq<EpochGroup>, e: Epoch, f: EpochFlag, sv: Sv)
    requires
        table_wf(t),
    ensures
        table_touch(t, e, f, sv).len() > 0,
        table_touch(t, e, f, sv).len() == t.len() + (if table_has_row(t, e, f) {
            0int
        } else {
            1int
        }),
        table_touch(t, e, f, sv)[0].epoch == (if t.len() == 0 || e.gpst_ms
            < t[0].epoch.gpst_ms {
            e
        } else {
            t[0].epoch
        }),
        table_touch(t, e, f, sv).last().epoch == (if t.len() == 0 || e.gpst_ms
            > t.last().epoch.gpst_ms {
            e
        } else {
            t.last().epoch
        }),
{
    let r = epoch_rank(e, f);
    let t1 = table_touch_row(t, e, f);
    let i0 = table_row_index(t1, e, f);
    let t2 = table_touch(t, e, f, sv);
    lemma_flag_rank_bounds(f);
    if table_has_row(t, e, f) {
        let w = table_row_index(t, e, f);
        assert(0 <= w < t.len() && t[w].epoch == e && t[w].flag == f);
        assert(t1 == t);
        assert(i0 == w);
        assert(t2.len() == t.len());
        assert(t2[0].epoch == t[0].epoch);
        assert(t2.last().epoch == t.last().epoch);
        // a stored row for e means e cannot sort before the head
        assert(!(e.gpst_ms < t[0].epoch.gpst_ms)) by {
            lemma_flag_rank_bounds(t[0].flag);
            if e.gpst_ms < t[0].epoch.gpst_ms {
                if 0 < w {
                    assert(row_rank(t[0]) < row_rank(t[w]));
                }
                assert(false);
            }
        }
        assert(!(e.gpst_ms > t.last().epoch.gpst_ms)) by {
            lemma_flag_rank_bounds(t.last().flag);
            if e.gpst_ms > t.last().epoch.gpst_ms {
                if w < t.len() - 1 {
                    assert(row_rank(t[w]) < row_rank(t[t.len() - 1]));
                }
                assert(false);
            }
        }
    } else {
        lemma_row_insert_pos_exists(t, r);
        let p = row_insert_pos(t, r);
        assert(is_row_insert_pos(t, r, p));
        assert(t1 == t.insert(p, new_epoch_group(e, f)));
        assert(t1.len() == t.len() + 1);
        assert(t1[p] == new_epoch_group(e, f));
        assert(table_has_row(t1, e, f)) by {
            assert(t1[p].epoch == e && t1[p].flag == f);
        }
        lemma_touch_row_wf(t, e, f, p);
        lemma_row_index_unique(t1, e, f, p);
        assert(i0 == p);
        assert(0 <= i0 < t1.len());
        assert(t2.len() == t1.len());
        // ranks other than p are not r
        assert forall|k: int| 0 <= k < t.len() implies row_rank(#[trigger] t[k]) != r by {
            if row_rank(t[k]) == r {
                lemma_row_rank_injective(t[k].epoch, t[k].flag, e, f);
                assert(table_has_row(t, e, f));
            }
        }
        assert(t2[0].epoch == t1[0].epoch);
        assert(t2.last().epoch == t1.last().epoch);
        if p == 0 {
            assert(t1[0] == new_epoch_group(e, f));
            if t.len() > 0 {
                assert(row_rank(t[0]) > r) by {
                    assert(row_rank(t[0]) >= r);
                }
                lemma_flag_rank_bounds(t[0].flag);
                assert(e.gpst_ms <= t[0].epoch.gpst_ms);
                if e.gpst_ms == t[0].epoch.gpst_ms {
                    assert(t[0].epoch == e);
                }
            }
        } else {
            assert(t1[0] == t[0]);
            assert(row_rank(t[0]) < r);
            lemma_flag_rank_bounds(t[0].flag);
            assert(!(e.gpst_ms < t[0].epoch.gpst_ms));
        }
        if p == t.len() {
            assert(t1.last() == new_epoch_group(e, f));
            if t.len() > 0 {
                assert(row_rank(t[t.len() - 1]) < r);
                lemma_flag_rank_bounds(t[t.len() - 1].flag);
                assert(!(e.gpst_ms < t.last().epoch.gpst_ms));
                if e.gpst_ms == t.last().epoch.gpst_ms {
                    assert(t.last().epoch == e);
                }
            }
        } else {
            assert(t1.last() == t[t.len() - 1]);
            assert(row_rank(t[t.len() - 1]) >= r);
            assert(row_rank(t[t.len() - 1]) != r);
            lemma_flag_rank_bounds(t[t.len() - 1].flag);
            assert(!(e.gpst_ms > t.last().epoch.gpst_ms));
        }
    }
}

/// `table_upsert` changes no row keys and no row count.
pub proof fn lemma_upsert_keys(t: Seq<EpochGroup>, e: Epoch, f: EpochFlag, sv: Sv, en: ObsEntry)
    requires
        table_wf(t),
        table_has_row(t, e, f),
    ensures
        table_upsert(t, e, f, sv, en).len() == t.len(),
        forall|i: int|
            0 <= i < t.len() ==> #[trigger] table_upsert(t, e, f, sv, en)[i].epoch == t[i].epoch
                && table_upsert(t, e, f, sv, en)[i].flag == t[i].flag,
{
    let i0 = table_row_index(t, e, f);
    assert(0 <= i0 < t.len() && t[i0].epoch == e && t[i0].flag == f);
}

/// `table_touch` adds no observation values, so `entry_ok` everywhere is
/// kept.
pub proof fn lemma_touch_values_ok(t: Seq<EpochGroup>, e: Epoch, f: EpochFlag, sv: Sv)
    requires
        table_wf(t),
        table_values_ok(t),
    ensures
        table_values_ok(table_touch(t, e, f, sv)),
{
    let t1 = table_touch_row(t, e, f);
    let i0 = table_row_index(t1, e, f);
    let t2 = table_touch(t, e, f, sv);
    assert(table_values_ok(t1)) by {
        if table_has_row(t, e, f) {
        } else {
            lemma_row_insert_pos_exists(t, epoch_rank(e, f));
            let p = row_insert_pos(t, epoch_rank(e, f));
            assert forall|i: int, j: int, k: int|
                0 <= i < t1.len() && 0 <= j < t1[i].svs.len() && 0 <= k
                    < t1[i].svs[j].obs.len() implies entry_ok(#[trigger] t1[i].svs[j].obs[k]) by {
                if i < p {
                    assert(t1[i] == t[i]);
                    assert(entry_ok(t[i].svs[j].obs[k]));
                } else if i == p {
                    assert(t1[i].svs.len() == 0);
                } else {
                    assert(t1[i] == t[i - 1]);
                    assert(entry_ok(t[i - 1].svs[j].obs[k]));
                }
            }
        }
    }
    assert(table_wf(t1) && table_has_row(t1, e, f) && 0 <= i0 < t1.len()) by {
        if table_has_row(t, e, f) {
            let w = table_row_index(t, e, f);
            assert(0 <= w < t.len() && t[w].epoch == e && t[w].flag == f);
        } else {
            lemma_row_insert_pos_exists(t, epoch_rank(e, f));
            let p = row_insert_pos(t, epoch_rank(e, f));
            lemma_touch_row_wf(t, e, f, p);
            assert(t1[p].epoch == e && t1[p].flag == f);
            assert(table_has_row(t1, e, f));
        }
    }
    let svs1 = t1[i0].svs;
    let svs2 = svs_touch(svs1, sv);
    assert(svs_wf(svs1));
    assert forall|i: int, j: int, k: int|
        0 <= i < t2.len() && 0 <= j < t2[i].svs.len() && 0 <= k
            < t2[i].svs[j].obs.len() implies entry_ok(#[trigger] t2[i].svs[j].obs[k]) by {
        if i != i0 {
            assert(t2[i] == t1[i]);
            assert(entry_ok(t1[i].svs[j].obs[k]));
        } else {
            assert(t2[i].svs == svs2);
            if svs_has(svs1, sv) {
                assert(svs2 == svs1);
                assert(entry_ok(t1[i].svs[j].obs[k]));
            } else {
                lemma_svs_insert_pos_exists(svs1, sv_rank(sv));
                let q = svs_insert_pos(svs1, sv_rank(sv));
                assert(is_svs_insert_pos(svs1, sv_rank(sv), q));
                if j < q {
                    assert(svs2[j] == svs1[j]);
                    assert(entry_ok(t1[i].svs[j].obs[k]));
                } else if j == q {
                    assert(svs2[j].obs.len() == 0);
                } else {
                    assert(svs2[j] == svs1[j - 1]);
                    assert(entry_ok(t1[i].svs[j - 1].obs[k]));
                }
            }
        }
    }
}

/// `table_upsert` stores only the given entry, so `entry_ok` everywhere is
/// kept when that entry is ok.
pub proof fn lemma_upsert_values_ok(
    t: Seq<EpochGroup>,
    e: Epoch,
    f: EpochFlag,
    sv: Sv,
    en: ObsEntry,
)
    requires
        table_wf(t),
        table_has_row(t, e, f),
        svs_has(t[table_row_index(t, e, f)].svs, sv),
        table_values_ok(t),
        entry_ok(en),
    ensures
        table_values_ok(table_upsert(t, e, f, sv, en)),
{
    let i0 = table_row_index(t, e, f);
    assert(0 <= i0 < t.len() && t[i0].epoch == e && t[i0].flag == f);
    let j0 = svs_index(t[i0].svs, sv);
    assert(0 <= j0 < t[i0].svs.len() && t[i0].svs[j0].sv == sv);
    let t2 = table_upsert(t, e, f, sv, en);
    assert forall|i: int, j: int, k: int|
        0 <= i < t2.len() && 0 <= j < t2[i].svs.len() && 0 <= k
            < t2[i].svs[j].obs.len() implies entry_ok(#[trigger] t2[i].svs[j].obs[k]) by {
        if i != i0 {
            assert(t2[i] == t[i]);
            assert(entry_ok(t[i].svs[j].obs[k]));
        } else if 0 <= i0 < t.len() {
            if j != j0 {
                assert(t2[i].svs[j] == t[i].svs[j]);
                assert(entry_ok(t[i].svs[j].obs[k]));
            } else if 0 <= j0 < t[i0].svs.len() {
                let obs0 = t[i0].svs[j0].obs;
                let obs2 = obs_upsert(obs0, en);
                assert(t2[i].svs[j].obs == obs2);
                if obs_has(obs0, en.key) {
                    let w = obs_index(obs0, en.key);
                    if k == w && 0 <= w < obs0.len() {
                        assert(obs2[k] == en);
                    } else {
                        assert(obs2[k] == obs0[k]);
                        assert(entry_ok(obs0[k]));
                    }
                } else {
                    if k == obs0.len() {
                        assert(obs2[k] == en);
                    } else {
                        assert(obs2[k] == obs0[k]);
                        assert(entry_ok(obs0[k]));
                    }
                }
            }
        }
    }
}

} // verus!
