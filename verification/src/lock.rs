use vstd::prelude::*;

use crate::time::Epoch;
use crate::types::{Sv, SignalCode, LLI_OK_OR_UNKNOWN, LLI_LOCK_LOSS, LLI_HALF_CYCLE_SLIP};

verus! {

/// Lock history for one (satellite, signal code) key: the indicator and the
/// epoch seen on the previous sighting.
#[derive(Clone, Copy, PartialEq, Eq, Structural, Debug)]
pub struct LockEntry {
    pub sv: Sv,
    pub code: SignalCode,
    pub prev_ind: u16,
    pub prev_epoch: Epoch,
}

/// Minimum lock time in milliseconds that a lock time indicator encodes,
/// per the extended indicator's piecewise-linear table: 22 bands whose
/// slope doubles from band to band, a single point at 704, and zero for the
/// reserved remainder.
pub open spec fn spec_min_lock_time(i: u16) -> int {
    if i <= 63 {
        i as int
    } else if i <= 95 {
        2 * i - 64
    } else if i <= 127 {
        4 * i - 256
    } else if i <= 159 {
        8 * i - 768
    } else if i <= 191 {
        16 * i - 2048
    } else if i <= 223 {
        32 * i - 5120
    } else if i <= 255 {
        64 * i - 12288
    } else if i <= 287 {
        128 * i - 28672
    } else if i <= 319 {
        256 * i - 65536
    } else if i <= 351 {
        512 * i - 147456
    } else if i <= 383 {
        1024 * i - 327680
    } else if i <= 415 {
        2048 * i - 720896
    } else if i <= 447 {
        4096 * i - 1572864
    } else if i <= 479 {
        8192 * i - 3407872
    } else if i <= 511 {
        16384 * i - 7340032
    } else if i <= 543 {
        32768 * i - 15728640
    } else if i <= 575 {
        65536 * i - 33554432
    } else if i <= 607 {
        131072 * i - 71303168
    } else if i <= 639 {
        262144 * i - 150994944
    } else if i <= 671 {
        524288 * i - 318767104
    } else if i <= 703 {
        1048576 * i - 671088640
    } else if i == 704 {
        2097152 * i - 1409286144
    } else {
        0
    }
}

/// The supplementary coefficient of the same table: the band's slope, zero
/// for the reserved range.
pub open spec fn spec_lli_coefficient(i: u16) -> int {
    if i <= 63 {
        1
    } else if i <= 95 {
        2
    } else if i <= 127 {
        4
    } else if i <= 159 {
        8
    } else if i <= 191 {
        16
    } else if i <= 223 {
        32
    } else if i <= 255 {
        64
    } else if i <= 287 {
        128
    } else if i <= 319 {
        256
    } else if i <= 351 {
        512
    } else if i <= 383 {
        1024
    } else if i <= 415 {
        2048
    } else if i <= 447 {
        4096
    } else if i <= 479 {
        8192
    } else if i <= 511 {
        16384
    } else if i <= 543 {
        32768
    } else if i <= 575 {
        65536
    } else if i <= 607 {
        131072
    } else if i <= 639 {
        262144
    } else if i <= 671 {
        524288
    } else if i <= 703 {
        1048576
    } else if i == 704 {
        2097152
    } else {
        0
    }
}

/// The standard lock-loss decision: given the previous and current
/// indicators and the elapsed milliseconds, does the table rule a possible
/// loss of lock?
pub open spec fn spec_lock_loss_standard(prev_ind: u16, cur_ind: u16, dt: u64) -> bool {
    let p = spec_min_lock_time(prev_ind);
    let n = spec_min_lock_time(cur_ind);
    let a = spec_lli_coefficient(prev_ind);
    let b = spec_lli_coefficient(cur_ind);
    if p > n {
        true
    } else if p == n {
        dt >= a
    } else if b > p {
        if dt >= n + b - p {
            true
        } else if n < dt && dt < n + b - p {
            true
        } else {
            false
        }
    } else {
        dt > n
    }
}

/// The simplified lock-loss decision: loss iff the indicator decreased, or
/// both sightings carry indicator zero.
pub open spec fn spec_lock_loss_rtklib(prev_ind: u16, cur_ind: u16) -> bool {
    (prev_ind == 0 && cur_ind == 0) || cur_ind < prev_ind
}

/// The full indicator bitmask one sighting produces: the half-cycle bit from
/// the message, plus the lock-loss bit from the mode's decision rule.
pub open spec fn spec_lli(
    use_rtklib: bool,
    prev_ind: u16,
    cur_ind: u16,
    dt: u64,
    half_cycle: u8,
) -> u8 {
    let base: u8 = if half_cycle > 0 {
        LLI_HALF_CYCLE_SLIP
    } else {
        LLI_OK_OR_UNKNOWN
    };
    let loss = if use_rtklib {
        spec_lock_loss_rtklib(prev_ind, cur_ind)
    } else {
        spec_lock_loss_standard(prev_ind, cur_ind, dt)
    };
    if loss {
        (base + LLI_LOCK_LOSS) as u8
    } else {
        base
    }
}

/// Whether the history holds an entry for this key.
pub open spec fn lock_has_key(s: Seq<LockEntry>, sv: Sv, code: SignalCode) -> bool {
    exists|i: int| 0 <= i < s.len() && s[i].sv == sv && s[i].code == code
}

/// The index of this key's entry (meaningful under `lock_wf`).
pub open spec fn lock_index(s: Seq<LockEntry>, sv: Sv, code: SignalCode) -> int {
    choose|i: int| 0 <= i < s.len() && s[i].sv == sv && s[i].code == code
}

/// Each key appears at most once in the history.
pub open spec fn lock_wf(s: Seq<LockEntry>) -> bool {
    forall|i: int, j: int|
        0 <= i < j < s.len() ==> !(#[trigger] s[i].sv == #[trigger] s[j].sv && s[i].code
            == s[j].code)
}

/// The previously seen indicator for a key, zero when never seen.
pub open spec fn spec_prev_ind(s: Seq<LockEntry>, sv: Sv, code: SignalCode) -> u16 {
    if lock_has_key(s, sv, code) {
        s[lock_index(s, sv, code)].prev_ind
    } else {
        0
    }
}

/// The previously seen epoch for a key, if any.
pub open spec fn spec_prev_epoch(s: Seq<LockEntry>, sv: Sv, code: SignalCode) -> Option<Epoch> {
    if lock_has_key(s, sv, code) {
        Some(s[lock_index(s, sv, code)].prev_epoch)
    } else {
        None
    }
}

/// Elapsed whole milliseconds between the previous and the current epoch:
/// zero when there is no previous epoch, and clamped at zero when time ran
/// backwards.
pub open spec fn spec_dt(prev: Option<Epoch>, cur: Epoch) -> u64 {
    match prev {
        None => 0u64,
        Some(p) => if cur.gpst_ms >= p.gpst_ms {
            (cur.gpst_ms - p.gpst_ms) as u64
        } else {
            0u64
        },
    }
}

/// The history after one sighting: the key's entry now holds the current
/// indicator and epoch.
pub open spec fn spec_lock_update(
    s: Seq<LockEntry>,
    sv: Sv,
    code: SignalCode,
    ind: u16,
    epoch: Epoch,
) -> Seq<LockEntry> {
    let e = LockEntry { sv, code, prev_ind: ind, prev_epoch: epoch };
    if lock_has_key(s, sv, code) {
        s.update(lock_index(s, sv, code), e)
    } else {
        s.push(e)
    }
}

/// Under `lock_wf` the index of a key is the only one that matches.
pub proof fn lemma_lock_index_unique(s: Seq<LockEntry>, sv: Sv, code: SignalCode, i: int)
    requires
        lock_wf(s),
        0 <= i < s.len(),
        s[i].sv == sv,
        s[i].code == code,
    ensures
        lock_index(s, sv, code) == i,
{
    assert(lock_has_key(s, sv, code));
    let j = lock_index(s, sv, code);
    if i < j {
        assert(!(s[i].sv == s[j].sv && s[i].code == s[j].code));
    } else if j < i {
        assert(!(s[j].sv == s[i].sv && s[j].code == s[i].code));
    }
}

/// One sighting keeps the history well formed.
pub proof fn lemma_lock_update_wf(
    s: Seq<LockEntry>,
    sv: Sv,
    code: SignalCode,
    ind: u16,
    epoch: Epoch,
)
    requires
        lock_wf(s),
    ensures
        lock_wf(spec_lock_update(s, sv, code, ind, epoch)),
{
    let t = spec_lock_update(s, sv, code, ind, epoch);
    if lock_has_key(s, sv, code) {
        let k = lock_index(s, sv, code);
        assert forall|i: int, j: int| 0 <= i < j < t.len() implies !(#[trigger] t[i].sv
            == #[trigger] t[j].sv && t[i].code == t[j].code) by {
            if i != k && j != k {
                assert(!(s[i].sv == s[j].sv && s[i].code == s[j].code));
            } else if i == k {
                assert(t[j] == s[j]);
                assert(!(s[k].sv == s[j].sv && s[k].code == s[j].code));
            } else {
                assert(t[i] == s[i]);
                assert(!(s[i].sv == s[k].sv && s[i].code == s[k].code));
            }
        }
    } else {
        assert forall|i: int, j: int| 0 <= i < j < t.len() implies !(#[trigger] t[i].sv
            == #[trigger] t[j].sv && t[i].code == t[j].code) by {
            if j == s.len() {
                assert(t[j].sv == sv && t[j].code == code);
                assert(!(s[i].sv == sv && s[i].code == code));
            } else {
                assert(!(s[i].sv == s[j].sv && s[i].code == s[j].code));
            }
        }
    }
}

/// The lock-loss / half-cycle-slip inference engine: per-key history of the
/// extended lock time indicator, and the rule (standard or simplified) that
/// turns consecutive indicators into a loss-of-lock decision.
pub struct LockStatus {
    use_rtklib_method: bool,
    entries: Vec<LockEntry>,
}

impl View for LockStatus {
    type V = Seq<LockEntry>;

    closed spec fn view(&self) -> Seq<LockEntry> {
        self.entries@
    }
}

impl LockStatus {
    /// Which decision rule this tracker applies.
    pub closed spec fn mode(&self) -> bool {
        self.use_rtklib_method
    }

    /// The history never holds two entries for one key.
    pub open spec fn wf(&self) -> bool {
        lock_wf(self@)
    }

    /// A fresh tracker: no history, with the chosen decision rule.
    pub fn new(use_rtklib_method: bool) -> (r: LockStatus)
        ensures
            r@ =~= Seq::<LockEntry>::empty(),
            r.wf(),
            r.mode() == use_rtklib_method,
    {
        LockStatus { use_rtklib_method, entries: Vec::new() }
    }

    /// The minimum lock time in milliseconds encoded by a lock time
    /// indicator value.
    pub fn calculate_minimum_lock_time(i: u16) -> (r: u64)
        ensures
            r == spec_min_lock_time(i),
    {
        let v: u64 = i as u64;
        if i <= 63 {
            v
        } else if i <= 95 {
            2 * v - 64
        } else if i <= 127 {
            4 * v - 256
        } else if i <= 159 {
            8 * v - 768
        } else if i <= 191 {
            16 * v - 2048
        } else if i <= 223 {
            32 * v - 5120
        } else if i <= 255 {
            64 * v - 12288
        } else if i <= 287 {
            128 * v - 28672
        } else if i <= 319 {
            256 * v - 65536
        } else if i <= 351 {
            512 * v - 147456
        } else if i <= 383 {
            1024 * v - 327680
        } else if i <= 415 {
            2048 * v - 720896
        } else if i <= 447 {
            4096 * v - 1572864
        } else if i <= 479 {
            8192 * v - 3407872
        } else if i <= 511 {
            16384 * v - 7340032
        } else if i <= 543 {
            32768 * v - 15728640
        } else if i <= 575 {
            65536 * v - 33554432
        } else if i <= 607 {
            131072 * v - 71303168
        } else if i <= 639 {
            262144 * v - 150994944
        } else if i <= 671 {
            524288 * v - 318767104
        } else if i <= 703 {
            1048576 * v - 671088640
        } else if i == 704 {
            2097152 * v - 1409286144
        } else {
            0
        }
    }

    /// The supplementary coefficient encoded by a lock time indicator value.
    pub fn get_lli_coefficient(i: u16) -> (r: u32)
        ensures
            r == spec_lli_coefficient(i),
    {
        if i <= 63 {
            1
        } else if i <= 95 {
            2
        } else if i <= 127 {
            4
        } else if i <= 159 {
            8
        } else if i <= 191 {
            16
        } else if i <= 223 {
            32
        } else if i <= 255 {
            64
        } else if i <= 287 {
            128
        } else if i <= 319 {
            256
        } else if i <= 351 {
            512
        } else if i <= 383 {
            1024
        } else if i <= 415 {
            2048
        } else if i <= 447 {
            4096
        } else if i <= 479 {
            8192
        } else if i <= 511 {
            16384
        } else if i <= 543 {
            32768
        } else if i <= 575 {
            65536
        } else if i <= 607 {
            131072
        } else if i <= 639 {
            262144
        } else if i <= 671 {
            524288
        } else if i <= 703 {
            1048576
        } else if i == 704 {
            2097152
        } else {
            0
        }
    }

    /// One sighting of a (satellite, code) key: returns the loss-of-lock
    /// bitmask for the carrier-phase observable of this sighting, and stores
    /// the current indicator and epoch as the key's new history.
    pub fn update_lock_status(
        &mut self,
        sv: &Sv,
        code: &SignalCode,
        current_epoch: &Epoch,
        current_lli: u16,
        half_cycle_ambiguity: u8,
    ) -> (r: Option<u8>)
        requires
            old(self).wf(),
        ensures
            final(self).wf(),
            final(self).mode() == old(self).mode(),
            r == Some(
                spec_lli(
                    old(self).mode(),
                    spec_prev_ind(old(self)@, *sv, *code),
                    current_lli,
                    spec_dt(spec_prev_epoch(old(self)@, *sv, *code), *current_epoch),
                    half_cycle_ambiguity,
                ),
            ),
            final(self)@ == spec_lock_update(old(self)@, *sv, *code, current_lli, *current_epoch),
    {
        let ghost s = self@;
        let mut found: Option<usize> = None;
        let mut i: usize = 0;
        let n = self.entries.len();
        while found.is_none() && i < n
            invariant
                0 <= i <= n,
                n == s.len(),
                self.entries@ == s,
                match found {
                    None => forall|j: int|
                        0 <= j < i ==> !(#[trigger] s[j].sv == *sv && s[j].code == *code),
                    Some(k) => 0 <= k < s.len() && s[k as int].sv == *sv && s[k as int].code
                        == *code,
                },
            decreases n - i,
        {
            let e = self.entries[i];
            if e.sv == *sv && e.code == *code {
                found = Some(i);
            }
            i += 1;
        }

        let mut prev_ind: u16 = 0;
        let mut prev_epoch: Option<Epoch> = None;
        match found {
            Some(idx) => {
                proof {
                    lemma_lock_index_unique(s, *sv, *code, idx as int);
                }
                let e = self.entries[idx];
                prev_ind = e.prev_ind;
                prev_epoch = Some(e.prev_epoch);
            },
            None => {
                assert(!lock_has_key(s, *sv, *code));
            },
        }
        assert(prev_ind == spec_prev_ind(s, *sv, *code));
        assert(prev_epoch == spec_prev_epoch(s, *sv, *code));

        let dt: u64 = match prev_epoch {
            Some(p) => {
                if current_epoch.gpst_ms >= p.gpst_ms {
                    current_epoch.gpst_ms - p.gpst_ms
                } else {
                    0
                }
            },
            None => 0,
        };
        assert(dt == spec_dt(spec_prev_epoch(s, *sv, *code), *current_epoch));

        let mut lli: u8 = if half_cycle_ambiguity > 0 {
            LLI_HALF_CYCLE_SLIP
        } else {
            LLI_OK_OR_UNKNOWN
        };

        let loss: bool = if self.use_rtklib_method {
            (prev_ind == 0 && current_lli == 0) || current_lli < prev_ind
        } else {
            let p = Self::calculate_minimum_lock_time(prev_ind);
            let n = Self::calculate_minimum_lock_time(current_lli);
            let a = Self::get_lli_coefficient(prev_ind);
            let b = Self::get_lli_coefficient(current_lli);
            if p > n {
                true
            } else if p == n && dt >= a as u64 {
                true
            } else if p == n && dt < a as u64 {
                false
            } else if p < n && b as u64 > p && dt >= n + b as u64 - p {
                true
            } else if p < n && b as u64 > p && n < dt && dt < n + b as u64 - p {
                true
            } else if p < n && b as u64 > p && dt <= n {
                false
            } else if p < n && b as u64 <= p && dt > n {
                true
            } else {
                false
            }
        };
        if loss {
            lli = lli + LLI_LOCK_LOSS;
        }

        let entry = LockEntry {
            sv: *sv,
            code: *code,
            prev_ind: current_lli,
            prev_epoch: *current_epoch,
        };
        match found {
            Some(idx) => {
                self.entries[idx] = entry;
            },
            None => {
                self.entries.push(entry);
            },
        }
        proof {
            lemma_lock_update_wf(s, *sv, *code, current_lli, *current_epoch);
        }
        Some(lli)
    }
}

/// On the first sighting of a key the standard rule never flags a loss of
/// lock: the result is exactly the half-cycle bit, or nothing.
pub proof fn lemma_first_sighting_standard(cur_ind: u16, half_cycle: u8)
    ensures
        spec_lli(false, 0, cur_ind, 0, half_cycle) == (if half_cycle > 0 {
            LLI_HALF_CYCLE_SLIP
        } else {
            LLI_OK_OR_UNKNOWN
        }),
{
}

/// On the first sighting of a key the simplified rule flags a loss of lock
/// exactly when the current indicator is zero; the half-cycle bit rides on
/// top.
pub proof fn lemma_first_sighting_rtklib(cur_ind: u16, half_cycle: u8)
    ensures
        spec_lli(true, 0, cur_ind, 0, half_cycle) == ((if cur_ind == 0 {
            LLI_LOCK_LOSS
        } else {
            0u8
        }) + (if half_cycle > 0 {
            LLI_HALF_CYCLE_SLIP
        } else {
            0u8
        })),
{
}

/// The simplified rule is monotone: when the indicator does not decrease and
/// the two sightings are not both zero, it never flags a loss of lock.
pub proof fn lemma_rtklib_monotone(prev_ind: u16, cur_ind: u16, dt: u64, half_cycle: u8)
    requires
        cur_ind >= prev_ind,
        !(prev_ind == 0 && cur_ind == 0),
    ensures
        spec_lli(true, prev_ind, cur_ind, dt, half_cycle) == (if half_cycle > 0 {
            LLI_HALF_CYCLE_SLIP
        } else {
            LLI_OK_OR_UNKNOWN
        }),
{
}

} // verus!
