//! Metering cells: one packed 64-bit word per (name, pid) and metric, holding the
//! start of the current one-second window in its high half and the bytes seen in
//! that window in its low half.
use vstd::prelude::*;

verus! {

/// Length of a metering window, in milliseconds.
pub const WINDOW_MS: u64 = 1000;

/// Mask of the low half of a cell.
pub const LOW_MASK: u64 = 0xFFFF_FFFF;

/// Start of the window held in `cell`, in milliseconds.
pub open spec fn cell_start(cell: u64) -> u64 {
    cell >> 32u64
}

/// Bytes accumulated in the window held in `cell`.
pub open spec fn cell_bytes(cell: u64) -> u64 {
    cell & LOW_MASK
}

/// The cell whose window starts at `start` with `bytes` accumulated.
pub open spec fn pack(start: u64, bytes: u64) -> u64 {
    (start << 32u64) | bytes
}

/// A clock reading folded to the 32 bits that a cell keeps.
pub open spec fn clock32(now_ms: u64) -> u64 {
    now_ms & LOW_MASK
}

/// Milliseconds from `start` to `now`, zero if the clock reads earlier.
pub open spec fn elapsed(start: u64, now: u64) -> u64 {
    if now >= start {
        (now - start) as u64
    } else {
        0
    }
}

/// The rate, in bytes per second, of `bytes` over `dt` milliseconds.
pub open spec fn rate_of(bytes: u64, dt: u64) -> int {
    (1000 * bytes) / (dt as int)
}

/// The bytes of the current window after `bytes` more arrive, kept to 32 bits.
pub open spec fn added_bytes(cell: u64, bytes: u64) -> u64 {
    ((cell_bytes(cell) + (bytes & LOW_MASK)) % 0x1_0000_0000) as u64
}

/// Whether a sample at `now_ms` closes the window held in `cell`.
pub open spec fn closes_window(cell: u64, now_ms: u64) -> bool {
    elapsed(cell_start(cell), clock32(now_ms)) >= WINDOW_MS
}

/// The cell after a sample of `bytes` at `now_ms`.
pub open spec fn metered_cell(cell: u64, now_ms: u64, bytes: u64) -> u64 {
    if closes_window(cell, now_ms) {
        pack(clock32(now_ms), 0)
    } else {
        pack(cell_start(cell), added_bytes(cell, bytes))
    }
}

/// The rate measured by a sample of `bytes` at `now_ms` on `cell`: present when the
/// sample closes the window.
pub open spec fn measured_rate(cell: u64, now_ms: u64, bytes: u64) -> Option<int> {
    if closes_window(cell, now_ms) {
        Some(rate_of(added_bytes(cell, bytes), elapsed(cell_start(cell), clock32(now_ms))))
    } else {
        None
    }
}

/// The rate reported by the sample: the measured rate, when it reaches `threshold`.
pub open spec fn reported_rate(cell: u64, now_ms: u64, bytes: u64, threshold: u32) -> Option<u32> {
    match measured_rate(cell, now_ms, bytes) {
        Some(rate) => if rate >= threshold {
            Some(rate as u32)
        } else {
            None
        },
        None => None,
    }
}

/// The cell after the samples `(now_ms, bytes)` of `samples`, fed in order.
pub open spec fn run_cell(cell: u64, samples: Seq<(u64, u64)>) -> u64
    decreases samples.len(),
{
    if samples.len() == 0 {
        cell
    } else {
        let last = samples.last();
        metered_cell(run_cell(cell, samples.drop_last()), last.0, last.1)
    }
}

/// No sample of `samples` closes the window of the cell it meets.
pub open spec fn none_closes(cell: u64, samples: Seq<(u64, u64)>) -> bool {
    forall|i: int|
        0 <= i < samples.len() ==> !closes_window(
            #[trigger] run_cell(cell, samples.take(i)),
            samples[i].0,
        )
}

/// Rate formula: a sample that closes a window of `dt` milliseconds holding `A`
/// bytes reports the rate `1000 * A / dt` (rounded down), and reports it exactly
/// when it reaches the threshold.
pub proof fn law_rate_formula(cell: u64, now_ms: u64, bytes: u64, threshold: u32)
    requires
        closes_window(cell, now_ms),
    ensures
        ({
            let a = added_bytes(cell, bytes);
            let dt = elapsed(cell_start(cell), clock32(now_ms));
            &&& dt >= WINDOW_MS
            &&& reported_rate(cell, now_ms, bytes, threshold) is Some <==> rate_of(a, dt) >= threshold
            &&& reported_rate(cell, now_ms, bytes, threshold) is Some ==> reported_rate(
                cell,
                now_ms,
                bytes,
                threshold,
            )->0 == rate_of(a, dt)
        }),
{
    lemma_halves(cell);
    let a = added_bytes(cell, bytes);
    assert(a <= LOW_MASK);
    lemma_rate_bound(a, elapsed(cell_start(cell), clock32(now_ms)));
}

/// Samples that do not close the window leave its start where it was.
proof fn lemma_start_kept(cell: u64, samples: Seq<(u64, u64)>)
    requires
        none_closes(cell, samples),
    ensures
        cell_start(run_cell(cell, samples)) == cell_start(cell),
    decreases samples.len(),
{
    if samples.len() > 0 {
        let front = samples.drop_last();
        assert forall|i: int| 0 <= i < front.len() implies !closes_window(
            #[trigger] run_cell(cell, front.take(i)),
            front[i].0,
        ) by {
            assert(front.take(i) =~= samples.take(i));
            assert(!closes_window(run_cell(cell, samples.take(i)), samples[i].0));
        }
        lemma_start_kept(cell, front);
        let k = front.len() as int;
        assert(samples.take(k) =~= front);
        let prev = run_cell(cell, front);
        assert(!closes_window(prev, samples[k].0));
        lemma_halves(prev);
        lemma_pack(cell_start(prev), added_bytes(prev, samples.last().1));
    }
}

/// Emission cap: once a sample at `t1` has closed a window and reported, the next
/// sample that reports, at `t2`, comes at least one window later, whatever
/// samples that did not close the window came in between.
pub proof fn law_one_report_per_window(
    cell: u64,
    t1: u64,
    b1: u64,
    threshold: u32,
    between: Seq<(u64, u64)>,
    t2: u64,
    b2: u64,
)
    requires
        reported_rate(cell, t1, b1, threshold) is Some,
        none_closes(metered_cell(cell, t1, b1), between),
        reported_rate(run_cell(metered_cell(cell, t1, b1), between), t2, b2, threshold) is Some,
    ensures
        clock32(t2) >= clock32(t1) + WINDOW_MS,
{
    let reset = metered_cell(cell, t1, b1);
    lemma_halves(t1);
    lemma_pack(clock32(t1), 0);
    lemma_start_kept(reset, between);
}

proof fn lemma_pack(start: u64, bytes: u64)
    requires
        start <= LOW_MASK,
        bytes <= LOW_MASK,
    ensures
        cell_start(pack(start, bytes)) == start,
        cell_bytes(pack(start, bytes)) == bytes,
{
    assert(((start << 32u64) | bytes) >> 32u64 == start) by (bit_vector)
        requires
            start <= 0xFFFF_FFFFu64,
            bytes <= 0xFFFF_FFFFu64,
    ;
    assert(((start << 32u64) | bytes) & 0xFFFF_FFFFu64 == bytes) by (bit_vector)
        requires
            start <= 0xFFFF_FFFFu64,
            bytes <= 0xFFFF_FFFFu64,
    ;
}

proof fn lemma_halves(cell: u64)
    ensures
        cell_start(cell) <= LOW_MASK,
        cell_bytes(cell) <= LOW_MASK,
        clock32(cell) <= LOW_MASK,
{
    assert(cell >> 32u64 <= 0xFFFF_FFFFu64) by (bit_vector);
    assert(cell & 0xFFFF_FFFFu64 <= 0xFFFF_FFFFu64) by (bit_vector);
}

proof fn lemma_rate_bound(bytes: u64, dt: u64)
    requires
        dt >= WINDOW_MS,
        bytes <= LOW_MASK,
    ensures
        0 <= rate_of(bytes, dt) <= bytes,
{
    assert(0 <= (1000 * bytes) / (dt as int) <= bytes) by (nonlinear_arith)
        requires
            dt >= 1000,
            bytes >= 0,
    ;
}

/// A packed metering cell, updated only by adding bytes to its window and by
/// closing the window.
pub struct _Atomic {
    value: u64,
}

impl _Atomic {
    pub closed spec fn view(&self) -> u64 {
        self.value
    }

    pub fn new(value: u64) -> (r: _Atomic)
        ensures
            r@ == value,
    {
        _Atomic { value }
    }

    /// The cell that opens a window at `now_ms` with the bytes of its first sample.
    pub fn open(now_ms: u64, bytes: u64) -> (r: _Atomic)
        ensures
            r@ == pack(clock32(now_ms), bytes & LOW_MASK),
            cell_start(r@) == clock32(now_ms),
            cell_bytes(r@) == bytes & LOW_MASK,
    {
        proof {
            lemma_halves(now_ms);
            lemma_halves(bytes);
        }
        let start = now_ms & LOW_MASK;
        let first = bytes & LOW_MASK;
        proof {
            lemma_pack(start, first);
        }
        _Atomic { value: (start << 32) | first }
    }

    pub fn load(&self) -> (r: u64)
        ensures
            r == self@,
    {
        self.value
    }

    /// Adds `bytes` to the window, keeping its start; returns the previous word.
    pub fn fetch_add(&mut self, bytes: u64) -> (r: u64)
        ensures
            r == old(self)@,
            final(self)@ == pack(cell_start(old(self)@), added_bytes(old(self)@, bytes)),
    {
        let old_value = self.value;
        proof {
            lemma_halves(old_value);
            lemma_halves(bytes);
        }
        let start = old_value >> 32;
        let sum = (old_value & LOW_MASK) + (bytes & LOW_MASK);
        let acc = sum & LOW_MASK;
        assert(sum & 0xFFFF_FFFFu64 == sum % 0x1_0000_0000) by (bit_vector);
        proof {
            lemma_pack(start, acc);
        }
        self.value = (start << 32) | acc;
        old_value
    }

    /// Replaces the word; returns the previous one.
    pub fn swap(&mut self, value: u64) -> (r: u64)
        ensures
            r == old(self)@,
            final(self)@ == value,
    {
        let old_value = self.value;
        self.value = value;
        old_value
    }

    /// Feeds one sample of `bytes` at `now_ms` into the cell. When the sample closes
    /// the window, the cell restarts at `now_ms` with nothing accumulated, and the rate
    /// of the closed window is returned if it reaches `threshold`.
    pub fn meter(&mut self, now_ms: u64, bytes: u64, threshold: u32) -> (r: Option<u32>)
        ensures
            final(self)@ == metered_cell(old(self)@, now_ms, bytes),
            r == reported_rate(old(self)@, now_ms, bytes, threshold),
    {
        let ghost cell0 = self@;
        proof {
            lemma_halves(cell0);
            lemma_halves(now_ms);
        }
        let now = now_ms & LOW_MASK;
        self.fetch_add(bytes);
        let cell = self.load();
        proof {
            lemma_pack(cell_start(cell0), added_bytes(cell0, bytes));
        }
        let start = cell >> 32;
        let dt = if now >= start {
            now - start
        } else {
            0
        };
        if dt >= WINDOW_MS {
            proof {
                lemma_pack(now, 0);
            }
            let closed = self.swap(now << 32);
            assert((now << 32u64) | 0u64 == now << 32u64) by (bit_vector);
            let accumulated = closed & LOW_MASK;
            proof {
                lemma_rate_bound(accumulated, dt);
            }
            let rate = 1000 * accumulated / dt;
            if rate >= threshold as u64 {
                Some(rate as u32)
            } else {
                None
            }
        } else {
            None
        }
    }
}

} // verus!
