use vstd::prelude::*;

use crate::arith::{abs, floor_div, raw_in_range, trunc_div, trunc_div_exec};
use crate::nau7802::Nau7802Error;
use vstd::relations::{sorted_by, total_ordering};
use vstd::seq_lib::lemma_sorted_unique;

verus! {

// Tuning constants of the weighing path. They depend on the load cell and the
// ADC and are kept together so that one place configures them.
/// A step larger than this (in milligrams) between the filtered weight and a
/// new sample is treated as a real load change and settled quickly.
pub const FAST_SETTLE_STEP_MG: i64 = 50_000;

/// Filtered weight changes smaller than this (in milligrams) count as quiet.
pub const STABLE_DIFF_MG: i64 = 10_000;

/// Number of consecutive quiet updates after which the weight is stable.
pub const STABLE_COUNT_THRESHOLD: u8 = 10;

/// Smallest accepted calibration factor, in thousandths of a raw unit per gram.
pub const CAL_FACTOR_MIN_MILLI: u32 = 10_000;

/// Largest accepted calibration factor, in thousandths of a raw unit per gram.
pub const CAL_FACTOR_MAX_MILLI: u32 = 2_000_000;

/// Factor used until the scale is calibrated (1000 raw units per gram).
pub const DEFAULT_CAL_FACTOR_MILLI: u32 = 1_000_000;

/// Default smoothing constant, in thousandths.
pub const DEFAULT_FILTER_ALPHA_PERMILLE: u32 = 250;

/// Bound on the magnitude of any weight this module produces, in milligrams.
pub const WEIGHT_LIMIT_MG: i64 = 2_000_000_000;

/// Number of raw samples in a tare or calibration burst.
pub const BURST_LEN: usize = 30;

/// Number of lowest and of highest samples of a burst that are discarded.
pub const BURST_TRIM: usize = 5;

/// Smallest raw difference from the zero offset that calibration accepts.
pub const MIN_CAL_DELTA: i32 = 10_000;

/// Offset and scale that map raw ADC counts to weight.
#[derive(Debug, Clone, Copy, PartialEq, Eq, Structural)]
pub struct Calibration {
    /// Raw reading of the empty scale.
    pub zero_offset: i32,
    /// Raw units per gram, in thousandths.
    pub cal_factor_milli: u32,
}

impl Calibration {
    pub open spec fn wf(&self) -> bool {
        &&& raw_in_range(self.zero_offset as int)
        &&& CAL_FACTOR_MIN_MILLI <= self.cal_factor_milli <= CAL_FACTOR_MAX_MILLI
    }
}

impl Default for Calibration {
    /// No offset and the placeholder factor, until the scale is tared and
    /// calibrated.
    fn default() -> (r: Calibration)
        ensures
            r.zero_offset == 0,
            r.cal_factor_milli == DEFAULT_CAL_FACTOR_MILLI,
            r.wf(),
    {
        Calibration { zero_offset: 0, cal_factor_milli: DEFAULT_CAL_FACTOR_MILLI }
    }
}

/// Weight in milligrams of a raw sample under a calibration, rounded down:
/// `(raw - zero_offset) / cal_factor` grams.
pub open spec fn weight_of_raw(raw: int, zero_offset: int, cal_factor_milli: int) -> int {
    (raw - zero_offset) * 1_000_000 / cal_factor_milli
}

/// One step of the adaptive exponential filter from `filtered` toward `sample`
/// (both in milligrams; `alpha` in thousandths).
pub open spec fn blend(filtered: int, sample: int, alpha: int) -> int {
    if abs(sample - filtered) > FAST_SETTLE_STEP_MG {
        (3 * filtered + 7 * sample) / 10
    } else {
        (filtered * (1000 - alpha) + sample * alpha) / 1000
    }
}

/// The state of the weighing ADC and its filter.
#[derive(Debug, Clone, Copy, PartialEq, Eq, Structural)]
pub struct Nau7802State {
    pub calibration: Calibration,
    /// Whether the chip has been brought up.
    pub initialized: bool,
    /// Last raw sample read.
    pub last_raw: i32,
    /// Filtered weight in milligrams.
    pub weight_mg: i64,
    /// Smoothing constant in thousandths (higher follows faster).
    pub filter_alpha_permille: u32,
    /// Whether the weight has been quiet long enough.
    pub stable: bool,
    /// Consecutive quiet updates, saturating.
    pub stable_count: u8,
}

impl Nau7802State {
    pub open spec fn wf(&self) -> bool {
        &&& self.calibration.wf()
        &&& raw_in_range(self.last_raw as int)
        &&& -WEIGHT_LIMIT_MG <= self.weight_mg <= WEIGHT_LIMIT_MG
        &&& self.filter_alpha_permille <= 1000
        &&& self.stable ==> self.stable_count >= STABLE_COUNT_THRESHOLD
    }

    /// The filtered weight, in milligrams, once the filter has taken `raw`.
    pub open spec fn next_filtered(self, raw: i32) -> int {
        let sample = weight_of_raw(
            raw as int,
            self.calibration.zero_offset as int,
            self.calibration.cal_factor_milli as int,
        );
        blend(self.weight_mg as int, sample, self.filter_alpha_permille as int)
    }

    /// Whether taking `raw` moves the filtered weight by less than the
    /// stability threshold.
    pub open spec fn is_quiet(self, raw: i32) -> bool {
        abs(self.next_filtered(raw) - self.weight_mg) < STABLE_DIFF_MG
    }

    /// The state after the filter has taken the raw sample `raw`.
    pub open spec fn after_sample(self, raw: i32) -> Nau7802State {
        let filtered = self.next_filtered(raw);
        let quiet = self.is_quiet(raw);
        let count: u8 = if !quiet {
            0
        } else if self.stable_count == 255 {
            255
        } else {
            (self.stable_count + 1) as u8
        };
        Nau7802State {
            last_raw: raw,
            weight_mg: filtered as i64,
            stable_count: count,
            stable: quiet && (self.stable || count >= STABLE_COUNT_THRESHOLD),
            ..self
        }
    }

    /// The state before the chip is brought up: default calibration, no
    /// reading yet, default smoothing.
    pub open spec fn new_spec() -> Nau7802State {
        Nau7802State {
            calibration: Calibration { zero_offset: 0, cal_factor_milli: DEFAULT_CAL_FACTOR_MILLI },
            initialized: false,
            last_raw: 0,
            weight_mg: 0,
            filter_alpha_permille: DEFAULT_FILTER_ALPHA_PERMILLE,
            stable: false,
            stable_count: 0,
        }
    }

    pub fn new() -> (r: Nau7802State)
        ensures
            r == Nau7802State::new_spec(),
            r.wf(),
    {
        Nau7802State {
            calibration: Calibration::default(),
            initialized: false,
            last_raw: 0,
            weight_mg: 0,
            filter_alpha_permille: DEFAULT_FILTER_ALPHA_PERMILLE,
            stable: false,
            stable_count: 0,
        }
    }

    /// Feeds one raw sample through the filter and the stability debounce.
    pub fn apply_sample(&mut self, raw: i32)
        requires
            old(self).wf(),
            raw_in_range(raw as int),
        ensures
            *final(self) == old(self).after_sample(raw),
            final(self).wf(),
    {
        let cal = self.calibration.cal_factor_milli as i64;
        let diff: i64 = raw as i64 - self.calibration.zero_offset as i64;
        proof {
            let c = cal as int;
            let d = diff as int;
            assert(-0x100_0000 < d < 0x100_0000);
            lemma_weight_bounded(d, c);
        }
        let sample = floor_div(diff * 1_000_000, cal);
        let w = self.weight_mg;
        let step = if sample >= w { sample - w } else { w - sample };
        let alpha = self.filter_alpha_permille as i64;
        let filtered = if step > FAST_SETTLE_STEP_MG {
            floor_div(3 * w + 7 * sample, 10)
        } else {
            proof {
                lemma_blend_bounded(w as int, sample as int, 1000 - alpha, 1000);
                lemma_scaled_bounded(w as int, 1000 - alpha);
                lemma_scaled_bounded(sample as int, alpha as int);
            }
            floor_div(w * (1000 - alpha) + sample * alpha, 1000)
        };
        let change = if filtered >= w { filtered - w } else { w - filtered };
        if change < STABLE_DIFF_MG {
            if self.stable_count < 255 {
                self.stable_count = self.stable_count + 1;
            }
            if self.stable_count >= STABLE_COUNT_THRESHOLD {
                self.stable = true;
            }
        } else {
            self.stable_count = 0;
            self.stable = false;
        }
        self.last_raw = raw;
        self.weight_mg = filtered;
    }
}

/// The ascending order on raw samples.
pub open spec fn ascending() -> spec_fn(i32, i32) -> bool {
    |a: i32, b: i32| a <= b
}

/// Sum of a sequence of samples.
pub open spec fn sum_of(s: Seq<i32>) -> int
    decreases s.len(),
{
    if s.len() == 0 {
        0
    } else {
        sum_of(s.drop_last()) + s.last()
    }
}

/// A burst as the calibration procedures take it: `BURST_LEN` 24-bit samples.
pub open spec fn burst_ok(burst: Seq<i32>) -> bool {
    &&& burst.len() == BURST_LEN
    &&& forall|i: int| 0 <= i < burst.len() ==> raw_in_range(#[trigger] burst[i] as int)
}

/// Mean (rounded toward zero) of a burst once it is sorted and its `BURST_TRIM`
/// lowest and `BURST_TRIM` highest samples are dropped.
pub open spec fn trimmed_mean(burst: Seq<i32>) -> int {
    let kept = burst.sort_by(ascending()).subrange(
        BURST_TRIM as int,
        (BURST_LEN - BURST_TRIM) as int,
    );
    trunc_div(sum_of(kept), (BURST_LEN - 2 * BURST_TRIM) as int)
}

/// Whether calibration accepts a raw difference `delta` for a reference of
/// `known_mg` milligrams: the difference is large enough and the factor
/// `delta / known` lies within the accepted range.
pub open spec fn calibration_accepted(delta: int, known_mg: int) -> bool {
    &&& delta >= MIN_CAL_DELTA
    &&& known_mg > 0
    &&& CAL_FACTOR_MIN_MILLI * known_mg <= delta * 1_000_000
    &&& delta * 1_000_000 <= CAL_FACTOR_MAX_MILLI * known_mg
}

/// The calibration factor, in thousandths, for a raw difference `delta` under
/// a reference of `known_mg` milligrams, rounded down.
pub open spec fn cal_factor_for(delta: int, known_mg: int) -> int {
    delta * 1_000_000 / known_mg
}

impl Nau7802State {
    /// The state after a tare on `burst`.
    pub open spec fn after_tare(self, burst: Seq<i32>) -> Nau7802State {
        Nau7802State {
            calibration: Calibration { zero_offset: trimmed_mean(burst) as i32, ..self.calibration },
            weight_mg: 0,
            stable: false,
            stable_count: 0,
            ..self
        }
    }

    /// The raw difference that a calibration on `burst` measures.
    pub open spec fn calibration_delta(self, burst: Seq<i32>) -> int {
        trimmed_mean(burst) - self.calibration.zero_offset
    }

    /// The state after a successful calibration on `burst` with a reference of
    /// `known_mg` milligrams.
    pub open spec fn after_calibration(self, burst: Seq<i32>, known_mg: int) -> Nau7802State {
        Nau7802State {
            calibration: Calibration {
                cal_factor_milli: cal_factor_for(self.calibration_delta(burst), known_mg) as u32,
                ..self.calibration
            },
            weight_mg: known_mg as i64,
            stable: false,
            stable_count: 0,
            ..self
        }
    }

    /// Sets the zero offset to the trimmed mean of `burst` and restarts the
    /// filter from zero.
    pub fn apply_tare(&mut self, burst: &Vec<i32>)
        requires
            old(self).wf(),
            burst_ok(burst@),
        ensures
            *final(self) == old(self).after_tare(burst@),
            final(self).wf(),
    {
        let mean = trimmed_mean_of(burst);
        self.calibration.zero_offset = mean;
        self.weight_mg = 0;
        self.stable = false;
        self.stable_count = 0;
    }

    /// Derives the calibration factor from `burst`, taken with `known_mg`
    /// milligrams on the scale, and commits it if it is plausible.
    pub fn apply_calibration(&mut self, burst: &Vec<i32>, known_mg: i64) -> (r: Result<
        (),
        Nau7802Error,
    >)
        requires
            old(self).wf(),
            burst_ok(burst@),
        ensures
            r is Ok <==> calibration_accepted(old(self).calibration_delta(burst@), known_mg as int),
            r is Ok ==> *final(self) == old(self).after_calibration(burst@, known_mg as int),
            r is Err ==> r == Err::<(), Nau7802Error>(Nau7802Error::CalibrationFailed),
            r is Err ==> *final(self) == *old(self),
            final(self).wf(),
    {
        let avg = trimmed_mean_of(burst);
        let delta: i32 = avg - self.calibration.zero_offset;
        if delta < MIN_CAL_DELTA {
            return Err(Nau7802Error::CalibrationFailed);
        }
        if known_mg <= 0 {
            return Err(Nau7802Error::CalibrationFailed);
        }
        let scaled: i64 = delta as i64 * 1_000_000;
        if known_mg > scaled / (CAL_FACTOR_MIN_MILLI as i64) {
            proof {
                let q = scaled as int / 10_000;
                assert(known_mg > q);
                assert(10_000 * known_mg > scaled) by (nonlinear_arith)
                    requires known_mg > q, q == scaled as int / 10_000, scaled >= 0;
            }
            return Err(Nau7802Error::CalibrationFailed);
        }
        proof {
            let q = scaled as int / 10_000;
            assert(10_000 * known_mg <= scaled) by (nonlinear_arith)
                requires known_mg <= q, q == scaled as int / 10_000, scaled >= 0;
        }
        // Here `known_mg` is at most `delta * 100`, so the product below fits.
        if scaled > (CAL_FACTOR_MAX_MILLI as i64) * known_mg {
            return Err(Nau7802Error::CalibrationFailed);
        }
        let factor = scaled / known_mg;
        proof {
            assert(10_000 <= factor <= 2_000_000) by (nonlinear_arith)
                requires
                    factor == scaled as int / known_mg as int,
                    10_000 * known_mg <= scaled,
                    scaled <= 2_000_000 * known_mg,
                    known_mg > 0,
            ;
            assert(known_mg <= WEIGHT_LIMIT_MG) by (nonlinear_arith)
                requires
                    10_000 * known_mg <= scaled,
                    scaled == delta * 1_000_000,
                    delta < 0x100_0000,
            ;
        }
        self.calibration.cal_factor_milli = factor as u32;
        self.weight_mg = known_mg;
        self.stable = false;
        self.stable_count = 0;
        Ok(())
    }
}

proof fn lemma_ascending_total()
    ensures
        total_ordering(ascending()),
{
}

/// Bounds on the sum of a sequence whose elements lie in `[lo, hi]`.
proof fn lemma_sum_bounds(s: Seq<i32>, lo: int, hi: int)
    requires
        forall|i: int| 0 <= i < s.len() ==> lo <= #[trigger] s[i] <= hi,
    ensures
        s.len() * lo <= sum_of(s) <= s.len() * hi,
    decreases s.len(),
{
    if s.len() > 0 {
        let t = s.drop_last();
        assert forall|i: int| 0 <= i < t.len() implies lo <= #[trigger] t[i] <= hi by {
            assert(t[i] == s[i]);
        }
        lemma_sum_bounds(t, lo, hi);
        assert(sum_of(s) == sum_of(t) + s.last());
        assert(lo <= s.last() <= hi) by {
            assert(s.last() == s[s.len() - 1]);
        }
        assert(s.len() * lo == t.len() * lo + lo) by (nonlinear_arith)
            requires s.len() == t.len() + 1;
        assert(s.len() * hi == t.len() * hi + hi) by (nonlinear_arith)
            requires s.len() == t.len() + 1;
    } else {
        assert(s.len() * lo == 0 && s.len() * hi == 0) by (nonlinear_arith)
            requires s.len() == 0;
    }
}

/// Sorting keeps every sample of a burst within the 24-bit range.
proof fn lemma_sorted_in_range(burst: Seq<i32>)
    requires
        burst_ok(burst),
    ensures
        burst.sort_by(ascending()).len() == BURST_LEN,
        forall|i: int|
            0 <= i < BURST_LEN ==> raw_in_range(#[trigger] burst.sort_by(ascending())[i] as int),
{
    broadcast use vstd::seq_lib::group_to_multiset_ensures;

    let sorted = burst.sort_by(ascending());
    lemma_ascending_total();
    burst.lemma_sort_by_ensures(ascending());
    assert(sorted.len() == burst.len()) by {
        vstd::seq_lib::to_multiset_len(sorted);
        vstd::seq_lib::to_multiset_len(burst);
    }
    assert forall|i: int| 0 <= i < BURST_LEN implies raw_in_range(#[trigger] sorted[i] as int) by {
        if !raw_in_range(sorted[i] as int) {
            assert(!burst.contains(sorted[i]));
            assert(sorted.contains(sorted[i]));
        }
    }
}

/// The trimmed mean of a burst is itself a 24-bit value.
pub proof fn lemma_trimmed_mean_in_range(burst: Seq<i32>)
    requires
        burst_ok(burst),
    ensures
        raw_in_range(trimmed_mean(burst)),
{
    let sorted = burst.sort_by(ascending());
    lemma_sorted_in_range(burst);
    let kept = sorted.subrange(BURST_TRIM as int, (BURST_LEN - BURST_TRIM) as int);
    assert forall|k: int| 0 <= k < kept.len() implies -0x80_0000 <= #[trigger] kept[k] <= 0x7F_FFFF by {
        assert(kept[k] == sorted[BURST_TRIM + k]);
    }
    lemma_sum_bounds(kept, -0x80_0000, 0x7F_FFFF);
    let total = sum_of(kept);
    assert(-0x80_0000 <= trunc_div(total, 20) <= 0x7F_FFFF) by (nonlinear_arith)
        requires
            20 * -0x80_0000 <= total <= 20 * 0x7F_FFFF,
    ;
}

/// Sorts a copy of `burst` in ascending order.
fn sorted_copy(burst: &Vec<i32>) -> (r: Vec<i32>)
    ensures
        r@.len() == burst@.len(),
        r@.to_multiset() == burst@.to_multiset(),
        sorted_by(r@, ascending()),
{
    broadcast use vstd::seq_lib::group_to_multiset_ensures;

    let mut v: Vec<i32> = Vec::new();
    let mut k: usize = 0;
    while k < burst.len()
        invariant
            k <= burst.len(),
            v@ == burst@.subrange(0, k as int),
        decreases burst.len() - k,
    {
        v.push(burst[k]);
        k = k + 1;
    }
    assert(v@ =~= burst@);
    let n = v.len();
    let mut i: usize = 1;
    while i < n
        invariant
            v@.len() == n,
            n == burst@.len(),
            v@.to_multiset() == burst@.to_multiset(),
            forall|a: int, b: int| 0 <= a < b < i && b < n ==> v@[a] <= v@[b],
        decreases n - i,
    {
        let mut j: usize = i;
        while j > 0 && v[j - 1] > v[j]
            invariant
                0 <= j <= i < n,
                v@.len() == n,
                n == burst@.len(),
                v@.to_multiset() == burst@.to_multiset(),
                forall|a: int, b: int|
                    0 <= a < b <= i && a != j && b != j ==> v@[a] <= v@[b],
                forall|b: int| j < b <= i ==> v@[j as int] <= v@[b],
            decreases j,
        {
            let x = v[j];
            let y = v[j - 1];
            let ghost before = v@;
            v.set(j - 1, x);
            let ghost mid = v@;
            v.set(j, y);
            proof {
                assert(mid == before.update(j - 1, x));
                assert(v@ == mid.update(j as int, y));
                broadcast use vstd::multiset::group_multiset_axioms;
                vstd::seq_lib::to_multiset_update(before, j - 1, x);
                vstd::seq_lib::to_multiset_update(mid, j as int, y);
                assert(before[j - 1] == y);
                assert(mid[j as int] == x);
                assert(mid.to_multiset() == before.to_multiset().insert(x).remove(y));
                assert(v@.to_multiset() == mid.to_multiset().insert(y).remove(x));
                assert(before.contains(y)) by { assert(before[j - 1] == y); }
                vstd::seq_lib::to_multiset_contains(before, y);
                assert(v@.to_multiset() =~= before.to_multiset());
            }
            j = j - 1;
        }
        i = i + 1;
    }
    v
}

/// Mean of a burst after trimming its extremes (see `trimmed_mean`).
pub fn trimmed_mean_of(burst: &Vec<i32>) -> (r: i32)
    requires
        burst_ok(burst@),
    ensures
        r == trimmed_mean(burst@),
        raw_in_range(r as int),
{
    let v = sorted_copy(burst);
    let ghost sorted = burst@.sort_by(ascending());
    proof {
        lemma_ascending_total();
        burst@.lemma_sort_by_ensures(ascending());
        lemma_sorted_unique(v@, sorted, ascending());
        assert(v@ == sorted);
        lemma_sorted_in_range(burst@);
    }
    let lo = BURST_TRIM;
    let hi = BURST_LEN - BURST_TRIM;
    let mut sum: i64 = 0;
    let mut i: usize = lo;
    while i < hi
        invariant
            lo == BURST_TRIM,
            hi == BURST_LEN - BURST_TRIM,
            lo <= i <= hi,
            v@.len() == BURST_LEN,
            forall|k: int| 0 <= k < v@.len() ==> raw_in_range(#[trigger] v@[k] as int),
            sum == sum_of(v@.subrange(lo as int, i as int)),
            -0x80_0000 * (i - lo) <= sum <= 0x80_0000 * (i - lo),
        decreases hi - i,
    {
        proof {
            assert(v@.subrange(lo as int, i + 1).drop_last() =~= v@.subrange(lo as int, i as int));
        }
        sum = sum + v[i] as i64;
        i = i + 1;
    }
    let mean = trunc_div_exec(sum, (hi - lo) as i64);
    proof {
        lemma_trimmed_mean_in_range(burst@);
    }
    mean as i32
}

impl Default for Nau7802State {
    fn default() -> (r: Nau7802State)
        ensures
            r == Nau7802State::new_spec(),
    {
        Nau7802State::new()
    }
}

/// A sample weight from a 24-bit difference stays within the weight bound.
proof fn lemma_weight_bounded(d: int, c: int)
    requires
        -0x100_0000 < d < 0x100_0000,
        CAL_FACTOR_MIN_MILLI <= c <= CAL_FACTOR_MAX_MILLI,
    ensures
        -WEIGHT_LIMIT_MG <= d * 1_000_000 / c <= WEIGHT_LIMIT_MG,
{
    assert(-WEIGHT_LIMIT_MG <= d * 1_000_000 / c <= WEIGHT_LIMIT_MG) by (nonlinear_arith)
        requires
            -0x100_0000 < d < 0x100_0000,
            10_000 <= c <= 2_000_000,
    ;
}

/// A weight scaled by a factor of at most a thousand fits easily in an `i64`.
proof fn lemma_scaled_bounded(x: int, k: int)
    requires
        -WEIGHT_LIMIT_MG <= x <= WEIGHT_LIMIT_MG,
        0 <= k <= 1000,
    ensures
        -WEIGHT_LIMIT_MG * 1000 <= x * k <= WEIGHT_LIMIT_MG * 1000,
{
    assert(-2_000_000_000 * 1000 <= x * k <= 2_000_000_000 * 1000) by (nonlinear_arith)
        requires
            -2_000_000_000 <= x <= 2_000_000_000,
            0 <= k <= 1000,
    ;
}

/// A weighted mean (rounded down) of two values within the weight bound stays
/// within it.
proof fn lemma_blend_bounded(w: int, s: int, kw: int, total: int)
    requires
        -WEIGHT_LIMIT_MG <= w <= WEIGHT_LIMIT_MG,
        -WEIGHT_LIMIT_MG <= s <= WEIGHT_LIMIT_MG,
        0 <= kw <= total,
        total == 1000,
    ensures
        -WEIGHT_LIMIT_MG <= (w * kw + s * (total - kw)) / total <= WEIGHT_LIMIT_MG,
{
    assert(-WEIGHT_LIMIT_MG <= (w * kw + s * (total - kw)) / total <= WEIGHT_LIMIT_MG)
        by (nonlinear_arith)
        requires
            -2_000_000_000 <= w <= 2_000_000_000,
            -2_000_000_000 <= s <= 2_000_000_000,
            0 <= kw <= total,
            total == 1000,
    ;
}

} // verus!
