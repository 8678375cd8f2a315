use vstd::prelude::*;

use crate::arith::abs;
use crate::scale_state::{
    blend, burst_ok, cal_factor_for, calibration_accepted, lemma_trimmed_mean_in_range,
    trimmed_mean, weight_of_raw, Nau7802State, CAL_FACTOR_MAX_MILLI, CAL_FACTOR_MIN_MILLI,
    FAST_SETTLE_STEP_MG, MIN_CAL_DELTA, STABLE_COUNT_THRESHOLD, WEIGHT_LIMIT_MG,
};

verus! {

/// After a tare on a burst, the trimmed mean of that same burst reads as
/// zero, and feeding it to the filter keeps the weight at exactly zero.
pub proof fn lemma_tare_reads_zero(s: Nau7802State, burst: Seq<i32>)
    requires
        s.wf(),
        burst_ok(burst),
    ensures
        ({
            let t = s.after_tare(burst);
            let mean = trimmed_mean(burst);
            &&& weight_of_raw(
                mean,
                t.calibration.zero_offset as int,
                t.calibration.cal_factor_milli as int,
            ) == 0
            &&& t.weight_mg == 0
            &&& t.after_sample(mean as i32).weight_mg == 0
        }),
{
    lemma_trimmed_mean_in_range(burst);
    let t = s.after_tare(burst);
    let mean = trimmed_mean(burst);
    assert(t.calibration.zero_offset as int == mean);
    let c = t.calibration.cal_factor_milli as int;
    assert((mean - mean) * 1_000_000 / c == 0) by (nonlinear_arith)
        requires
            c > 0,
    ;
    assert(blend(0, 0, t.filter_alpha_permille as int) == 0) by (nonlinear_arith);
}

/// The filter never leaves a band around zero that holds both its current
/// value and the new sample.
pub proof fn lemma_blend_within(filtered: int, sample: int, alpha: int, bound: int)
    requires
        abs(filtered) <= bound,
        abs(sample) <= bound,
        0 <= alpha <= 1000,
    ensures
        abs(blend(filtered, sample, alpha)) <= bound,
{
    if abs(sample - filtered) > FAST_SETTLE_STEP_MG {
        assert(-bound <= (3 * filtered + 7 * sample) / 10 <= bound) by (nonlinear_arith)
            requires
                -bound <= filtered <= bound,
                -bound <= sample <= bound,
        ;
    } else {
        assert(-bound <= (filtered * (1000 - alpha) + sample * alpha) / 1000 <= bound)
            by (nonlinear_arith)
            requires
                -bound <= filtered <= bound,
                -bound <= sample <= bound,
                0 <= alpha <= 1000,
        ;
    }
}

/// Feeding samples through the filter keeps its calibration and smoothing
/// constant, and keeps the weight within any band (up to the weight limit)
/// that holds the starting weight and the weight of every sample.
pub proof fn lemma_run_within(s: Nau7802State, raws: Seq<i32>, bound: int)
    requires
        s.filter_alpha_permille <= 1000,
        abs(s.weight_mg as int) <= bound <= WEIGHT_LIMIT_MG,
        forall|i: int|
            0 <= i < raws.len() ==> abs(
                #[trigger] weight_of_raw(
                    raws[i] as int,
                    s.calibration.zero_offset as int,
                    s.calibration.cal_factor_milli as int,
                ),
            ) <= bound,
    ensures
        run(s, raws).calibration == s.calibration,
        run(s, raws).filter_alpha_permille == s.filter_alpha_permille,
        abs(run(s, raws).weight_mg as int) <= bound,
    decreases raws.len(),
{
    if raws.len() > 0 {
        let prefix = raws.drop_last();
        assert forall|i: int| 0 <= i < prefix.len() implies abs(
            #[trigger] weight_of_raw(
                prefix[i] as int,
                s.calibration.zero_offset as int,
                s.calibration.cal_factor_milli as int,
            ),
        ) <= bound by {
            assert(prefix[i] == raws[i]);
        }
        lemma_run_within(s, prefix, bound);
        let before = run(s, prefix);
        let last = raws.last();
        assert(abs(
            weight_of_raw(
                raws[raws.len() - 1] as int,
                s.calibration.zero_offset as int,
                s.calibration.cal_factor_milli as int,
            ),
        ) <= bound);
        lemma_blend_within(
            before.weight_mg as int,
            weight_of_raw(
                last as int,
                s.calibration.zero_offset as int,
                s.calibration.cal_factor_milli as int,
            ),
            s.filter_alpha_permille as int,
            bound,
        );
    }
}

/// After a tare, samples that each read within `tolerance` milligrams of
/// zero under the new offset (as the samples of the tare burst itself do,
/// for a tolerance of their spread) keep the filtered weight within
/// `tolerance` of zero.
pub proof fn lemma_tare_then_burst_near_zero(
    s: Nau7802State,
    burst: Seq<i32>,
    raws: Seq<i32>,
    tolerance: int,
)
    requires
        s.wf(),
        burst_ok(burst),
        0 <= tolerance <= WEIGHT_LIMIT_MG,
        forall|i: int|
            0 <= i < raws.len() ==> abs(
                #[trigger] weight_of_raw(
                    raws[i] as int,
                    trimmed_mean(burst),
                    s.calibration.cal_factor_milli as int,
                ),
            ) <= tolerance,
    ensures
        abs(run(s.after_tare(burst), raws).weight_mg as int) <= tolerance,
{
    lemma_trimmed_mean_in_range(burst);
    let t = s.after_tare(burst);
    assert(t.calibration.zero_offset as int == trimmed_mean(burst));
    lemma_run_within(t, raws, tolerance);
}

/// Calibrating with a reference whose raw difference is exactly `factor`
/// thousandths of a raw unit per gram (a plausible factor, over the minimum
/// difference) is accepted and commits that very factor.
pub proof fn lemma_calibration_recovers_factor(
    s: Nau7802State,
    burst: Seq<i32>,
    known_mg: int,
    factor_milli: int,
)
    requires
        s.wf(),
        burst_ok(burst),
        known_mg > 0,
        CAL_FACTOR_MIN_MILLI <= factor_milli <= CAL_FACTOR_MAX_MILLI,
        s.calibration_delta(burst) >= MIN_CAL_DELTA,
        s.calibration_delta(burst) * 1_000_000 == factor_milli * known_mg,
    ensures
        calibration_accepted(s.calibration_delta(burst), known_mg),
        s.after_calibration(burst, known_mg).calibration.cal_factor_milli == factor_milli,
        s.after_calibration(burst, known_mg).calibration.zero_offset
            == s.calibration.zero_offset,
{
    let d = s.calibration_delta(burst);
    assert(CAL_FACTOR_MIN_MILLI * known_mg <= d * 1_000_000 <= CAL_FACTOR_MAX_MILLI * known_mg)
        by (nonlinear_arith)
        requires
            d * 1_000_000 == factor_milli * known_mg,
            known_mg > 0,
            10_000 <= factor_milli <= 2_000_000,
    ;
    assert(cal_factor_for(d, known_mg) == factor_milli) by (nonlinear_arith)
        requires
            d * 1_000_000 == factor_milli * known_mg,
            known_mg > 0,
    ;
}

/// A jump larger than the fast-settle step is blended at seven tenths, so
/// the error left after one update is three tenths of the jump (rounded down);
/// a smaller jump takes the ordinary exponential path with the configured
/// constant.
pub proof fn lemma_fast_settle(filtered: int, sample: int, alpha: int)
    ensures
        abs(sample - filtered) > FAST_SETTLE_STEP_MG ==> blend(filtered, sample, alpha) - sample
            == (3 * (filtered - sample)) / 10,
        abs(sample - filtered) <= FAST_SETTLE_STEP_MG ==> blend(filtered, sample, alpha) == (
        filtered * (1000 - alpha) + sample * alpha) / 1000,
{
    assert((3 * filtered + 7 * sample) / 10 - sample == (3 * (filtered - sample)) / 10)
        by (nonlinear_arith);
}

/// The state after feeding the samples `raws` through the filter in order.
pub open spec fn run(s: Nau7802State, raws: Seq<i32>) -> Nau7802State
    decreases raws.len(),
{
    if raws.len() == 0 {
        s
    } else {
        run(s, raws.drop_last()).after_sample(raws.last())
    }
}

/// Whether every update of the run from `s` over `raws` is quiet.
pub open spec fn all_quiet(s: Nau7802State, raws: Seq<i32>) -> bool {
    forall|i: int| 0 <= i < raws.len() ==> #[trigger] run(s, raws.take(i)).is_quiet(raws[i])
}

/// From an unsettled state with a cleared counter, a run of quiet updates
/// makes the weight stable exactly once it is `STABLE_COUNT_THRESHOLD`
/// updates long; the counter counts the updates and saturates.
pub proof fn lemma_debounce(s: Nau7802State, raws: Seq<i32>)
    requires
        s.stable_count == 0,
        !s.stable,
        all_quiet(s, raws),
    ensures
        run(s, raws).stable_count == (if raws.len() < 255 { raws.len() as int } else { 255 }),
        run(s, raws).stable == (raws.len() >= STABLE_COUNT_THRESHOLD),
    decreases raws.len(),
{
    if raws.len() > 0 {
        let k = raws.len() - 1;
        let prefix = raws.drop_last();
        assert forall|i: int| 0 <= i < prefix.len() implies #[trigger] run(s, prefix.take(i)).is_quiet(
            prefix[i],
        ) by {
            assert(prefix.take(i) =~= raws.take(i));
            assert(run(s, raws.take(i)).is_quiet(raws[i]));
        }
        lemma_debounce(s, prefix);
        assert(raws.take(k) =~= prefix);
        assert(run(s, raws.take(k)).is_quiet(raws[k]));
    }
}

/// An update that moves the filtered weight by the threshold or more revokes
/// stability at once and clears the counter.
pub proof fn lemma_noisy_update_revokes(s: Nau7802State, raw: i32)
    requires
        !s.is_quiet(raw),
    ensures
        !s.after_sample(raw).stable,
        s.after_sample(raw).stable_count == 0,
{
}

} // verus!
