//! What holds of the sources.

use crate::float::Single;
use crate::source::{
    elapsed, evaluates, ordered, passes, reached, repeats, span, started, zero_after, KindView,
    Level, PhaseReply,
};
use vstd::arithmetic::div_mod::{
    lemma_fundamental_div_mod, lemma_fundamental_div_mod_converse, lemma_mod_bound,
};
use vstd::prelude::*;

verus! {

// ---- remainders ----

/// The least step from `x` to a number that leaves the remainder of `target`.
proof fn lemma_next(x: int, target: int, per: int)
    requires
        per > 0,
        0 <= target <= per,
    ensures
        ({
            let z = (per + target - x % per) % per;
            &&& 0 <= z < per
            &&& (x + z) % per == target % per
            &&& forall|t: int| 0 <= t < z ==> #[trigger] ((x + t) % per) != target % per
        }),
{
    let m = x % per;
    let z = (per + target - m) % per;
    lemma_mod_bound(x, per);
    lemma_mod_bound(per + target - m, per);
    lemma_fundamental_div_mod(x, per);
    lemma_fundamental_div_mod(per + target - m, per);
    lemma_fundamental_div_mod(target, per);
    lemma_mod_bound(target, per);
    let q = x / per;
    let k = (per + target - m) / per;
    let c = target / per;
    let goal = target % per;
    assert(x + z == (q + 1 - k + c) * per + goal) by (nonlinear_arith)
        requires
            x == per * q + m,
            per + target - m == per * k + z,
            target == per * c + goal,
    ;
    lemma_fundamental_div_mod_converse(x + z, per, q + 1 - k + c, goal);
    assert forall|t: int| 0 <= t < z implies #[trigger] ((x + t) % per) != goal by {
        if (x + t) % per == goal {
            lemma_fundamental_div_mod(x + t, per);
            lemma_fundamental_div_mod(x + z, per);
            let a = (x + t) / per;
            let b = (x + z) / per;
            assert(z - t == (b - a) * per) by (nonlinear_arith)
                requires
                    x + t == per * a + goal,
                    x + z == per * b + goal,
            ;
            assert(false) by (nonlinear_arith)
                requires
                    0 < z - t < per,
                    z - t == (b - a) * per,
            ;
        }
    }
}

/// A whole period more leaves the same remainder.
proof fn lemma_period_more(x: int, per: int)
    requires
        per > 0,
    ensures
        (x + per) % per == x % per,
{
    vstd::arithmetic::div_mod::lemma_mod_add_multiples_vanish(x, per);
    assert(x + per == per + x);
}

// ---- squares ----

/// A square wave without phase starts with its low samples, and the high ones follow
/// them.
pub proof fn law_square_is_low_first(
    high: Single,
    low: Single,
    high_samples: u32,
    low_samples: u32,
    rel_phase: bool,
    sample: u64,
    after: KindView,
    level: Level,
)
    requires
        sample < high_samples + low_samples,
        evaluates(
            (KindView::AdvSquare { high, low, high_samples, low_samples, phase: 0, rel_phase }),
            sample,
            after,
            level,
        ),
    ensures
        level == Level::Exact(
            if sample < low_samples {
                low
            } else {
                high
            },
        ),
{
    vstd::arithmetic::div_mod::lemma_small_mod(
        sample as nat,
        (high_samples + low_samples) as nat,
    );
}

/// A square wave repeats itself after its low and its high samples.
pub proof fn law_square_repeats(
    kind: KindView,
    sample: u64,
    later: u64,
    after: KindView,
    level: Level,
    later_after: KindView,
    later_level: Level,
)
    requires
        kind.wf(),
        kind matches KindView::AdvSquare { high_samples, low_samples, .. } && later == sample
            + high_samples + low_samples,
        later <= i64::MAX,
        evaluates(kind, sample, after, level),
        evaluates(kind, later, later_after, later_level),
    ensures
        later_level == level,
{
    if let KindView::AdvSquare { high_samples, low_samples, phase, .. } = kind {
        lemma_period_more((sample + phase) as int, (high_samples + low_samples) as int);
    }
}

/// The phase zero of a square wave is its next step from low to high: it is at most a
/// period away, there the wave is high and just before it low, and there is no such
/// step earlier.
pub proof fn law_phase_zero_is_step_up(kind: KindView, sample: u64, t: int)
    requires
        kind.wf(),
        sample <= i64::MAX,
        kind matches KindView::AdvSquare { high_samples, low_samples, .. } && high_samples > 0
            && low_samples > 0,
    ensures
        ({
            let z = zero_after(kind, sample)->At_0;
            &&& zero_after(kind, sample) is At
            &&& sample <= z < sample + kind->high_samples + kind->low_samples
            &&& steps_up(kind, z as int)
            &&& sample <= t < z ==> !steps_up(kind, t)
        }),
{
    if let KindView::AdvSquare { high_samples, low_samples, phase, .. } = kind {
        let per = high_samples + low_samples;
        let x = sample + phase;
        lemma_next(x, low_samples as int, per);
        vstd::arithmetic::div_mod::lemma_small_mod(low_samples as nat, per as nat);
        let step = (per + low_samples - x % per) % per;
        let z = sample + step;
        lemma_low_before(z + phase, low_samples as int, per);
        assert(x + step == z + phase);
        if sample <= t < z {
            assert(x + (t - sample) == t + phase);
            assert((x + (t - sample)) % per != low_samples);
            lemma_only_step(t + phase, low_samples as int, per);
        }
    }
}

/// Whether a square wave is high at `t`.
pub open spec fn is_high(kind: KindView, t: int) -> bool {
    (t + kind->AdvSquare_phase) % (kind->high_samples + kind->low_samples) >= kind->low_samples
}

/// Whether a square wave steps from low to high at `t`.
pub open spec fn steps_up(kind: KindView, t: int) -> bool {
    is_high(kind, t) && !is_high(kind, t - 1)
}

/// A square wave has the level that it is said to have.
pub proof fn law_square_has_its_level(kind: KindView, sample: u64, after: KindView, level: Level)
    requires
        kind is AdvSquare,
        sample <= i64::MAX,
        evaluates(kind, sample, after, level),
    ensures
        level == Level::Exact(
            if is_high(kind, sample as int) {
                kind->high
            } else {
                kind->low
            },
        ),
        after == kind,
{
}

proof fn lemma_low_before(x: int, low: int, per: int)
    requires
        0 < low < per,
        x % per == low,
    ensures
        (x - 1) % per == low - 1,
{
    lemma_fundamental_div_mod(x, per);
    let q = x / per;
    assert(x - 1 == q * per + (low - 1)) by (nonlinear_arith)
        requires
            x == per * q + low,
    ;
    lemma_fundamental_div_mod_converse(x - 1, per, q, low - 1);
}

proof fn lemma_only_step(x: int, low: int, per: int)
    requires
        0 < low < per,
        x % per != low,
    ensures
        !(x % per >= low && (x - 1) % per < low),
{
    lemma_mod_bound(x, per);
    lemma_fundamental_div_mod(x, per);
    let q = x / per;
    let m = x % per;
    if m > low {
        assert(x - 1 == q * per + (m - 1)) by (nonlinear_arith)
            requires
                x == per * q + m,
        ;
        lemma_fundamental_div_mod_converse(x - 1, per, q, m - 1);
    }
}

// ---- points ----

/// The phase zero of a wave made of points is the next start of a pass: it is at most
/// a pass away, a whole number of passes from its phase, and there is none earlier.
pub proof fn law_phase_zero_is_pass_start(kind: KindView, sample: u64, t: int)
    requires
        kind.wf(),
        sample <= i64::MAX,
        kind matches KindView::Arb { values, .. } && span(values) > 0,
    ensures
        ({
            let z = zero_after(kind, sample)->At_0;
            let per = span(kind->values);
            &&& zero_after(kind, sample) is At
            &&& sample <= z < sample + per
            &&& (z - kind->Arb_phase) % per == 0
            &&& sample <= t < z ==> (t - kind->Arb_phase) % per != 0
        }),
{
    if let KindView::Arb { phase, values, .. } = kind {
        let per = span(values);
        let x = sample - phase;
        lemma_next(x, 0, per);
        vstd::arithmetic::div_mod::lemma_small_mod(0, per as nat);
        let step = (per - x % per) % per;
        assert(x + step == sample + step - phase);
        if sample <= t < sample + step {
            assert((x + (t - sample)) % per != 0);
            assert(x + (t - sample) == t - phase);
        }
    }
}

/// There is one point that a time has come to.
proof fn lemma_reached_is_one(values: Seq<(i64, Single)>, from: int, time: int, k: int, l: int)
    requires
        ordered(values),
        0 <= from,
        reached(values, from, time, k),
        reached(values, from, time, l),
    ensures
        k == l,
{
    if k < l {
        assert(values[k + 1].0 <= values[l].0);
        assert(values[l].0 <= time);
    }
    if l < k {
        assert(values[l + 1].0 <= values[k].0);
        assert(values[k].0 <= time);
    }
}

/// When no pass is left, the last value stays.
pub proof fn law_last_value_stays(kind: KindView, sample: u64, after: KindView, level: Level)
    requires
        kind.wf(),
        sample <= i64::MAX,
        evaluates(kind, sample, after, level),
        kind matches KindView::Arb { values, start_time, repeat_count, .. } && !repeats(
            repeat_count,
        ) && sample >= start_time + span(values),
    ensures
        level == Level::Exact(kind->values.last().1),
{
    if let KindView::Arb { values, start_time, index, repeat_count, .. } = kind {
        let k = after->index;
        let time = elapsed(sample, start_time);
        assert(reached(values, index, time, k));
        if k + 1 < values.len() {
            assert(values[k + 1].0 <= values[values.len() - 1].0);
        }
    }
}

/// A wave that repeats for ever has the same level a pass later.
pub proof fn law_endless_wave_repeats(
    kind: KindView,
    sample: u64,
    later: u64,
    after: KindView,
    level: Level,
    later_after: KindView,
    later_level: Level,
)
    requires
        kind.wf(),
        kind matches KindView::Arb { values, start_time, index, repeat_count, .. } && index == 0
            && repeat_count == -1 && sample >= start_time && later == sample + span(values),
        later <= i64::MAX,
        evaluates(kind, sample, after, level),
        evaluates(kind, later, later_after, later_level),
    ensures
        later_level == level,
{
    if let KindView::Arb { values, start_time, index, repeat_count, .. } = kind {
        let per = span(values);
        let time = sample - start_time;
        let q = time / per;
        let m = time % per;
        assert(values[0].0 <= values[values.len() - 1].0);
        lemma_fundamental_div_mod(time, per);
        lemma_mod_bound(time, per);
        assert(time + per == (q + 1) * per + m) by (nonlinear_arith)
            requires
                time == per * q + m,
        ;
        lemma_fundamental_div_mod_converse(time + per, per, q + 1, m);
        assert(time - q * per == m) by (nonlinear_arith)
            requires
                time == per * q + m,
        ;
        assert(time + per - (q + 1) * per == m);
        lemma_reached_is_one(values, 0, m, after->index, later_after->index);
    }
}

/// A wave whose phase is left open starts with its first point at the sample at which
/// it is put in place.
pub proof fn law_open_phase_starts_now(
    kind: KindView,
    sample: u64,
    prev: Option<KindView>,
    reply: PhaseReply,
    after: KindView,
    level: Level,
)
    requires
        kind.wf(),
        sample <= i64::MAX,
        kind matches KindView::Arb { phase, values, index, .. } && phase < 0 && index == 0 && (
        values.len() > 1 ==> values[1].0 > 0),
        evaluates(started(kind, sample, prev, reply), sample, after, level),
    ensures
        match level {
            Level::Exact(v) => v == kind->values[0].1,
            Level::Blend { from, done, .. } => from == kind->values[0].1 && done == 0,
            _ => false,
        },
{
    if let KindView::Arb { values, index, repeat_count, .. } = kind {
        let per = span(values);
        assert(values[0].0 <= values[values.len() - 1].0);
        if per > 0 {
            vstd::arithmetic::div_mod::lemma_small_mod(0, per as nat);
            assert(0int / per == 0) by (nonlinear_arith)
                requires
                    per > 0,
            ;
        }
        assert(passes(repeat_count, 0, per) == 0);
        let k = after->index;
        assert(0 * per == 0);
        assert(reached(values, 0, 0, k));
        if k >= 1 {
            assert(values[1].0 <= values[k].0);
            assert(values[k].0 <= 0);
        }
    }
}

/// Whether another sample was asked for before does not change the level: asking for
/// `sample` and then for `later` gives the level, and leaves the source, that asking
/// for `later` alone does.
pub proof fn law_order_of_asking(
    kind: KindView,
    sample: u64,
    later: u64,
    between: KindView,
    level: Level,
    after: KindView,
    later_level: Level,
    alone: KindView,
    alone_level: Level,
)
    requires
        kind.wf(),
        sample <= later <= i64::MAX,
        evaluates(kind, sample, between, level),
        evaluates(between, later, after, later_level),
        evaluates(kind, later, alone, alone_level),
    ensures
        later_level == alone_level,
        after == alone,
{
    if let KindView::Arb { values, start_time, index, repeat_count, .. } = kind {
        let per = span(values);
        assert(values[0].0 <= values[values.len() - 1].0);
        let ts = elapsed(sample, start_time);
        let tl = elapsed(later, start_time);
        let over1 = passes(repeat_count, ts, per);
        let over = passes(repeat_count, tl, per);
        let repeat2 = between->repeat_count;
        let start2 = between->start_time;
        if per > 0 {
            assert(ts / per >= 0 && tl / per >= 0 && (ts / per) * per <= ts) by (nonlinear_arith)
                requires
                    per > 0,
                    ts >= 0,
                    tl >= 0,
            ;
        }
        if sample < start_time {
            if per > 0 {
                assert(0int / per == 0) by (nonlinear_arith)
                    requires
                        per > 0,
                ;
            }
            assert(over1 == 0);
            assert(over1 * per == 0);
        }
        lemma_passes_left(repeat_count, ts, tl, per);
        let over2 = passes(repeat2, tl - over1 * per, per);
        assert(over1 * per <= ts) by {
            lemma_passes_fit(repeat_count, ts, per);
        }
        assert(elapsed(later, start2) == tl - over1 * per);
        assert(over1 + over2 == over);
        assert((over1 + over2) * per == over1 * per + over2 * per) by (nonlinear_arith);
        let rest = tl - over * per;
        let from1 = if over1 == 0 {
            index
        } else {
            0
        };
        let from2 = if over2 == 0 {
            between->index
        } else {
            0
        };
        let from = if over == 0 {
            index
        } else {
            0
        };
        assert(reached(values, from2, rest, after->index));
        assert(reached(values, from, rest, alone->index));
        if over2 == 0 {
            assert(from == from1);
            assert forall|j: int| from < j <= after->index implies (#[trigger] values[j]).0
                <= rest by {
                if j <= between->index {
                    assert(values[j].0 <= ts - over1 * per);
                }
            }
            assert(reached(values, from, rest, after->index));
        }
        lemma_passes_nonnegative(repeat_count, ts, per);
        lemma_passes_nonnegative(repeat2, tl - over1 * per, per);
        lemma_reached_is_one(values, from, rest, after->index, alone->index);
    }
}

proof fn lemma_passes_nonnegative(repeat_count: i64, time: int, per: int)
    requires
        time >= 0,
        per >= 0,
        per == 0 ==> !repeats(repeat_count),
    ensures
        passes(repeat_count, time, per) >= 0,
{
    if repeats(repeat_count) {
        assert(time / per >= 0) by (nonlinear_arith)
            requires
                per > 0,
                time >= 0,
        ;
    }
}

proof fn lemma_passes_fit(repeat_count: i64, time: int, per: int)
    requires
        time >= 0,
        per >= 0,
        per == 0 ==> !repeats(repeat_count),
    ensures
        passes(repeat_count, time, per) * per <= time,
{
    lemma_passes_nonnegative(repeat_count, time, per);
    let over = passes(repeat_count, time, per);
    if repeats(repeat_count) {
        let q = time / per;
        lemma_fundamental_div_mod(time, per);
        lemma_mod_bound(time, per);
        assert(over * per <= time) by (nonlinear_arith)
            requires
                over <= q,
                per > 0,
                time == per * q + time % per,
                time % per >= 0,
        ;
    } else {
        assert(0 * per == 0);
    }
}

/// The passes up to a time and those after it make up all.
proof fn lemma_passes_left(repeat_count: i64, first: int, second: int, per: int)
    requires
        0 <= first <= second,
        per >= 0,
        per == 0 ==> !repeats(repeat_count),
        repeat_count != 0,
    ensures
        ({
            let over1 = passes(repeat_count, first, per);
            let left = if repeat_count > 1 {
                (repeat_count - over1) as i64
            } else {
                repeat_count
            };
            over1 + passes(left, second - over1 * per, per) == passes(repeat_count, second, per)
        }),
{
    let over1 = passes(repeat_count, first, per);
    lemma_passes_nonnegative(repeat_count, first, per);
    if repeats(repeat_count) {
        let rest = second - over1 * per;
        let q = rest / per;
        let m = rest % per;
        lemma_fundamental_div_mod(rest, per);
        lemma_mod_bound(rest, per);
        assert(second == (q + over1) * per + m) by (nonlinear_arith)
            requires
                second - over1 * per == per * q + m,
        ;
        lemma_fundamental_div_mod_converse(second, per, q + over1, m);
        assert(first / per <= second / per) by (nonlinear_arith)
            requires
                per > 0,
                first <= second,
        ;
    }
}

} // verus!
