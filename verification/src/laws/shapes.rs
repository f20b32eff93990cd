//! What holds of the shapes that sources put out, and of one source taking the place
//! of another.

use crate::float::Single;
use crate::laws::waves::law_order_of_asking;
use crate::source::{
    arb_fault, elapsed, evaluates, level_from, ordered, pass_count, passes, phase_needed, reached,
    span, started, zero_after, KindView, Level, PhaseReply, PhaseRequest, PhaseZero,
};
use crate::usb::transfer::gives;
use vstd::arithmetic::div_mod::{
    lemma_fundamental_div_mod, lemma_fundamental_div_mod_converse, lemma_mod_bound, lemma_small_mod,
};
use vstd::prelude::*;

verus! {

// ---- points ----

/// Points make a wave if there are some, the first is at time zero, none is earlier
/// than the one before it, and a wave that repeats takes time. Otherwise the first of
/// these that fails is complained of.
pub proof fn law_points_make_a_wave(values: Seq<(i64, Single)>, repeat_count: i64)
    ensures
        ({
            let fault = arb_fault(values, repeat_count);
            let in_order = forall|i: int|
                0 < i < values.len() ==> values[i - 1].0 <= (#[trigger] values[i]).0;
            &&& fault is None <==> values.len() > 0 && values[0].0 == 0 && in_order && (
            values[values.len() - 1].0 > 0 || repeat_count == 1)
            &&& values.len() == 0 ==> fault == Some("Arb wave must have at least one point."@)
            &&& values.len() > 0 && values[0].0 != 0 ==> fault == Some(
                "Arb wave first point must have t=0."@,
            )
            &&& values.len() > 0 && values[0].0 == 0 && !in_order ==> fault == Some(
                "Arb wave points must be in time order."@,
            )
            &&& values.len() > 0 && values[0].0 == 0 && in_order && values[values.len() - 1].0 == 0
                && repeat_count != 1 ==> fault == Some(
                "Arb wave with repeat must have nonzero period."@,
            )
        }),
{
    let in_order = forall|i: int|
        0 < i < values.len() ==> values[i - 1].0 <= (#[trigger] values[i]).0;
    if values.len() > 0 && values[0].0 == 0 {
        if in_order {
            assert forall|i: int, j: int| 0 <= i <= j < values.len() implies (#[trigger] values[i]).0
                <= (#[trigger] values[j]).0 by {
                lemma_in_order(values, i, j);
            }
        } else {
            let i = choose|i: int|
                0 < i < values.len() && !(values[i - 1].0 <= (#[trigger] values[i]).0);
            assert(!(values[i - 1].0 <= values[i].0));
            assert(!ordered(values));
        }
        if ordered(values) {
            assert(values[0].0 <= values[values.len() - 1].0);
        }
    }
}

proof fn lemma_in_order(values: Seq<(i64, Single)>, i: int, j: int)
    requires
        0 <= i <= j < values.len(),
        forall|k: int| 0 < k < values.len() ==> values[k - 1].0 <= (#[trigger] values[k]).0,
    ensures
        values[i].0 <= values[j].0,
    decreases j - i,
{
    if i < j {
        lemma_in_order(values, i, j - 1);
        assert(values[j - 1].0 <= values[j].0);
    }
}

/// A number of passes that is zero means one; every other number means itself.
pub proof fn law_no_passes_are_one(repeat_count: i64)
    ensures
        pass_count(0) == 1,
        repeat_count != 0 ==> pass_count(repeat_count) == repeat_count,
{
}

/// Where a wave of points is, `elapsed` samples after its start, as long as it runs:
/// every pass is like the first, and there are as many as were asked for, or no end of
/// them where -1 was asked for.
pub open spec fn runs(repeat_count: i64, elapsed: int, per: int) -> bool {
    repeat_count == -1 || (repeat_count >= 1 && elapsed < repeat_count * per)
}

/// A wave of points is the straight line between neighbouring points: at a time between
/// two of them it has gone as far from the one to the other as that time has, and the
/// next point is reached when the time of the next point comes.
pub proof fn law_line_between_points(
    kind: KindView,
    sample: u64,
    after: KindView,
    level: Level,
    k: int,
)
    requires
        kind.wf(),
        sample <= i64::MAX,
        evaluates(kind, sample, after, level),
        kind matches KindView::Arb { start_time, values, index, repeat_count, .. } && {
            let per = values[values.len() - 1].0;
            &&& index == 0
            &&& per > 0
            &&& start_time <= sample
            &&& runs(repeat_count, sample - start_time, per as int)
            &&& 0 <= k
            &&& k + 1 < values.len()
            &&& values[k].0 <= (sample - start_time) % (per as int) < values[k + 1].0
        },
    ensures
        ({
            let values = kind->values;
            let time = (sample - kind->start_time) % (values[values.len() - 1].0 as int);
            &&& level matches Level::Blend { from, to, done, span }
            &&& from == values[k].1
            &&& to == values[k + 1].1
            &&& done == time - values[k].0
            &&& done + (values[k + 1].0 - time) == span
            &&& 0 <= done < span
        }),
{
    if let KindView::Arb { start_time, values, index, repeat_count, .. } = kind {
        let per = values[values.len() - 1].0 as int;
        let elapsed = sample - start_time;
        let over = passes(repeat_count, elapsed, per);
        let time = elapsed % per;
        lemma_fundamental_div_mod(elapsed, per);
        lemma_mod_bound(elapsed, per);
        let q = elapsed / per;
        assert(q >= 0) by (nonlinear_arith)
            requires
                elapsed >= 0,
                per > 0,
                elapsed == per * q + time,
                0 <= time < per,
        ;
        if repeat_count >= 1 {
            assert(q < repeat_count) by (nonlinear_arith)
                requires
                    elapsed < repeat_count * per,
                    elapsed == per * q + time,
                    0 <= time,
                    per > 0,
            ;
        }
        assert(over == q);
        assert(elapsed - over * per == time) by (nonlinear_arith)
            requires
                elapsed == per * q + time,
                over == q,
        ;
        let at = after->index;
        assert(reached(values, 0, time, at));
        if at < k {
            assert(values[at + 1].0 <= values[k].0);
        }
        if at > k {
            assert(values[k + 1].0 <= values[at].0);
        }
    }
}

/// Before its start a wave of points stands where it will start, and after its last
/// pass it stays at its last value.
pub proof fn law_wave_rests_outside_its_passes(
    kind: KindView,
    sample: u64,
    after: KindView,
    level: Level,
)
    requires
        kind.wf(),
        sample <= i64::MAX,
        evaluates(kind, sample, after, level),
        kind matches KindView::Arb { values, index, .. } && index == 0 && (values.len() > 1
            ==> values[1].0 > 0),
    ensures
        ({
            let values = kind->values;
            let per = values[values.len() - 1].0;
            let first = values[0].1;
            let last = values[values.len() - 1].1;
            &&& sample < kind->start_time ==> (level == Level::Exact(first) || (
            level matches Level::Blend { from, done, .. } && from == first && done == 0))
            &&& kind->repeat_count >= 1 && sample >= kind->start_time + kind->repeat_count * per
                ==> level == Level::Exact(last)
        }),
{
    if let KindView::Arb { start_time, values, index, repeat_count, .. } = kind {
        let per = values[values.len() - 1].0 as int;
        assert(values[0].0 <= values[values.len() - 1].0);
        let at = after->index;
        if sample < start_time {
            if per > 0 {
                lemma_small_mod(0, per as nat);
                assert(0int / per == 0) by (nonlinear_arith)
                    requires
                        per > 0,
                ;
            }
            assert(passes(repeat_count, 0, per) == 0);
            if at >= 1 {
                assert(values[1].0 <= values[at].0);
            }
        } else if repeat_count >= 1 && sample >= start_time + repeat_count * per {
            let elapsed = sample - start_time;
            let over = passes(repeat_count, elapsed, per);
            if repeat_count > 1 {
                assert(elapsed / per >= repeat_count) by (nonlinear_arith)
                    requires
                        elapsed >= repeat_count * per,
                        per > 0,
                ;
                assert(over == repeat_count - 1);
            } else {
                assert(over == 0);
            }
            assert(elapsed - over * per >= per) by (nonlinear_arith)
                requires
                    elapsed >= repeat_count * per,
                    over == repeat_count - 1,
            ;
            if at + 1 < values.len() {
                assert(values[at + 1].0 <= values[values.len() - 1].0);
            }
        }
    }
}

// ---- the other shapes ----

/// A constant is the same at every sample, and a periodic wave is the wave that was
/// asked for, at the sample that was asked for. Neither changes by being asked.
pub proof fn law_waves_are_as_asked(kind: KindView, sample: u64, after: KindView, level: Level)
    requires
        evaluates(kind, sample, after, level),
    ensures
        kind matches KindView::Constant { value } ==> level == Level::Exact(value) && after == kind,
        kind matches KindView::Periodic { wave, offset, amplitude, period, phase, .. } ==> {
            &&& after == kind
            &&& level matches Level::Wave {
                wave: w,
                offset: o,
                amplitude: a,
                period: p,
                phase: f,
                sample: s,
            } && w == wave && o == offset && a == amplitude && p == period && f == phase && s
                == sample
        },
{
}

/// A phase shifts a square wave to the left: with it the wave is where it is without it
/// that many samples later.
pub proof fn law_phase_shifts_left(
    high: Single,
    low: Single,
    high_samples: u32,
    low_samples: u32,
    phase: i64,
    sample: u64,
    later: u64,
    after: KindView,
    level: Level,
    later_after: KindView,
    later_level: Level,
)
    requires
        high_samples + low_samples > 0,
        sample <= i64::MAX,
        later <= i64::MAX,
        later == sample + phase,
        evaluates(
            (KindView::AdvSquare { high, low, high_samples, low_samples, phase, rel_phase: false }),
            sample,
            after,
            level,
        ),
        evaluates(
            (KindView::AdvSquare { high, low, high_samples, low_samples, phase: 0, rel_phase: false }),
            later,
            later_after,
            later_level,
        ),
    ensures
        level == later_level,
{
}

/// A square wave is low for as many samples of a period as it is to be low, and high
/// for the rest: where a period starts depends on the phase alone.
pub proof fn law_square_counts_its_samples(
    kind: KindView,
    sample: u64,
    after: KindView,
    level: Level,
    whole: int,
    i: int,
)
    requires
        kind.wf(),
        sample <= i64::MAX,
        evaluates(kind, sample, after, level),
        kind matches KindView::AdvSquare { high_samples, low_samples, phase, .. } && sample + phase
            == whole * (high_samples + low_samples) + i && 0 <= i < high_samples + low_samples,
    ensures
        i < kind->low_samples ==> level == Level::Exact(kind->low),
        i >= kind->low_samples ==> level == Level::Exact(kind->high),
{
    if let KindView::AdvSquare { high_samples, low_samples, phase, .. } = kind {
        lemma_fundamental_div_mod_converse(
            sample + phase,
            (high_samples + low_samples) as int,
            whole,
            i,
        );
    }
}

/// A source that does not change, and points that take no time, are at phase zero at
/// once; of a periodic wave the phase zero has to be computed, from the shape, period
/// and phase that it has and the sample that is asked from.
pub proof fn law_phase_zero_of_the_rest(kind: KindView, sample: u64)
    ensures
        kind is Constant ==> zero_after(kind, sample) == PhaseZero::At(sample as i128),
        kind matches KindView::Arb { values, .. } && values.len() > 0 && values[values.len() - 1].0
            == 0 ==> zero_after(kind, sample) == PhaseZero::At(sample as i128),
        kind matches KindView::Periodic { wave, period, phase, .. } ==> zero_after(kind, sample)
            == (PhaseZero::Wave { wave, period, phase, sample }),
{
}

// ---- one source after another ----

/// What is asked of a square wave that takes the place of another with its phase: what
/// part of its period the one before has come to. Nothing is asked where the phase is
/// not to be kept, or where the one before was no square wave.
pub proof fn law_square_asks_for_the_fraction(kind: KindView, sample: u64, prev: Option<KindView>)
    requires
        sample <= i64::MAX,
        kind is AdvSquare,
        prev matches Some(p) ==> p.wf(),
    ensures
        kind->AdvSquare_rel_phase && prev is Some && prev->Some_0 is AdvSquare ==> {
            let p = prev->Some_0;
            let per = p->high_samples + p->low_samples;
            &&& phase_needed(kind, sample, prev) matches PhaseRequest::Scale { num, den, period }
            &&& den == per
            &&& 0 <= num < den
            &&& (sample + p->AdvSquare_phase - num) % per == 0
            &&& period == kind->high_samples + kind->low_samples
        },
        !(kind->AdvSquare_rel_phase && prev is Some && prev->Some_0 is AdvSquare) ==> phase_needed(
            kind,
            sample,
            prev,
        ) is Nothing,
{
    if kind->AdvSquare_rel_phase && prev is Some && prev->Some_0 is AdvSquare {
        let p = prev->Some_0;
        let per = p->high_samples + p->low_samples;
        let x = sample + p->AdvSquare_phase;
        lemma_fundamental_div_mod(x, per);
        lemma_mod_bound(x, per);
        assert(x - x % per == (x / per) * per + 0) by (nonlinear_arith)
            requires
                x == per * (x / per) + x % per,
        ;
        lemma_fundamental_div_mod_converse(x - x % per, per, x / per, 0);
    }
}

/// A square wave that keeps the phase of the one before goes on from where that was:
/// at the sample at which it is put in place it is as far in its own period as it was
/// told, and its own phase more. One that does not keep it has its own phase.
pub proof fn law_square_goes_on(
    kind: KindView,
    sample: u64,
    prev: Option<KindView>,
    reply: PhaseReply,
)
    requires
        kind.wf(),
        sample <= i64::MAX,
        kind is AdvSquare,
    ensures
        ({
            let e = started(kind, sample, prev, reply);
            let per = kind->high_samples + kind->low_samples;
            &&& e is AdvSquare
            &&& e->high == kind->high
            &&& e->low == kind->low
            &&& e->high_samples == kind->high_samples
            &&& e->low_samples == kind->low_samples
            &&& e->AdvSquare_rel_phase == kind->AdvSquare_rel_phase
            &&& 0 <= e->AdvSquare_phase < per
            &&& kind->AdvSquare_rel_phase && prev is Some && prev->Some_0 is AdvSquare ==> (sample
                + e->AdvSquare_phase - (kind->AdvSquare_phase + reply.samples)) % per == 0
            &&& !(kind->AdvSquare_rel_phase && prev is Some && prev->Some_0 is AdvSquare) ==> (
            e->AdvSquare_phase - kind->AdvSquare_phase) % per == 0
        }),
{
    let per = kind->high_samples + kind->low_samples;
    let moved = if kind->AdvSquare_rel_phase && prev is Some && prev->Some_0 is AdvSquare {
        kind->AdvSquare_phase + reply.samples - sample
    } else {
        kind->AdvSquare_phase as int
    };
    lemma_fundamental_div_mod(moved, per);
    lemma_mod_bound(moved, per);
    let q = moved / per;
    assert(moved % per - moved == (-q) * per + 0) by (nonlinear_arith)
        requires
            moved == per * q + moved % per,
    ;
    lemma_fundamental_div_mod_converse(moved % per - moved, per, -q, 0);
}

/// A periodic wave that keeps the phase of another asks for its own phase carried over
/// from the phase and period of that; one that does not asks for its own phase within
/// its period. It gets the phase that it is told, and keeps everything else.
pub proof fn law_wave_takes_its_phase(
    kind: KindView,
    sample: u64,
    prev: Option<KindView>,
    reply: PhaseReply,
)
    requires
        kind is Periodic,
    ensures
        ({
            let carries = kind->Periodic_rel_phase && prev is Some && prev->Some_0 is Periodic;
            &&& carries ==> phase_needed(kind, sample, prev) == (PhaseRequest::Carry {
                sample,
                phase: kind->Periodic_phase,
                period: kind->period,
                prev_phase: prev->Some_0->Periodic_phase,
                prev_period: prev->Some_0->period,
            })
            &&& !carries ==> phase_needed(kind, sample, prev) == (PhaseRequest::Wrap {
                phase: kind->Periodic_phase,
                period: kind->period,
            })
        }),
        ({
            let e = started(kind, sample, prev, reply);
            &&& e is Periodic
            &&& e->wave == kind->wave
            &&& e->offset == kind->offset
            &&& e->amplitude == kind->amplitude
            &&& e->period == kind->period
            &&& e->Periodic_rel_phase == kind->Periodic_rel_phase
            &&& e->Periodic_phase == reply.phase
        }),
{
}

/// A constant is put in place as it is. A wave of points starts now where its phase is
/// left open, at its phase where it runs once, and otherwise so that its passes start
/// at its phase and whole passes from it, within a pass of now.
pub proof fn law_points_start_in_time(
    kind: KindView,
    sample: u64,
    prev: Option<KindView>,
    reply: PhaseReply,
)
    requires
        kind.wf(),
        sample <= i64::MAX,
    ensures
        phase_needed(kind, sample, prev) is Nothing || kind is Periodic || kind is AdvSquare,
        kind is Constant ==> started(kind, sample, prev, reply) == kind,
        kind matches KindView::Arb { phase, values, index, repeat_count, .. } ==> {
            let per = values[values.len() - 1].0 as int;
            &&& started(kind, sample, prev, reply) matches KindView::Arb {
                phase: phase2,
                start_time: start,
                values: values2,
                index: index2,
                repeat_count: repeat2,
            }
            &&& values2 == values
            &&& index2 == index
            &&& repeat2 == repeat_count
            &&& phase < 0 ==> start == sample && phase2 == sample
            &&& phase >= 0 ==> phase2 == phase
            &&& phase >= 0 && repeat_count == 1 ==> start == phase
            &&& phase >= 0 && repeat_count != 1 ==> start == i64::MAX || ((start - phase) % per == 0
                && sample - per < start < sample + per)
            &&& phase >= 0 && repeat_count != 1 && sample + per <= i64::MAX ==> (start - phase) % per
                == 0
        },
{
    if let KindView::Arb { phase, values, index, repeat_count, .. } = kind {
        assert(values[0].0 <= values[values.len() - 1].0);
        if phase >= 0 && repeat_count != 1 {
            let per = values[values.len() - 1].0 as int;
            let s = sample as int;
            lemma_fundamental_div_mod(s, per);
            lemma_mod_bound(s, per);
            lemma_fundamental_div_mod(phase as int, per);
            lemma_mod_bound(phase as int, per);
            let start = s - s % per + phase as int % per;
            let a = s / per;
            let b = phase as int / per;
            assert(start - phase == (a - b) * per + 0) by (nonlinear_arith)
                requires
                    s == per * a + s % per,
                    phase == per * b + phase as int % per,
                    start == s - s % per + phase as int % per,
            ;
            lemma_fundamental_div_mod_converse(start - phase, per, a - b, 0);
        }
    }
}

// ---- transfers ----

proof fn lemma_some_point_is_reached(values: Seq<(i64, Single)>, from: int, time: int) -> (k: int)
    requires
        0 <= from < values.len(),
    ensures
        reached(values, from, time, k),
    decreases values.len() - from,
{
    if from + 1 < values.len() && values[from + 1].0 <= time {
        let k = lemma_some_point_is_reached(values, from + 1, time);
        assert forall|j: int| from < j <= k implies (#[trigger] values[j]).0 <= time by {}
        k
    } else {
        from
    }
}

/// A well-formed source has a level at every sample.
proof fn lemma_some_level(kind: KindView, sample: u64) -> (r: (KindView, Level))
    requires
        kind.wf(),
        sample <= i64::MAX,
    ensures
        evaluates(kind, sample, r.0, r.1),
{
    match kind {
        KindView::Constant { value } => (kind, Level::Exact(value)),
        KindView::Periodic { wave, offset, amplitude, period, phase, .. } => (
            kind,
            Level::Wave { wave, offset, amplitude, period, phase, sample },
        ),
        KindView::AdvSquare { high, low, high_samples, low_samples, phase, .. } => (
            kind,
            Level::Exact(
                if (sample as i64 + phase) % (high_samples + low_samples) < low_samples {
                    low
                } else {
                    high
                },
            ),
        ),
        KindView::Arb { phase, start_time, values, index, repeat_count } => {
            let per = span(values);
            let time = elapsed(sample, start_time);
            let over = passes(repeat_count, time, per);
            assert(values[0].0 <= values[values.len() - 1].0);
            if per > 0 {
                lemma_fundamental_div_mod(time, per);
                lemma_mod_bound(time, per);
                let q = time / per;
                assert(0 <= over <= q ==> 0 <= over * per <= time) by (nonlinear_arith)
                    requires
                        time == per * q + time % per,
                        0 <= time % per,
                        per > 0,
                ;
                assert(q >= 0) by (nonlinear_arith)
                    requires
                        time == per * q + time % per,
                        0 <= time % per < per,
                        time >= 0,
                        per > 0,
                ;
                assert(0 <= over * per <= time);
            } else {
                assert(over == 0);
                assert(over * per == 0);
            }
            let from = if over == 0 {
                index
            } else {
                0
            };
            let k = lemma_some_point_is_reached(values, from, time - over * per);
            let after = KindView::Arb {
                phase,
                start_time: (start_time + over * per) as i64,
                values,
                index: k,
                repeat_count: if repeat_count > 1 {
                    (repeat_count - over) as i64
                } else {
                    repeat_count
                },
            };
            (after, level_from(values, k, time - over * per))
        },
    }
}

/// What goes out in a transfer are the levels of the source, one for every sample that
/// the transfer is for, in their order: each is the level that the source has at its
/// sample when it is asked for that sample alone.
pub proof fn law_transfer_holds_the_levels(
    first: KindView,
    from: int,
    levels: Seq<Level>,
    last: KindView,
    k: int,
)
    requires
        first.wf(),
        0 <= from,
        from + levels.len() <= i64::MAX,
        gives(first, from, levels, last),
        0 <= k < levels.len(),
    ensures
        exists|after: KindView| #[trigger] evaluates(first, (from + k) as u64, after, levels[k]),
        k == levels.len() - 1 ==> evaluates(first, (from + k) as u64, last, levels[k]),
    decreases levels.len(),
{
    let n = levels.len() as int;
    let between = choose|between: KindView|
        gives(first, from, levels.drop_last(), between) && #[trigger] evaluates(
            between,
            (from + levels.len() - 1) as u64,
            last,
            levels.last(),
        );
    if k < n - 1 {
        law_transfer_holds_the_levels(first, from, levels.drop_last(), between, k);
        assert(levels.drop_last()[k] == levels[k]);
    } else if n > 1 {
        law_transfer_holds_the_levels(first, from, levels.drop_last(), between, n - 2);
        let (alone, level) = lemma_some_level(first, (from + k) as u64);
        law_order_of_asking(
            first,
            (from + n - 2) as u64,
            (from + k) as u64,
            between,
            levels.drop_last()[n - 2],
            last,
            levels[k],
            alone,
            level,
        );
        assert(evaluates(first, (from + k) as u64, last, levels[k]));
    } else {
        assert(between == first);
        assert(evaluates(first, (from + k) as u64, last, levels[k]));
    }
}

} // verus!
