//! Signal sources: what a channel puts out, sample by sample.
//!
//! Everything that is decided in whole samples is decided here. Where the value
//! of a source takes floating-point arithmetic, the source names the operands
//! and the caller computes.

use crate::float::{Double, Single};
use crate::jsonutil::{
    add_element, array_at, bool_at, int_at, json_bool_prop_def, json_float_prop,
    json_float_prop_def, json_int_prop, json_int_prop_def, json_string_prop_def, lemma_trees_at,
    members, number_at, put, put_bool, put_number, put_text, string_at, tree, trees, Error, Json,
    JsonTree, Number,
};
use crate::text::same;
use vstd::prelude::*;
use vstd::string::*;

verus! {

/// The shape of a periodic wave.
#[derive(Clone, Copy, Debug, PartialEq, Eq, Structural)]
pub enum Wave {
    Sine,
    Triangle,
    Square,
}

#[allow(inconsistent_fields)]
#[derive(Debug)]
pub enum SourceKind {
    Constant { value: Single },
    /// A wave with a period and a phase in samples, not necessarily whole ones.
    Periodic {
        wave: Wave,
        offset: Double,
        amplitude: Double,
        period: Double,
        phase: Double,
        rel_phase: bool,
    },
    /// `low_samples` samples of `low`, then `high_samples` samples of `high`.
    AdvSquare {
        high: Single,
        low: Single,
        high_samples: u32,
        low_samples: u32,
        phase: i64,
        rel_phase: bool,
    },
    /// Straight lines between points `(time in samples, value)`.
    Arb {
        phase: i64,
        start_time: i64,
        values: Vec<(i64, Single)>,
        index: usize,
        repeat_count: i64,
    },
}

#[derive(Debug)]
pub struct OutputSource {
    /// What the source drives: 0 nothing, 1 voltage, 2 current.
    pub mode: u32,
    /// Output sample number at which this source was added.
    pub start_sample: u64,
    /// Whether the effect of this source has come back as input.
    pub effective: bool,
    /// A note of the client, handed back as it came.
    pub hint: String,
    pub kind: SourceKind,
}

#[allow(inconsistent_fields)]
pub ghost enum KindView {
    Constant { value: Single },
    Periodic {
        wave: Wave,
        offset: Double,
        amplitude: Double,
        period: Double,
        phase: Double,
        rel_phase: bool,
    },
    AdvSquare {
        high: Single,
        low: Single,
        high_samples: u32,
        low_samples: u32,
        phase: i64,
        rel_phase: bool,
    },
    Arb {
        phase: i64,
        start_time: i64,
        values: Seq<(i64, Single)>,
        index: int,
        repeat_count: i64,
    },
}

#[verifier::ext_equal]
pub ghost struct SourceView {
    pub mode: u32,
    pub start_sample: u64,
    pub effective: bool,
    pub hint: Seq<char>,
    pub kind: KindView,
}

impl View for SourceKind {
    type V = KindView;

    open spec fn view(&self) -> KindView {
        match *self {
            SourceKind::Constant { value } => KindView::Constant { value },
            SourceKind::Periodic { wave, offset, amplitude, period, phase, rel_phase } =>
                KindView::Periodic { wave, offset, amplitude, period, phase, rel_phase },
            SourceKind::AdvSquare { high, low, high_samples, low_samples, phase, rel_phase } =>
                KindView::AdvSquare { high, low, high_samples, low_samples, phase, rel_phase },
            SourceKind::Arb { phase, start_time, values, index, repeat_count } => KindView::Arb {
                phase,
                start_time,
                values: values@,
                index: index as int,
                repeat_count,
            },
        }
    }
}

impl View for OutputSource {
    type V = SourceView;

    open spec fn view(&self) -> SourceView {
        SourceView {
            mode: self.mode,
            start_sample: self.start_sample,
            effective: self.effective,
            hint: self.hint@,
            kind: self.kind@,
        }
    }
}

/// The time of the last point.
pub open spec fn span(values: Seq<(i64, Single)>) -> int {
    values.last().0 as int
}

/// Whether another pass follows the one under way.
pub open spec fn repeats(repeat_count: i64) -> bool {
    repeat_count > 1 || repeat_count == -1
}

/// Points that start at time zero and go on in time order.
pub open spec fn ordered(values: Seq<(i64, Single)>) -> bool {
    &&& values.len() > 0
    &&& values[0].0 == 0
    &&& forall|i: int, j: int| 0 <= i <= j < values.len() ==> (#[trigger] values[i]).0 <= (
    #[trigger] values[j]).0
}

impl KindView {
    /// What every constructor sets up and every operation keeps.
    pub open spec fn wf(self) -> bool {
        match self {
            KindView::AdvSquare { high_samples, low_samples, .. } => high_samples + low_samples > 0,
            KindView::Arb { start_time, values, index, repeat_count, .. } => {
                &&& start_time >= 0
                &&& ordered(values)
                &&& 0 <= index < values.len()
                &&& repeat_count != 0
                &&& span(values) == 0 ==> repeat_count == 1
                &&& index + 1 == values.len() ==> !repeats(repeat_count)
            },
            _ => true,
        }
    }
}

impl OutputSource {
    pub open spec fn wf(self) -> bool {
        self@.kind.wf()
    }
}

/// A source as the constructors leave it.
pub open spec fn fresh(mode: u32, kind: KindView) -> SourceView {
    SourceView { mode, start_sample: 0, effective: false, hint: Seq::empty(), kind }
}

/// Why the points do not make a wave, if they do not. `repeat_count` is the
/// number of passes, never zero.
pub open spec fn arb_fault(values: Seq<(i64, Single)>, repeat_count: i64) -> Option<Seq<char>> {
    if values.len() == 0 {
        Some("Arb wave must have at least one point."@)
    } else if values[0].0 != 0 {
        Some("Arb wave first point must have t=0."@)
    } else if !ordered(values) {
        Some("Arb wave points must be in time order."@)
    } else if span(values) == 0 && repeat_count != 1 {
        Some("Arb wave with repeat must have nonzero period."@)
    } else {
        None
    }
}

/// Zero passes are taken as one.
pub open spec fn pass_count(repeat_count: i64) -> i64 {
    if repeat_count == 0 {
        1
    } else {
        repeat_count
    }
}

/// The remainder of `x` by `per` that is not negative.
pub fn modulo(x: i128, per: i128) -> (r: i128)
    requires
        per > 0,
    ensures
        r == x as int % per as int,
        0 <= r < per,
{
    x.checked_rem_euclid(per).unwrap()
}

impl OutputSource {
    pub fn constant(mode: u32, value: Single) -> (r: OutputSource)
        ensures
            r@ == fresh(mode, KindView::Constant { value }),
            r.wf(),
    {
        OutputSource {
            mode,
            start_sample: 0,
            effective: false,
            hint: String::new(),
            kind: SourceKind::Constant { value },
        }
    }

    pub fn periodic(
        mode: u32,
        wave: Wave,
        offset: Double,
        amplitude: Double,
        period: Double,
        phase: Double,
        rel_phase: bool,
    ) -> (r: OutputSource)
        ensures
            r@ == fresh(
                mode,
                KindView::Periodic { wave, offset, amplitude, period, phase, rel_phase },
            ),
            r.wf(),
    {
        OutputSource {
            mode,
            start_sample: 0,
            effective: false,
            hint: String::new(),
            kind: SourceKind::Periodic { wave, offset, amplitude, period, phase, rel_phase },
        }
    }

    pub fn adv_square(
        mode: u32,
        high: Single,
        low: Single,
        high_samples: u32,
        low_samples: u32,
        phase: i64,
        rel_phase: bool,
    ) -> (r: Result<OutputSource, Error>)
        ensures
            match r {
                Ok(s) => high_samples + low_samples > 0 && s.wf() && s@ == fresh(
                    mode,
                    KindView::AdvSquare { high, low, high_samples, low_samples, phase, rel_phase },
                ),
                Err(e) => high_samples + low_samples == 0 && e@
                    == "Square wave must have nonzero period."@,
            },
    {
        if high_samples == 0 && low_samples == 0 {
            return Err(Error::new("Square wave must have nonzero period."));
        }
        Ok(
            OutputSource {
                mode,
                start_sample: 0,
                effective: false,
                hint: String::new(),
                kind: SourceKind::AdvSquare {
                    high,
                    low,
                    high_samples,
                    low_samples,
                    phase,
                    rel_phase,
                },
            },
        )
    }

    pub fn arb(mode: u32, phase: i64, values: Vec<(i64, Single)>, repeat_count: i64) -> (r: Result<
        OutputSource,
        Error,
    >)
        ensures
            match arb_fault(values@, pass_count(repeat_count)) {
                None => r matches Ok(s) && s.wf() && s@ == fresh(
                    mode,
                    KindView::Arb {
                        phase,
                        start_time: 0,
                        values: values@,
                        index: 0,
                        repeat_count: pass_count(repeat_count),
                    },
                ),
                Some(message) => r matches Err(e) && e@ == message,
            },
    {
        let repeat_count = if repeat_count == 0 {
            1
        } else {
            repeat_count
        };
        if values.is_empty() {
            return Err(Error::new("Arb wave must have at least one point."));
        }
        if values[0].0 != 0 {
            return Err(Error::new("Arb wave first point must have t=0."));
        }
        let mut i: usize = 1;
        while i < values.len()
            invariant
                1 <= i <= values.len(),
                values@[0].0 == 0,
                forall|a: int, b: int|
                    0 <= a <= b < i ==> (#[trigger] values@[a]).0 <= (#[trigger] values@[b]).0,
            decreases values.len() - i,
        {
            if values[i].0 < values[i - 1].0 {
                assert(!(values@[i - 1].0 <= values@[i as int].0));
                return Err(Error::new("Arb wave points must be in time order."));
            }
            i += 1;
        }
        let period = values[values.len() - 1].0;
        if period == 0 && repeat_count != 1 {
            return Err(Error::new("Arb wave with repeat must have nonzero period."));
        }
        Ok(
            OutputSource {
                mode,
                start_sample: 0,
                effective: false,
                hint: String::new(),
                kind: SourceKind::Arb { phase, start_time: 0, values, index: 0, repeat_count },
            },
        )
    }
}

/// The value of a source at one sample.
#[derive(Clone, Copy, Debug, PartialEq, Eq, Structural)]
pub enum Level {
    Exact(Single),
    /// The wave of that shape at `sample`.
    Wave {
        wave: Wave,
        offset: Double,
        amplitude: Double,
        period: Double,
        phase: Double,
        sample: u64,
    },
    /// `done / span` of the way from `from` to `to`.
    Blend { from: Single, to: Single, done: i64, span: i64 },
}

/// The time since the start of the points; before the start it stands still.
pub open spec fn elapsed(sample: u64, start_time: i64) -> int {
    if (sample as i64) < start_time {
        0
    } else {
        (sample as i64) - start_time
    }
}

/// How many whole passes over points that span `per` end by `time`.
pub open spec fn passes(repeat_count: i64, time: int, per: int) -> int {
    if repeat_count == -1 {
        time / per
    } else if repeat_count > 1 {
        if time / per < repeat_count - 1 {
            time / per
        } else {
            repeat_count - 1
        }
    } else {
        0
    }
}

/// Whether `k` is the point that `time` has come to, going forward from the
/// point `from`.
pub open spec fn reached(values: Seq<(i64, Single)>, from: int, time: int, k: int) -> bool {
    &&& from <= k < values.len()
    &&& forall|j: int| from < j <= k ==> (#[trigger] values[j]).0 <= time
    &&& k + 1 < values.len() ==> time < values[k + 1].0
}

/// The level between the points `k` and `k + 1`.
pub open spec fn level_from(values: Seq<(i64, Single)>, k: int, time: int) -> Level {
    if k + 1 >= values.len() || time < values[k].0 {
        Level::Exact(values[k].1)
    } else {
        Level::Blend {
            from: values[k].1,
            to: values[k + 1].1,
            done: (time - values[k].0) as i64,
            span: (values[k + 1].0 - values[k].0) as i64,
        }
    }
}

/// How a source is left, and the level that it gives, when it is asked for
/// `sample`.
pub open spec fn evaluates(before: KindView, sample: u64, after: KindView, level: Level) -> bool {
    match before {
        KindView::Constant { value } => after == before && level == Level::Exact(value),
        KindView::Periodic { wave, offset, amplitude, period, phase, .. } => after == before
            && level == (Level::Wave { wave, offset, amplitude, period, phase, sample }),
        KindView::AdvSquare { high, low, high_samples, low_samples, phase, .. } => after == before
            && level == Level::Exact(
            if ((sample as i64) + phase) % (high_samples + low_samples) < low_samples {
                low
            } else {
                high
            },
        ),
        KindView::Arb { phase, start_time, values, index, repeat_count } => {
            let per = span(values);
            let time = elapsed(sample, start_time);
            let over = passes(repeat_count, time, per);
            &&& after matches KindView::Arb {
                phase: phase2,
                start_time: start2,
                values: values2,
                index: index2,
                repeat_count: repeat2,
            }
            &&& phase2 == phase
            &&& values2 == values
            &&& start2 == start_time + over * per
            &&& repeat2 == (if repeat_count > 1 {
                repeat_count - over
            } else {
                repeat_count as int
            })
            &&& reached(
                values,
                if over == 0 {
                    index
                } else {
                    0
                },
                time - over * per,
                index2,
            )
            &&& level == level_from(values, index2, time - over * per)
        },
    }
}

/// Walks forward over the points to the time `time`, and over as many passes
/// as it takes.
fn walk(
    values: &Vec<(i64, Single)>,
    start_time: i64,
    index: usize,
    repeat_count: i64,
    time: i64,
) -> (r: (i64, usize, i64, i64))
    requires
        (KindView::Arb {
            phase: 0,
            start_time,
            values: values@,
            index: index as int,
            repeat_count,
        }).wf(),
        time >= 0,
        start_time + time <= i64::MAX,
    ensures
        ({
            let (start2, index2, repeat2, time2) = r;
            let per = span(values@);
            let over = passes(repeat_count, time as int, per);
            &&& 0 <= over
            &&& start2 == start_time + over * per
            &&& repeat2 == (if repeat_count > 1 {
                repeat_count - over
            } else {
                repeat_count as int
            })
            &&& time2 == time - over * per
            &&& time2 >= 0
            &&& reached(
                values@,
                if over == 0 {
                    index as int
                } else {
                    0
                },
                time2 as int,
                index2 as int,
            )
            &&& index2 + 1 == values.len() ==> !repeats(repeat2)
        }),
{
    let ghost per = span(values@);
    let mut start2 = start_time;
    let mut index2 = index;
    let mut repeat2 = repeat_count;
    let mut time2 = time;
    let ghost mut over: int = 0;
    let ghost mut from: int = index as int;
    loop
        invariant
            ordered(values@),
            per == span(values@),
            repeat_count != 0,
            per == 0 ==> repeat_count == 1,
            per >= 0,
            0 <= over,
            from == (if over == 0 {
                index as int
            } else {
                0
            }),
            0 <= from <= index2 < values.len(),
            forall|j: int| from < j <= index2 ==> (#[trigger] values@[j]).0 <= time2,
            time2 >= 0,
            time2 == time - over * per,
            start2 == start_time + over * per,
            start_time + time <= i64::MAX,
            repeat_count > 1 ==> repeat2 == repeat_count - over && repeat2 >= 1,
            repeat_count <= 1 ==> repeat2 == repeat_count,
            over > 0 ==> repeats(repeat_count),
            index2 == from ==> (over == 0 && index + 1 < values.len()) || (over == 0 && !repeats(
                repeat2,
            )) || over > 0,
            index + 1 == values.len() ==> !repeats(repeat_count),
        ensures
            0 <= over,
            from == (if over == 0 {
                index as int
            } else {
                0
            }),
            time2 >= 0,
            time2 == time - over * per,
            start2 == start_time + over * per,
            repeat_count > 1 ==> repeat2 == repeat_count - over && repeat2 >= 1,
            repeat_count <= 1 ==> repeat2 == repeat_count,
            reached(values@, from, time2 as int, index2 as int),
            index2 + 1 == values.len() ==> !repeats(repeat2),
            over == passes(repeat_count, time as int, per),
        decreases time2, values.len() - index2,
    {
        let t1 = values[index2].0;
        let next = index2 + 1;
        if next >= values.len() {
            if repeat2 > 1 || repeat2 == -1 {
                proof {
                    assert(t1 == per);
                    assert(per > 0);
                    if index2 == from {
                        assert(values.len() >= 2) by {
                            if values.len() == 1 {
                                assert(values@[0].0 == 0);
                            }
                        }
                        assert(index2 > from);
                    }
                    assert(values@[index2 as int].0 <= time2);
                    assert((over + 1) * per == over * per + per) by (nonlinear_arith);
                }
                if repeat2 > 0 {
                    repeat2 -= 1;
                }
                index2 = 0;
                start2 += t1;
                time2 -= t1;
                proof {
                    over = over + 1;
                    from = 0;
                }
                continue ;
            }
            proof {
                lemma_passes(repeat_count, time as int, per, over, time2 as int);
            }
            break ;
        }
        if time2 >= values[next].0 {
            index2 = next;
        } else {
            proof {
                assert(values@[next as int].0 <= per) by {
                    assert(values@[next as int].0 <= values@[values.len() - 1].0);
                }
                lemma_passes(repeat_count, time as int, per, over, time2 as int);
            }
            break ;
        }
    }
    (start2, index2, repeat2, time2)
}

/// `over` passes are all that end by `time` when either the rest is less than
/// a pass or no pass is left.
proof fn lemma_passes(repeat_count: i64, time: int, per: int, over: int, rest: int)
    requires
        0 <= over,
        0 <= rest,
        per >= 0,
        rest == time - over * per,
        over > 0 ==> repeats(repeat_count),
        repeats(repeat_count) ==> per > 0,
        repeat_count > 1 ==> over <= repeat_count - 1,
        rest < per || !repeats(repeat_count) || (repeat_count > 1 && over == repeat_count - 1),
    ensures
        over == passes(repeat_count, time, per),
{
    if repeats(repeat_count) {
        if rest < per {
            vstd::arithmetic::div_mod::lemma_fundamental_div_mod_converse(time, per, over, rest);
        } else {
            assert(time / per >= over) by (nonlinear_arith)
                requires
                    per > 0,
                    time >= over * per,
            ;
        }
    }
}

impl OutputSource {
    pub fn display_name(&self) -> (r: &'static str)
        ensures
            r@ == kind_name(self@.kind),
    {
        match &self.kind {
            SourceKind::Constant { .. } => "constant",
            SourceKind::Periodic { wave: Wave::Sine, .. } => "sine",
            SourceKind::Periodic { wave: Wave::Triangle, .. } => "triangle",
            SourceKind::Periodic { wave: Wave::Square, .. } => "square",
            SourceKind::AdvSquare { .. } => "adv_square",
            SourceKind::Arb { .. } => "arb",
        }
    }

    /// Evaluates the source at `sample`. The points of an `Arb` are walked
    /// forward only, so samples are to be asked for in order.
    pub fn get_value(&mut self, sample: u64) -> (r: Level)
        requires
            old(self).wf(),
        ensures
            final(self).wf(),
            evaluates(old(self)@.kind, sample, final(self)@.kind, r),
            final(self)@ == (SourceView { kind: final(self)@.kind, ..old(self)@ }),
    {
        match &mut self.kind {
            SourceKind::Constant { value } => Level::Exact(*value),
            SourceKind::Periodic { wave, offset, amplitude, period, phase, .. } => Level::Wave {
                wave: *wave,
                offset: *offset,
                amplitude: *amplitude,
                period: *period,
                phase: *phase,
                sample,
            },
            SourceKind::AdvSquare { high, low, high_samples, low_samples, phase, .. } => {
                let per: i128 = *high_samples as i128 + *low_samples as i128;
                let s: i128 = modulo(#[verifier::truncate] (sample as i64) as i128 + *phase as i128, per);
                if s < *low_samples as i128 {
                    Level::Exact(*low)
                } else {
                    Level::Exact(*high)
                }
            },
            SourceKind::Arb { start_time, values, index, repeat_count, .. } => {
                let now = #[verifier::truncate]
                (sample as i64);
                if now < *start_time {
                    let (start2, index2, repeat2, time) = walk(
                        values,
                        *start_time,
                        *index,
                        *repeat_count,
                        0,
                    );
                    *start_time = start2;
                    *index = index2;
                    *repeat_count = repeat2;
                    level_at(values, index2, time)
                } else {
                    let (start2, index2, repeat2, time) = walk(
                        values,
                        *start_time,
                        *index,
                        *repeat_count,
                        now - *start_time,
                    );
                    *start_time = start2;
                    *index = index2;
                    *repeat_count = repeat2;
                    level_at(values, index2, time)
                }
            },
        }
    }
}

/// The level between the points `k` and `k + 1`.
fn level_at(values: &Vec<(i64, Single)>, k: usize, time: i64) -> (r: Level)
    requires
        ordered(values@),
        k < values.len(),
        time >= 0,
    ensures
        r == level_from(values@, k as int, time as int),
{
    if k + 1 >= values.len() || time < values[k].0 {
        Level::Exact(values[k].1)
    } else {
        proof {
            assert(values@[0].0 <= values@[k as int].0);
            assert(values@[k as int].0 <= values@[k + 1].0);
        }
        Level::Blend {
            from: values[k].1,
            to: values[k + 1].1,
            done: time - values[k].0,
            span: values[k + 1].0 - values[k].0,
        }
    }
}

/// The name of a kind of source.
pub open spec fn kind_name(kind: KindView) -> Seq<char> {
    match kind {
        KindView::Constant { .. } => "constant"@,
        KindView::Periodic { wave: Wave::Sine, .. } => "sine"@,
        KindView::Periodic { wave: Wave::Triangle, .. } => "triangle"@,
        KindView::Periodic { wave: Wave::Square, .. } => "square"@,
        KindView::AdvSquare { .. } => "adv_square"@,
        KindView::Arb { .. } => "arb"@,
    }
}

// ---- phase ----

/// The first sample, from a given one on, at which a wave is at phase zero.
#[derive(Clone, Copy, Debug, PartialEq, Eq, Structural)]
pub enum PhaseZero {
    At(i128),
    /// That of a wave with this shape, period and phase, from `sample` on.
    Wave { wave: Wave, period: Double, phase: Double, sample: u64 },
}

/// The phase zero of a source from `sample` on: for an `AdvSquare` the step
/// from low to high, for an `Arb` the start of a pass.
pub open spec fn zero_after(kind: KindView, sample: u64) -> PhaseZero {
    let s = (sample as i64) as int;
    match kind {
        KindView::Constant { .. } => PhaseZero::At(sample as i128),
        KindView::Periodic { wave, period, phase, .. } => PhaseZero::Wave {
            wave,
            period,
            phase,
            sample,
        },
        KindView::AdvSquare { high_samples, low_samples, phase, .. } => {
            let per = high_samples + low_samples;
            PhaseZero::At((s + (per + low_samples - (s + phase) % per) % per) as i128)
        },
        KindView::Arb { phase, values, .. } => {
            let per = span(values);
            if per == 0 {
                PhaseZero::At(sample as i128)
            } else {
                PhaseZero::At((s + (per - (s - phase) % per) % per) as i128)
            }
        },
    }
}

/// What a new source has to have computed before it takes the place of another.
#[allow(inconsistent_fields)]
#[derive(Clone, Copy, Debug, PartialEq, Eq, Structural)]
pub enum PhaseRequest {
    Nothing,
    /// `phase` reduced by `period`.
    Wrap { phase: Double, period: Double },
    /// `phase` moved so that the wave goes on, at `sample`, from the fraction
    /// of its period that the previous one has come to; then reduced by `period`.
    Carry {
        sample: u64,
        phase: Double,
        period: Double,
        prev_phase: Double,
        prev_period: Double,
    },
    /// `num / den` of `period`, to the nearest whole sample.
    Scale { num: i64, den: i64, period: i64 },
}

/// What was computed: `phase` for `Wrap` and `Carry`, `samples` for `Scale`.
#[derive(Clone, Copy, Debug, PartialEq, Eq, Structural)]
pub struct PhaseReply {
    pub phase: Double,
    pub samples: i64,
}

pub open spec fn phase_needed(kind: KindView, sample: u64, prev: Option<KindView>) -> PhaseRequest {
    match kind {
        KindView::Periodic { period, phase, rel_phase, .. } => match prev {
            Some(KindView::Periodic { period: prev_period, phase: prev_phase, .. }) if rel_phase =>
                PhaseRequest::Carry { sample, phase, period, prev_phase, prev_period },
            _ => PhaseRequest::Wrap { phase, period },
        },
        KindView::AdvSquare { high_samples, low_samples, rel_phase, .. } => match prev {
            Some(
                KindView::AdvSquare { high_samples: ph, low_samples: pl, phase: pp, .. },
            ) if rel_phase => PhaseRequest::Scale {
                num: (((sample as i64) + pp) % (ph + pl)) as i64,
                den: (ph + pl) as i64,
                period: (high_samples + low_samples) as i64,
            },
            _ => PhaseRequest::Nothing,
        },
        _ => PhaseRequest::Nothing,
    }
}

/// `x`, or the largest `i64`.
pub open spec fn within(x: int) -> i64 {
    if x > i64::MAX {
        i64::MAX
    } else {
        x as i64
    }
}

/// The source once it has taken the place of `prev` at output sample `sample`.
pub open spec fn started(
    kind: KindView,
    sample: u64,
    prev: Option<KindView>,
    reply: PhaseReply,
) -> KindView {
    match kind {
        KindView::Constant { .. } => kind,
        KindView::Periodic { wave, offset, amplitude, period, rel_phase, .. } => KindView::Periodic {
            wave,
            offset,
            amplitude,
            period,
            phase: reply.phase,
            rel_phase,
        },
        KindView::AdvSquare { high, low, high_samples, low_samples, phase, rel_phase } => {
            let per = high_samples + low_samples;
            let moved = match prev {
                Some(KindView::AdvSquare { .. }) if rel_phase => phase + reply.samples - (
                sample as i64),
                _ => phase as int,
            };
            KindView::AdvSquare {
                high,
                low,
                high_samples,
                low_samples,
                phase: (moved % per) as i64,
                rel_phase,
            }
        },
        KindView::Arb { phase, values, index, repeat_count, .. } => {
            let per = span(values);
            let s = sample as i64;
            if phase < 0 {
                KindView::Arb { phase: s, start_time: s, values, index, repeat_count }
            } else if repeat_count != 1 {
                KindView::Arb {
                    phase,
                    start_time: within(s - s as int % per + phase as int % per),
                    values,
                    index,
                    repeat_count,
                }
            } else {
                KindView::Arb { phase, start_time: phase, values, index, repeat_count }
            }
        },
    }
}

/// The kind of the source that is in place, if there is one.
pub open spec fn kind_of(prev: Option<OutputSource>) -> Option<KindView> {
    match prev {
        Some(p) => Some(p@.kind),
        None => None,
    }
}

impl OutputSource {
    /// First sample from `sample` on at which the source is at phase zero.
    pub fn phase_zero_after(&self, sample: u64) -> (r: PhaseZero)
        requires
            self.wf(),
        ensures
            r == zero_after(self@.kind, sample),
    {
        let s: i128 = #[verifier::truncate]
        (sample as i64) as i128;
        match &self.kind {
            SourceKind::Constant { .. } => PhaseZero::At(sample as i128),
            SourceKind::Periodic { wave, period, phase, .. } => PhaseZero::Wave {
                wave: *wave,
                period: *period,
                phase: *phase,
                sample,
            },
            SourceKind::AdvSquare { high_samples, low_samples, phase, .. } => {
                let per: i128 = *high_samples as i128 + *low_samples as i128;
                let low: i128 = *low_samples as i128;
                PhaseZero::At(s + modulo(per + low - modulo(s + *phase as i128, per), per))
            },
            SourceKind::Arb { phase, values, .. } => {
                let per: i128 = values[values.len() - 1].0 as i128;
                proof {
                    assert(values@[0].0 <= values@[values.len() - 1].0);
                }
                if per == 0 {
                    return PhaseZero::At(sample as i128);
                }
                PhaseZero::At(s + modulo(per - modulo(s - *phase as i128, per), per))
            },
        }
    }

    /// What `initialize` needs to be told when this source replaces `prev` at
    /// output sample `sample`.
    pub fn phase_request(&self, sample: u64, prev: &Option<OutputSource>) -> (r: PhaseRequest)
        requires
            self.wf(),
            prev matches Some(p) ==> p.wf(),
        ensures
            r == phase_needed(self@.kind, sample, kind_of(*prev)),
    {
        match &self.kind {
            SourceKind::Periodic { period, phase, rel_phase, .. } => {
                if *rel_phase {
                    if let Some(p) = prev {
                        if let SourceKind::Periodic { period: prev_period, phase: prev_phase, .. } =
                            &p.kind {
                            return PhaseRequest::Carry {
                                sample,
                                phase: *phase,
                                period: *period,
                                prev_phase: *prev_phase,
                                prev_period: *prev_period,
                            };
                        }
                    }
                }
                PhaseRequest::Wrap { phase: *phase, period: *period }
            },
            SourceKind::AdvSquare { high_samples, low_samples, rel_phase, .. } => {
                if *rel_phase {
                    if let Some(p) = prev {
                        if let SourceKind::AdvSquare {
                            high_samples: ph,
                            low_samples: pl,
                            phase: pp,
                            ..
                        } = &p.kind {
                            let den: i128 = *ph as i128 + *pl as i128;
                            let num: i128 = modulo(
                                #[verifier::truncate]
                                (sample as i64) as i128 + *pp as i128,
                                den,
                            );
                            return PhaseRequest::Scale {
                                num: num as i64,
                                den: den as i64,
                                period: *high_samples as i64 + *low_samples as i64,
                            };
                        }
                    }
                }
                PhaseRequest::Nothing
            },
            _ => PhaseRequest::Nothing,
        }
    }

    /// Fits the phase of this source, which replaces `prev` at output sample
    /// `sample`. `reply` answers `phase_request`.
    pub fn initialize(&mut self, sample: u64, prev: &Option<OutputSource>, reply: PhaseReply)
        requires
            old(self).wf(),
            sample <= i64::MAX,
        ensures
            final(self).wf(),
            final(self)@ == (SourceView {
                kind: started(old(self)@.kind, sample, kind_of(*prev), reply),
                ..old(self)@
            }),
    {
        let s: i64 = sample as i64;
        match &mut self.kind {
            SourceKind::Constant { .. } => {},
            SourceKind::Periodic { phase, .. } => {
                *phase = reply.phase;
            },
            SourceKind::AdvSquare { high_samples, low_samples, phase, rel_phase, .. } => {
                let per: i128 = *high_samples as i128 + *low_samples as i128;
                let mut moved: i128 = *phase as i128;
                if *rel_phase {
                    if let Some(p) = prev {
                        if let SourceKind::AdvSquare { .. } = &p.kind {
                            moved = moved + reply.samples as i128 - s as i128;
                        }
                    }
                }
                *phase = modulo(moved, per) as i64;
            },
            SourceKind::Arb { phase, start_time, values, repeat_count, .. } => {
                if *phase < 0 {
                    *start_time = s;
                    *phase = s;
                } else if *repeat_count != 1 {
                    let per: i128 = values[values.len() - 1].0 as i128;
                    proof {
                        assert(values@[0].0 <= values@[values.len() - 1].0);
                    }
                    let at: i128 = s as i128 - modulo(s as i128, per) + modulo(
                        *phase as i128,
                        per,
                    );
                    proof {
                        assert(s as int % per as int <= s) by (nonlinear_arith)
                            requires
                                s >= 0,
                                per > 0,
                        ;
                    }
                    *start_time = if at > 0x7fff_ffff_ffff_ffff {
                        0x7fff_ffff_ffff_ffff
                    } else {
                        at as i64
                    };
                } else {
                    *start_time = *phase;
                }
            },
        }
    }
}

// ---- description ----

/// The points as a document lists them.
pub open spec fn point_list(values: Seq<(i64, Single)>) -> Seq<JsonTree> {
    values.map_values(
        |p: (i64, Single)|
            JsonTree::Object(
                seq![
                    ("t"@, JsonTree::Number(Number::Signed(p.0))),
                    ("v"@, JsonTree::Number(Number::Single(p.1))),
                ],
            ),
    )
}

/// The members that describe what is particular to a kind of source.
pub open spec fn kind_members(kind: KindView) -> Seq<(Seq<char>, JsonTree)> {
    match kind {
        KindView::Constant { value } => seq![("value"@, JsonTree::Number(Number::Single(value)))],
        KindView::Periodic { offset, amplitude, period, phase, .. } => seq![
            ("offset"@, JsonTree::Number(Number::Single(offset.narrowed()))),
            ("amplitude"@, JsonTree::Number(Number::Single(amplitude.narrowed()))),
            ("period"@, JsonTree::Number(Number::Double(period))),
            ("phase"@, JsonTree::Number(Number::Double(phase))),
        ],
        KindView::AdvSquare { high, low, high_samples, low_samples, .. } => seq![
            ("high"@, JsonTree::Number(Number::Single(high))),
            ("low"@, JsonTree::Number(Number::Single(low))),
            ("highSamples"@, JsonTree::Number(Number::Unsigned(high_samples as u64))),
            ("lowSamples"@, JsonTree::Number(Number::Unsigned(low_samples as u64))),
        ],
        KindView::Arb { phase, values, repeat_count, .. } => seq![
            ("phase"@, JsonTree::Number(Number::Signed(phase))),
            ("repeat"@, JsonTree::Number(Number::Signed(repeat_count))),
            ("values"@, JsonTree::Array(point_list(values))),
            ("period"@, JsonTree::Number(Number::Signed(values.last().0))),
        ],
    }
}

/// The members that describe a source.
pub open spec fn described(s: SourceView) -> Seq<(Seq<char>, JsonTree)> {
    seq![
        ("mode"@, JsonTree::Number(Number::Unsigned(s.mode as u64))),
        ("startSample"@, JsonTree::Number(Number::Unsigned(s.start_sample))),
        ("effective"@, JsonTree::Bool(s.effective)),
        ("source"@, JsonTree::Str(kind_name(s.kind))),
        ("hint"@, JsonTree::Str(s.hint)),
    ] + kind_members(s.kind)
}

fn points_json(values: &Vec<(i64, Single)>) -> (r: Vec<Json>)
    ensures
        trees(r@) == point_list(values@),
{
    let mut r: Vec<Json> = Vec::new();
    let mut i: usize = 0;
    while i < values.len()
        invariant
            i <= values.len(),
            trees(r@) == point_list(values@.take(i as int)),
        decreases values.len() - i,
    {
        let mut p: Vec<(String, Json)> = Vec::new();
        put_number(&mut p, "t", Number::Signed(values[i].0));
        put_number(&mut p, "v", Number::Single(values[i].1));
        let ghost o = members(p@);
        assert(o =~= seq![
            ("t"@, JsonTree::Number(Number::Signed(values@[i as int].0))),
            ("v"@, JsonTree::Number(Number::Single(values@[i as int].1))),
        ]);
        add_element(&mut r, Json::Object(p));
        i += 1;
        assert(point_list(values@.take(i as int)) =~= point_list(values@.take(i - 1)).push(
            JsonTree::Object(o),
        ));
    }
    assert(values@.take(i as int) =~= values@);
    r
}

impl OutputSource {
    /// Appends the members that describe this source.
    pub fn describe(&self, n: &mut Vec<(String, Json)>)
        requires
            self.wf(),
        ensures
            members(final(n)@) == members(old(n)@) + described(self@),
    {
        put_number(n, "mode", Number::Unsigned(self.mode as u64));
        put_number(n, "startSample", Number::Unsigned(self.start_sample));
        put_bool(n, "effective", self.effective);
        put_text(n, "source", self.display_name());
        put_text(n, "hint", self.hint.as_str());
        match &self.kind {
            SourceKind::Constant { value } => {
                put_number(n, "value", Number::Single(*value));
            },
            SourceKind::Periodic { offset, amplitude, period, phase, .. } => {
                put_number(n, "offset", Number::Single(offset.narrow()));
                put_number(n, "amplitude", Number::Single(amplitude.narrow()));
                put_number(n, "period", Number::Double(*period));
                put_number(n, "phase", Number::Double(*phase));
            },
            SourceKind::AdvSquare { high, low, high_samples, low_samples, .. } => {
                put_number(n, "high", Number::Single(*high));
                put_number(n, "low", Number::Single(*low));
                put_number(n, "highSamples", Number::Unsigned(*high_samples as u64));
                put_number(n, "lowSamples", Number::Unsigned(*low_samples as u64));
            },
            SourceKind::Arb { phase, values, repeat_count, .. } => {
                put_number(n, "phase", Number::Signed(*phase));
                put_number(n, "repeat", Number::Signed(*repeat_count));
                put(n, "values", Json::Array(points_json(values)));
                put_number(n, "period", Number::Signed(values[values.len() - 1].0));
            },
        }
        assert(members(n@) =~= members(old(n)@) + described(self@));
    }

    pub fn describe_json(&self) -> (r: Json)
        requires
            self.wf(),
        ensures
            r@ == JsonTree::Object(described(self@)),
    {
        let mut m: Vec<(String, Json)> = Vec::new();
        self.describe(&mut m);
        assert(members(m@) =~= described(self@));
        Json::Object(m)
    }
}

// ---- reading ----

/// The integer part of `d`, within the range of 32 bits without sign.
pub open spec fn count_of(d: Double) -> u32 {
    if d.integer() < 0 {
        0
    } else if d.integer() > u32::MAX {
        u32::MAX
    } else {
        d.integer() as u32
    }
}

/// Conversion to `u32`.
pub fn to_count(d: Double) -> (r: u32)
    ensures
        r == count_of(d),
{
    let i = d.to_int();
    if i < 0 {
        0
    } else if i > 0xffff_ffff {
        0xffff_ffff
    } else {
        i as u32
    }
}

/// The number `prop`, or the complaint that there is none.
pub open spec fn float_needed(n: JsonTree, prop: Seq<char>) -> Result<Double, Seq<char>> {
    match number_at(n, prop) {
        Some(d) => Ok(d),
        None => Err("JSON missing float property: "@ + prop),
    }
}

/// The integer `prop`, or the complaint that there is none.
pub open spec fn int_needed(n: JsonTree, prop: Seq<char>) -> Result<i64, Seq<char>> {
    match int_at(n, prop) {
        Some(i) => Ok(i),
        None => Err("JSON missing int property: "@ + prop),
    }
}

/// The points of a list of documents, or the first complaint about them.
pub open spec fn points_from(a: Seq<JsonTree>) -> Result<Seq<(i64, Single)>, Seq<char>>
    decreases a.len(),
{
    if a.len() == 0 {
        Ok(Seq::empty())
    } else {
        match points_from(a.drop_last()) {
            Err(m) => Err(m),
            Ok(before) => match (int_needed(a.last(), "t"@), float_needed(a.last(), "v"@)) {
                (Err(m), _) => Err(m),
                (_, Err(m)) => Err(m),
                (Ok(t), Ok(v)) => Ok(before.push((t, v.narrowed()))),
            },
        }
    }
}

pub open spec fn square_from(n: JsonTree) -> Result<KindView, Seq<char>> {
    match (
        float_needed(n, "high"@),
        float_needed(n, "low"@),
        int_needed(n, "highSamples"@),
        int_needed(n, "lowSamples"@),
    ) {
        (Err(m), _, _, _) => Err(m),
        (_, Err(m), _, _) => Err(m),
        (_, _, Err(m), _) => Err(m),
        (_, _, _, Err(m)) => Err(m),
        (Ok(high), Ok(low), Ok(high_samples), Ok(low_samples)) => if (high_samples as u32) + (
        low_samples as u32) == 0 {
            Err("Square wave must have nonzero period."@)
        } else {
            Ok(
                KindView::AdvSquare {
                    high: high.narrowed(),
                    low: low.narrowed(),
                    high_samples: high_samples as u32,
                    low_samples: low_samples as u32,
                    phase: int_at(n, "phase"@).unwrap_or(0),
                    rel_phase: bool_at(n, "relPhase"@).unwrap_or(true),
                },
            )
        },
    }
}

pub open spec fn wave_from(n: JsonTree, wave: Wave) -> Result<KindView, Seq<char>> {
    match (
        float_needed(n, "offset"@),
        float_needed(n, "amplitude"@),
        float_needed(n, "period"@),
    ) {
        (Err(m), _, _) => Err(m),
        (_, Err(m), _) => Err(m),
        (_, _, Err(m)) => Err(m),
        (Ok(offset), Ok(amplitude), Ok(period)) => Ok(
            KindView::Periodic {
                wave,
                offset,
                amplitude,
                period,
                phase: number_at(n, "phase"@).unwrap_or(Double { bits: 0 }),
                rel_phase: bool_at(n, "relPhase"@).unwrap_or(true),
            },
        ),
    }
}

pub open spec fn arb_from(n: JsonTree) -> Result<KindView, Seq<char>> {
    match array_at(n, "values"@) {
        None => Err("JSON missing property: values"@),
        Some(a) => match points_from(a) {
            Err(m) => Err(m),
            Ok(values) => {
                let repeat_count = pass_count(int_at(n, "repeat"@).unwrap_or(0));
                match arb_fault(values, repeat_count) {
                    Some(m) => Err(m),
                    None => Ok(
                        KindView::Arb {
                            phase: int_at(n, "phase"@).unwrap_or((-1) as i64),
                            start_time: 0,
                            values,
                            index: 0,
                            repeat_count,
                        },
                    ),
                }
            },
        },
    }
}

/// The kind of source that a document asks for.
pub open spec fn kind_from(n: JsonTree) -> Result<KindView, Seq<char>> {
    let source = string_at(n, "source"@).unwrap_or("constant"@);
    if source == "constant"@ {
        Ok(
            KindView::Constant {
                value: number_at(n, "value"@).unwrap_or(Double { bits: 0 }).narrowed(),
            },
        )
    } else if source == "adv_square"@ {
        square_from(n)
    } else if source == "sine"@ {
        wave_from(n, Wave::Sine)
    } else if source == "triangle"@ {
        wave_from(n, Wave::Triangle)
    } else if source == "square"@ {
        wave_from(n, Wave::Square)
    } else if source == "arb"@ {
        arb_from(n)
    } else {
        Err("Invalid source"@)
    }
}

/// The source that a document asks for, or what is wrong with the document.
pub open spec fn source_from(n: JsonTree) -> Result<SourceView, Seq<char>> {
    match kind_from(n) {
        Err(m) => Err(m),
        Ok(kind) => Ok(
            SourceView {
                hint: string_at(n, "hint"@).unwrap_or(""@),
                ..fresh(count_of(number_at(n, "mode"@).unwrap_or(Double { bits: 0 })), kind)
            },
        ),
    }
}

fn make_wave(n: &Json, mode: u32, wave: Wave) -> (r: Result<OutputSource, Error>)
    ensures
        match wave_from(n@, wave) {
            Ok(k) => r matches Ok(s) && s@ == fresh(mode, k) && s.wf(),
            Err(m) => r matches Err(e) && e@ == m,
        },
{
    let offset = match json_float_prop(n, "offset") {
        Ok(d) => d,
        Err(e) => return Err(e),
    };
    let amplitude = match json_float_prop(n, "amplitude") {
        Ok(d) => d,
        Err(e) => return Err(e),
    };
    let period = match json_float_prop(n, "period") {
        Ok(d) => d,
        Err(e) => return Err(e),
    };
    let phase = json_float_prop_def(n, "phase", Double { bits: 0 });
    let rel_phase = json_bool_prop_def(n, "relPhase", true);
    Ok(OutputSource::periodic(mode, wave, offset, amplitude, period, phase, rel_phase))
}

fn make_square(n: &Json, mode: u32) -> (r: Result<OutputSource, Error>)
    ensures
        match square_from(n@) {
            Ok(k) => r matches Ok(s) && s@ == fresh(mode, k) && s.wf(),
            Err(m) => r matches Err(e) && e@ == m,
        },
{
    let high = match json_float_prop(n, "high") {
        Ok(d) => d.narrow(),
        Err(e) => return Err(e),
    };
    let low = match json_float_prop(n, "low") {
        Ok(d) => d.narrow(),
        Err(e) => return Err(e),
    };
    let high_samples = match json_int_prop(n, "highSamples") {
        Ok(i) => i,
        Err(e) => return Err(e),
    };
    let low_samples = match json_int_prop(n, "lowSamples") {
        Ok(i) => i,
        Err(e) => return Err(e),
    };
    let phase = json_int_prop_def(n, "phase", 0);
    let rel_phase = json_bool_prop_def(n, "relPhase", true);
    OutputSource::adv_square(
        mode,
        high,
        low,
        #[verifier::truncate]
        (high_samples as u32),
        #[verifier::truncate]
        (low_samples as u32),
        phase,
        rel_phase,
    )
}

fn make_arb(n: &Json, mode: u32) -> (r: Result<OutputSource, Error>)
    ensures
        match arb_from(n@) {
            Ok(k) => r matches Ok(s) && s@ == fresh(mode, k) && s.wf(),
            Err(m) => r matches Err(e) && e@ == m,
        },
{
    let phase = json_int_prop_def(n, "phase", -1);
    let repeat = json_int_prop_def(n, "repeat", 0);
    match n.get("values") {
        Some(Json::Array(a)) => {
            let mut values: Vec<(i64, Single)> = Vec::new();
            let mut i: usize = 0;
            proof {
                lemma_trees_at(a@);
                assert(trees(a@).take(0) =~= Seq::empty());
            }
            while i < a.len()
                invariant
                    i <= a.len(),
                    trees(a@).len() == a.len(),
                    forall|j: int| 0 <= j < a.len() ==> #[trigger] trees(a@)[j] == tree(a@[j]),
                    points_from(trees(a@).take(i as int)) == Ok::<Seq<(i64, Single)>, Seq<char>>(
                        values@,
                    ),
                    array_at(n@, "values"@) == Some(trees(a@)),
                decreases a.len() - i,
            {
                let ghost head = trees(a@).take(i + 1);
                assert(head.drop_last() =~= trees(a@).take(i as int));
                assert(head.last() == a@[i as int]@);
                let t = match json_int_prop(&a[i], "t") {
                    Ok(t) => t,
                    Err(e) => {
                        proof {
                            lemma_first_fault(trees(a@), i + 1);
                        }
                        return Err(e);
                    },
                };
                let v = match json_float_prop(&a[i], "v") {
                    Ok(v) => v,
                    Err(e) => {
                        proof {
                            lemma_first_fault(trees(a@), i + 1);
                        }
                        return Err(e);
                    },
                };
                values.push((t, v.narrow()));
                i += 1;
            }
            assert(trees(a@).take(i as int) =~= trees(a@));
            OutputSource::arb(mode, phase, values, repeat)
        },
        _ => Err(Error::new("JSON missing property: values")),
    }
}

/// A complaint about the first points is the complaint about all of them.
proof fn lemma_first_fault(a: Seq<JsonTree>, i: int)
    requires
        0 <= i <= a.len(),
        points_from(a.take(i)) is Err,
    ensures
        points_from(a) == points_from(a.take(i)),
    decreases a.len(),
{
    if i < a.len() {
        assert(a.drop_last().take(i) =~= a.take(i));
        lemma_first_fault(a.drop_last(), i);
    } else {
        assert(a.take(i) =~= a);
    }
}

/// Builds the source that a `set` command or a posted document asks for.
pub fn make_source(n: &Json) -> (r: Result<OutputSource, Error>)
    ensures
        match source_from(n@) {
            Ok(v) => r matches Ok(s) && s@ == v && s.wf(),
            Err(m) => r matches Err(e) && e@ == m,
        },
{
    let source = json_string_prop_def(n, "source", "constant");
    let mode = to_count(json_float_prop_def(n, "mode", Double { bits: 0 }));
    let hint = json_string_prop_def(n, "hint", "");
    let made = if same(source.as_str(), "constant") {
        let value = json_float_prop_def(n, "value", Double { bits: 0 }).narrow();
        Ok(OutputSource::constant(mode, value))
    } else if same(source.as_str(), "adv_square") {
        make_square(n, mode)
    } else if same(source.as_str(), "sine") {
        make_wave(n, mode, Wave::Sine)
    } else if same(source.as_str(), "triangle") {
        make_wave(n, mode, Wave::Triangle)
    } else if same(source.as_str(), "square") {
        make_wave(n, mode, Wave::Square)
    } else if same(source.as_str(), "arb") {
        make_arb(n, mode)
    } else {
        Err(Error::new("Invalid source"))
    };
    match made {
        Ok(mut s) => {
            s.hint = hint;
            Ok(s)
        },
        Err(e) => Err(e),
    }
}

} // verus!
