//! What holds of sources that are asked for, in a form or in a document, and of their
//! descriptions.

use crate::float::{Double, Single};
use crate::form::{
    all_numbers, decoded, mode_of, numbers_read, operands_of, plan_of, points_of, source_made,
    FormTimes, PlanView,
};
use crate::jsonutil::{array_at, bool_at, int_at, number_at, string_at, JsonTree};
use crate::laws::numbers::law_low_bits_are_kept;
use crate::rest::{field_at, fields};
use crate::source::{arb_fault, kind_name, points_from, source_from, KindView, SourceView, Wave};
use crate::text::{pieces, small};
use vstd::prelude::*;

verus! {

/// Whether a kind of source is the one that a word names.
pub open spec fn called(word: Seq<char>, kind: KindView) -> bool {
    match kind {
        KindView::Constant { .. } => word == "constant"@,
        KindView::Periodic { wave, .. } => match wave {
            Wave::Sine => word == "sine"@,
            Wave::Triangle => word == "triangle"@,
            Wave::Square => word == "square"@,
        },
        KindView::AdvSquare { .. } => word == "adv_square"@,
        KindView::Arb { .. } => word == "arb"@,
    }
}

/// The words that name sources are different from each other.
pub proof fn lemma_words_differ()
    ensures
        "constant"@ != "sine"@,
        "constant"@ != "triangle"@,
        "constant"@ != "square"@,
        "constant"@ != "adv_square"@,
        "constant"@ != "arb"@,
        "sine"@ != "triangle"@,
        "sine"@ != "square"@,
        "sine"@ != "adv_square"@,
        "sine"@ != "arb"@,
        "triangle"@ != "square"@,
        "triangle"@ != "adv_square"@,
        "triangle"@ != "arb"@,
        "square"@ != "adv_square"@,
        "square"@ != "arb"@,
        "adv_square"@ != "arb"@,
{
    reveal_strlit("constant");
    reveal_strlit("sine");
    reveal_strlit("triangle");
    reveal_strlit("square");
    reveal_strlit("adv_square");
    reveal_strlit("arb");
    assert("constant"@[0] != "triangle"@[0]);
    assert("constant"@.len() == 8);
    assert("sine"@.len() == 4);
    assert("triangle"@.len() == 8);
    assert("square"@.len() == 6);
    assert("adv_square"@.len() == 10);
    assert("arb"@.len() == 3);
}

/// No two kinds of source have the same name, and a source that is described has the
/// name of its kind.
pub proof fn law_names_tell_kinds_apart(kind: KindView, word: Seq<char>)
    ensures
        called(word, kind) <==> word == kind_name(kind),
        kind_name(kind) == "constant"@ ==> kind is Constant,
        kind_name(kind) == "sine"@ ==> kind is Periodic && kind->wave == Wave::Sine,
        kind_name(kind) == "triangle"@ ==> kind is Periodic && kind->wave == Wave::Triangle,
        kind_name(kind) == "square"@ ==> kind is Periodic && kind->wave == Wave::Square,
        kind_name(kind) == "adv_square"@ ==> kind is AdvSquare,
        kind_name(kind) == "arb"@ ==> kind is Arb,
{
    lemma_words_differ();
}

/// A source that a form makes is the one that the form names, and a form that names
/// none makes a constant; a document that names the same source makes one of the same
/// kind; and a word that names no source makes none.
pub proof fn law_source_is_the_one_named(
    body: Seq<char>,
    numbers: Seq<Double>,
    times: FormTimes,
    n: JsonTree,
)
    ensures
        source_made(plan_of(body), numbers, times) matches Ok(s) ==> {
            let word = field_at(fields(body), "wave"@).unwrap_or("constant"@);
            &&& called(word, s.kind)
            &&& kind_name(s.kind) == word
            &&& source_from(n) matches Ok(q) ==> (string_at(n, "source"@).unwrap_or("constant"@)
                == word <==> kind_name(q.kind) == kind_name(s.kind))
        },
        source_from(n) matches Ok(q) ==> {
            let word = string_at(n, "source"@).unwrap_or("constant"@);
            &&& called(word, q.kind)
            &&& kind_name(q.kind) == word
        },
        ({
            let word = field_at(fields(body), "wave"@).unwrap_or("constant"@);
            word != "constant"@ && word != "sine"@ && word != "triangle"@ && word != "square"@
                && word != "adv_square"@ && word != "arb"@ ==> source_made(
                plan_of(body),
                numbers,
                times,
            ) == Err::<SourceView, Seq<char>>("Invalid source"@)
        }),
        ({
            let word = string_at(n, "source"@).unwrap_or("constant"@);
            word != "constant"@ && word != "sine"@ && word != "triangle"@ && word != "square"@
                && word != "adv_square"@ && word != "arb"@ ==> source_from(n) == Err::<
                SourceView,
                Seq<char>,
            >("Invalid source"@)
        }),
{
    lemma_words_differ();
}

/// Constants, sines, triangles and squares are always made of a form whose numbers
/// could be read; so what a form names is what it gets.
pub proof fn law_named_waves_are_made(body: Seq<char>, numbers: Seq<Double>, times: FormTimes)
    ensures
        ({
            let word = field_at(fields(body), "wave"@).unwrap_or("constant"@);
            let made = source_made(plan_of(body), numbers, times);
            word == "constant"@ || word == "sine"@ || word == "triangle"@ || word == "square"@
                ==> made is Ok && kind_name(made->Ok_0.kind) == word
        }),
{
    lemma_words_differ();
}

/// Every number in a source comes from the field of the form that is named after it,
/// and where the form has no such field, from the value that it has then: zero for
/// levels and amplitudes, half a second for the times of a square, one for frequency
/// and phase of a wave, and a phase of -1, which is none, for points.
pub proof fn law_numbers_come_from_their_fields(
    body: Seq<char>,
    numbers: Seq<Double>,
    times: FormTimes,
)
    ensures
        ({
            let p = plan_of(body);
            let m = fields(body);
            &&& p.numbers.len() >= 1
            &&& p.numbers[0].key == "value"@
            &&& p.numbers[0].default.bits == 0
            &&& forall|i: int|
                0 <= i < p.numbers.len() ==> (#[trigger] p.numbers[i]).text == field_at(
                    m,
                    p.numbers[i].key,
                )
            &&& source_made(p, numbers, times) matches Ok(s) ==> match s.kind {
                KindView::Constant { value } => p.numbers.len() == 1 && value
                    == numbers[0].narrowed(),
                KindView::Periodic { offset, amplitude, period, phase, .. } => {
                    &&& p.numbers.len() == 4
                    &&& p.numbers[1].key == "amplitude"@
                    &&& p.numbers[1].default.bits == 0
                    &&& p.numbers[2].key == "frequency"@
                    &&& p.numbers[2].default.bits == 0x3ff0_0000_0000_0000
                    &&& p.numbers[3].key == "phase"@
                    &&& p.numbers[3].default.bits == 0x3ff0_0000_0000_0000
                    &&& offset == times.offset
                    &&& amplitude == numbers[1]
                    &&& period == times.period
                    &&& phase == times.wave_phase
                },
                KindView::AdvSquare { high, low, high_samples, low_samples, phase, .. } => {
                    &&& p.numbers.len() == 6
                    &&& p.numbers[1].key == "value1"@
                    &&& p.numbers[1].default.bits == 0
                    &&& p.numbers[2].key == "value2"@
                    &&& p.numbers[2].default.bits == 0
                    &&& p.numbers[3].key == "time1"@
                    &&& p.numbers[3].default.bits == 0x3fe0_0000_0000_0000
                    &&& p.numbers[4].key == "time2"@
                    &&& p.numbers[4].default.bits == 0x3fe0_0000_0000_0000
                    &&& p.numbers[5].key == "phase"@
                    &&& p.numbers[5].default.bits == 0
                    &&& high == numbers[1].narrowed()
                    &&& low == numbers[2].narrowed()
                    &&& times.high > 0 ==> high_samples == times.high as int % 0x1_0000_0000
                    &&& times.high <= 0 ==> high_samples == 1
                    &&& times.low > 0 ==> low_samples == times.low as int % 0x1_0000_0000
                    &&& times.low <= 0 ==> low_samples == 1
                    &&& phase == times.phase
                },
                KindView::Arb { phase, start_time, index, repeat_count, .. } => {
                    &&& p.numbers.len() == 3
                    &&& p.numbers[1].key == "phase"@
                    &&& p.numbers[1].default.bits == 0xbff0_0000_0000_0000
                    &&& p.numbers[2].key == "repeat"@
                    &&& p.numbers[2].default.bits == 0
                    &&& times.phase >= 0 ==> phase == times.phase
                    &&& times.phase < 0 ==> phase == -1
                    &&& start_time == 0
                    &&& index == 0
                    &&& numbers[2].integer() != 0 ==> repeat_count == numbers[2].integer()
                    &&& numbers[2].integer() == 0 ==> repeat_count == 1
                },
            }
        }),
{
    law_low_bits_are_kept(times.high);
    law_low_bits_are_kept(times.low);
}

proof fn lemma_all_numbers(v: Seq<(Option<i64>, Option<Single>)>)
    ensures
        all_numbers(v) matches Some(values) ==> values.len() == v.len() && forall|i: int|
            0 <= i < v.len() ==> (#[trigger] v[i]) == (Some(values[i].0), Some(values[i].1)),
        all_numbers(v) is None <==> exists|i: int|
            0 <= i < v.len() && ((#[trigger] v[i]).0 is None || v[i].1 is None),
    decreases v.len(),
{
    if v.len() > 0 {
        let w = v.drop_last();
        lemma_all_numbers(w);
        assert forall|i: int| 0 <= i < w.len() implies (#[trigger] w[i]) == v[i] by {}
        if all_numbers(w) is None {
            let i = choose|i: int| 0 <= i < w.len() && ((#[trigger] w[i]).0 is None || w[i].1 is None);
            assert(v[i].0 is None || v[i].1 is None);
        } else {
            assert forall|i: int| 0 <= i < w.len() implies (#[trigger] v[i]).0 is Some && v[i].1
                is Some by {
                assert(w[i] == v[i]);
            }
            if all_numbers(v) is None {
                assert(v[v.len() - 1].0 is None || v[v.len() - 1].1 is None);
            } else {
                let values = all_numbers(v)->Some_0;
                assert forall|i: int| 0 <= i < v.len() implies (#[trigger] v[i]) == (
                    Some(values[i].0),
                    Some(values[i].1),
                ) by {
                    if i < w.len() {
                        assert(w[i] == v[i]);
                    }
                }
            }
        }
    }
}

/// The points of a source are the points of the form, in their order; and where one of
/// them is no number, or the list is none, there is no source.
pub proof fn law_points_are_taken_over(body: Seq<char>, numbers: Seq<Double>, times: FormTimes)
    requires
        field_at(fields(body), "wave"@) == Some("arb"@),
    ensures
        ({
            let p = plan_of(body);
            let v = times.points@;
            &&& p.points == points_of(
                pieces(decoded(field_at(fields(body), "points"@).unwrap_or(""@)), ','),
            )
            &&& p.points is None || (exists|i: int|
                0 <= i < v.len() && ((#[trigger] v[i]).0 is None || v[i].1 is None))
                ==> source_made(p, numbers, times) == Err::<SourceView, Seq<char>>(
                "Invalid arbitrary wave point spec"@,
            )
            &&& source_made(p, numbers, times) matches Ok(s) ==> s.kind is Arb && s.kind->values.len()
                == v.len() && forall|i: int|
                0 <= i < v.len() ==> (#[trigger] v[i]) == (
                    Some(s.kind->values[i].0),
                    Some(s.kind->values[i].1),
                )
        }),
{
    lemma_words_differ();
    lemma_all_numbers(times.points@);
}

/// Mode, hint and the wish to keep the phase come from the form; a fresh source has
/// not started.
pub proof fn law_source_keeps_what_the_form_says(
    body: Seq<char>,
    numbers: Seq<Double>,
    times: FormTimes,
)
    ensures
        source_made(plan_of(body), numbers, times) matches Ok(s) ==> {
            let m = fields(body);
            &&& s.hint == field_at(m, "hint"@).unwrap_or(""@)
            &&& s.mode == mode_of(field_at(m, "mode"@).unwrap_or("0"@))
            &&& s.start_sample == 0
            &&& !s.effective
            &&& s.kind matches KindView::Periodic { rel_phase, .. } ==> rel_phase == (field_at(
                m,
                "relPhase"@,
            ) is None || field_at(m, "relPhase"@) == Some("1"@))
            &&& s.kind matches KindView::AdvSquare { rel_phase, .. } ==> rel_phase == (field_at(
                m,
                "relPhase"@,
            ) is None || field_at(m, "relPhase"@) == Some("1"@))
        },
{
}

/// The words for the modes, in small letters or capital ones.
pub proof fn law_mode_words(word: Seq<char>, other: Seq<char>)
    ensures
        mode_of("1"@) == 1,
        mode_of("svmi"@) == 1,
        mode_of("v"@) == 1,
        mode_of("2"@) == 2,
        mode_of("simv"@) == 2,
        mode_of("i"@) == 2,
        mode_of("0"@) == 0,
        mode_of("disabled"@) == 0,
        mode_of(""@) == 0,
        mode_of(word) <= 2,
        word.len() != 1 && word.len() != 4 ==> mode_of(word) == 0,
        word.len() == other.len() && (forall|i: int|
            0 <= i < word.len() ==> (#[trigger] word[i] == other[i] || ('A' <= word[i] <= 'Z'
                && other[i] as int == word[i] as int + 32))) ==> mode_of(word) == mode_of(other),
{
    reveal_strlit("1");
    reveal_strlit("svmi");
    reveal_strlit("v");
    reveal_strlit("2");
    reveal_strlit("simv");
    reveal_strlit("i");
    reveal_strlit("0");
    reveal_strlit("disabled");
    reveal_strlit("");
    let f = |c: char| small(c);
    assert("1"@.map_values(f) =~= "1"@);
    assert("svmi"@.map_values(f) =~= "svmi"@);
    assert("v"@.map_values(f) =~= "v"@);
    assert("2"@.map_values(f) =~= "2"@);
    assert("simv"@.map_values(f) =~= "simv"@);
    assert("i"@.map_values(f) =~= "i"@);
    assert("0"@.map_values(f) =~= "0"@);
    assert("2"@[0] != "1"@[0]);
    assert("2"@[0] != "v"@[0]);
    assert("i"@[0] != "1"@[0]);
    assert("i"@[0] != "v"@[0]);
    assert("0"@[0] != "1"@[0]);
    assert("0"@[0] != "2"@[0]);
    assert("0"@[0] != "v"@[0]);
    assert("0"@[0] != "i"@[0]);
    assert("simv"@[1] != "svmi"@[1]);
    assert("disabled"@.map_values(f).len() == 8);
    assert(""@.map_values(f).len() == 0);
    assert(word.map_values(f).len() == word.len());
    if word.len() == other.len() && (forall|i: int|
        0 <= i < word.len() ==> (#[trigger] word[i] == other[i] || ('A' <= word[i] <= 'Z'
            && other[i] as int == word[i] as int + 32))) {
        assert forall|i: int| 0 <= i < word.len() implies small(#[trigger] word[i]) == small(
            other[i],
        ) by {}
        assert(word.map_values(f) =~= other.map_values(f));
    }
}

// ---- numbers of a form ----

proof fn lemma_numbers_read(p: PlanView, v: Seq<Option<Double>>, n: int)
    requires
        0 <= n <= p.numbers.len(),
    ensures
        (forall|i: int| 0 <= i < n ==> (#[trigger] v[i]) is Some) ==> {
            let r = numbers_read(p.numbers.take(n), v);
            r is Ok && r->Ok_0.len() == n && forall|i: int|
                0 <= i < n ==> #[trigger] r->Ok_0[i] == v[i]->Some_0
        },
        forall|k: int|
            0 <= k < n && (#[trigger] v[k]) is None && (forall|i: int|
                0 <= i < k ==> (#[trigger] v[i]) is Some) ==> numbers_read(p.numbers.take(n), v)
                == Err::<Seq<Double>, Seq<char>>(
                "Invalid number for parameter "@ + p.numbers[k].key,
            ),
    decreases n,
{
    let q = p.numbers.take(n);
    if n > 0 {
        lemma_numbers_read(p, v, n - 1);
        assert(q.drop_last() =~= p.numbers.take(n - 1));
        assert(q.last() == p.numbers[n - 1]);
        assert forall|k: int|
            0 <= k < n && (#[trigger] v[k]) is None && (forall|i: int|
                0 <= i < k ==> (#[trigger] v[i]) is Some) implies numbers_read(q, v) == Err::<
            Seq<Double>,
            Seq<char>,
        >("Invalid number for parameter "@ + p.numbers[k].key) by {
            if k == n - 1 {
                assert(forall|i: int| 0 <= i < n - 1 ==> (#[trigger] v[i]) is Some);
            }
        }
    }
}

/// Numbers that could be read count as they are, in their order, but for a frequency
/// that is not positive, which is taken as a thousandth; and of those that could not be
/// read the first is complained of by its name.
pub proof fn law_numbers_are_read_in_order(body: Seq<char>, v: Seq<Option<Double>>, k: int)
    requires
        v.len() == plan_of(body).numbers.len(),
    ensures
        ({
            let p = plan_of(body);
            &&& (forall|i: int| 0 <= i < v.len() ==> (#[trigger] v[i]) is Some) && !(p.kind
                is Invalid) ==> {
                let r = operands_of(p, v);
                &&& r is Ok
                &&& r->Ok_0.len() == v.len()
                &&& forall|i: int|
                    0 <= i < v.len() && !(i == 2 && p.kind is Wave) ==> #[trigger] r->Ok_0[i]
                        == v[i]->Some_0
                &&& p.kind is Wave ==> {
                    let f = v[2]->Some_0;
                    &&& f.above(Double { bits: 0 }) || f.nan() ==> r->Ok_0[2] == f
                    &&& !(f.above(Double { bits: 0 }) || f.nan()) ==> r->Ok_0[2].bits
                        == 0x3f50_624d_d2f1_a9fc
                }
            }
            &&& 0 <= k < v.len() && v[k] is None && (forall|i: int|
                0 <= i < k ==> (#[trigger] v[i]) is Some) ==> operands_of(p, v) == Err::<
                Seq<Double>,
                Seq<char>,
            >("Invalid number for parameter "@ + p.numbers[k].key)
        }),
{
    let p = plan_of(body);
    lemma_numbers_read(p, v, v.len() as int);
    assert(p.numbers.take(v.len() as int) =~= p.numbers);
}

// ---- documents ----

/// The members of a document that a source is read from, by its name.
pub proof fn law_document_gives_the_numbers(n: JsonTree)
    ensures
        source_from(n) matches Ok(s) ==> {
            &&& s.hint == string_at(n, "hint"@).unwrap_or(""@)
            &&& s.start_sample == 0
            &&& !s.effective
            &&& int_at(n, "mode"@) is None ==> s.mode == 0
            &&& int_at(n, "mode"@) matches Some(m) ==> (0 <= m <= u32::MAX ==> s.mode == m) && (m
                < 0 ==> s.mode == 0) && (m > u32::MAX ==> s.mode == u32::MAX)
            &&& match s.kind {
                KindView::Constant { value } => value == number_at(n, "value"@).unwrap_or(
                    Double { bits: 0 },
                ).narrowed(),
                KindView::Periodic { offset, amplitude, period, phase, rel_phase, .. } => {
                    &&& number_at(n, "offset"@) == Some(offset)
                    &&& number_at(n, "amplitude"@) == Some(amplitude)
                    &&& number_at(n, "period"@) == Some(period)
                    &&& phase == number_at(n, "phase"@).unwrap_or(Double { bits: 0 })
                    &&& rel_phase == bool_at(n, "relPhase"@).unwrap_or(true)
                },
                KindView::AdvSquare { high, low, high_samples, low_samples, phase, rel_phase } => {
                    &&& number_at(n, "high"@) is Some
                    &&& number_at(n, "low"@) is Some
                    &&& int_at(n, "highSamples"@) is Some
                    &&& int_at(n, "lowSamples"@) is Some
                    &&& high == number_at(n, "high"@)->Some_0.narrowed()
                    &&& low == number_at(n, "low"@)->Some_0.narrowed()
                    &&& high_samples == int_at(n, "highSamples"@)->Some_0 as int % 0x1_0000_0000
                    &&& low_samples == int_at(n, "lowSamples"@)->Some_0 as int % 0x1_0000_0000
                    &&& phase == int_at(n, "phase"@).unwrap_or(0)
                    &&& rel_phase == bool_at(n, "relPhase"@).unwrap_or(true)
                },
                KindView::Arb { phase, start_time, values, index, repeat_count } => {
                    &&& array_at(n, "values"@) matches Some(a) && values.len() == a.len() && (
                    forall|i: int|
                        0 <= i < a.len() ==> int_at(#[trigger] a[i], "t"@) == Some(values[i].0)
                            && (number_at(a[i], "v"@) matches Some(v) && v.narrowed()
                            == values[i].1))
                    &&& phase == int_at(n, "phase"@).unwrap_or(-1i64)
                    &&& start_time == 0
                    &&& index == 0
                    &&& ({
                        let r = int_at(n, "repeat"@).unwrap_or(0);
                        (r != 0 ==> repeat_count == r) && (r == 0 ==> repeat_count == 1)
                    })
                },
            }
        },
{
    law_low_bits_are_kept(int_at(n, "highSamples"@).unwrap_or(0));
    law_low_bits_are_kept(int_at(n, "lowSamples"@).unwrap_or(0));
    if let Some(a) = array_at(n, "values"@) {
        lemma_points_from(a);
    }
}

proof fn lemma_points_from(a: Seq<JsonTree>)
    ensures
        points_from(a) matches Ok(values) ==> values.len() == a.len() && forall|i: int|
            0 <= i < a.len() ==> int_at(#[trigger] a[i], "t"@) == Some(values[i].0) && (number_at(
                a[i],
                "v"@,
            ) matches Some(v) && v.narrowed() == values[i].1),
    decreases a.len(),
{
    if a.len() > 0 {
        let b = a.drop_last();
        lemma_points_from(b);
        if let Ok(values) = points_from(a) {
            assert forall|i: int| 0 <= i < a.len() implies int_at(#[trigger] a[i], "t"@) == Some(
                values[i].0,
            ) && (number_at(a[i], "v"@) matches Some(v) && v.narrowed() == values[i].1) by {
                if i < a.len() - 1 {
                    assert(b[i] == a[i]);
                } else {
                    assert(a.last() == a[i]);
                }
            }
        }
    }
}

/// A document that lacks a number of its source makes none, and the first that it lacks
/// is told; and a square wave without samples is none either.
pub proof fn law_missing_numbers_are_told(n: JsonTree)
    ensures
        ({
            let word = string_at(n, "source"@);
            let wave = word == Some("sine"@) || word == Some("triangle"@) || word == Some(
                "square"@,
            );
            let square = word == Some("adv_square"@);
            let no_float = "JSON missing float property: "@;
            let no_int = "JSON missing int property: "@;
            let r = source_from(n);
            let had = |key: Seq<char>| number_at(n, key) is Some;
            &&& wave && !had("offset"@) ==> r == Err::<SourceView, Seq<char>>(no_float + "offset"@)
            &&& wave && had("offset"@) && !had("amplitude"@) ==> r == Err::<SourceView, Seq<char>>(
                no_float + "amplitude"@,
            )
            &&& wave && had("offset"@) && had("amplitude"@) && !had("period"@) ==> r == Err::<
                SourceView,
                Seq<char>,
            >(no_float + "period"@)
            &&& wave && had("offset"@) && had("amplitude"@) && had("period"@) ==> r is Ok
            &&& square && !had("high"@) ==> r == Err::<SourceView, Seq<char>>(no_float + "high"@)
            &&& square && had("high"@) && !had("low"@) ==> r == Err::<SourceView, Seq<char>>(
                no_float + "low"@,
            )
            &&& square && had("high"@) && had("low"@) && !had("highSamples"@) ==> r == Err::<
                SourceView,
                Seq<char>,
            >(no_int + "highSamples"@)
            &&& square && had("high"@) && had("low"@) && had("highSamples"@) && !had("lowSamples"@)
                ==> r == Err::<SourceView, Seq<char>>(no_int + "lowSamples"@)
            &&& square && had("high"@) && had("low"@) && had("highSamples"@) && had("lowSamples"@)
                ==> {
                let none = int_at(n, "highSamples"@)->Some_0 as int % 0x1_0000_0000 == 0 && int_at(
                    n,
                    "lowSamples"@,
                )->Some_0 as int % 0x1_0000_0000 == 0;
                &&& none ==> r == Err::<SourceView, Seq<char>>(
                    "Square wave must have nonzero period."@,
                )
                &&& !none ==> r is Ok
            }
            &&& word is None || word == Some("constant"@) ==> r is Ok
        }),
{
    lemma_words_differ();
    law_low_bits_are_kept(int_at(n, "highSamples"@).unwrap_or(0));
    law_low_bits_are_kept(int_at(n, "lowSamples"@).unwrap_or(0));
}

/// Points that make no wave are refused with what is wrong with them, in a document as
/// in a form; points that make one are taken.
pub proof fn law_bad_points_are_refused(n: JsonTree, a: Seq<JsonTree>, values: Seq<(i64, Single)>)
    requires
        string_at(n, "source"@) == Some("arb"@),
        array_at(n, "values"@) == Some(a),
        points_from(a) == Ok::<Seq<(i64, Single)>, Seq<char>>(values),
    ensures
        ({
            let r = int_at(n, "repeat"@).unwrap_or(0);
            let passes = if r == 0 {
                1
            } else {
                r
            };
            match arb_fault(values, passes) {
                Some(m) => source_from(n) == Err::<SourceView, Seq<char>>(m),
                None => source_from(n) is Ok,
            }
        }),
{
    lemma_words_differ();
}

/// A document of points without a list, or with a point that lacks its time or its
/// value, makes no source, and the first thing that is missing is told.
pub proof fn law_missing_points_are_told(n: JsonTree, a: Seq<JsonTree>, i: int)
    requires
        string_at(n, "source"@) == Some("arb"@),
        0 <= i < a.len(),
        forall|j: int|
            0 <= j < i ==> int_at(#[trigger] a[j], "t"@) is Some && number_at(a[j], "v"@) is Some,
    ensures
        array_at(n, "values"@) is None ==> source_from(n) == Err::<SourceView, Seq<char>>(
            "JSON missing property: values"@,
        ),
        array_at(n, "values"@) == Some(a) && int_at(a[i], "t"@) is None ==> source_from(n) == Err::<
            SourceView,
            Seq<char>,
        >("JSON missing int property: "@ + "t"@),
        array_at(n, "values"@) == Some(a) && int_at(a[i], "t"@) is Some && number_at(a[i], "v"@)
            is None ==> source_from(n) == Err::<SourceView, Seq<char>>(
            "JSON missing float property: "@ + "v"@,
        ),
{
    lemma_words_differ();
    lemma_points_fault(a, i);
}

proof fn lemma_points_fault(a: Seq<JsonTree>, i: int)
    requires
        0 <= i < a.len(),
        forall|j: int|
            0 <= j < i ==> int_at(#[trigger] a[j], "t"@) is Some && number_at(a[j], "v"@) is Some,
    ensures
        int_at(a[i], "t"@) is None ==> points_from(a) == Err::<Seq<(i64, Single)>, Seq<char>>(
            "JSON missing int property: "@ + "t"@,
        ),
        int_at(a[i], "t"@) is Some && number_at(a[i], "v"@) is None ==> points_from(a) == Err::<
            Seq<(i64, Single)>,
            Seq<char>,
        >("JSON missing float property: "@ + "v"@),
    decreases a.len(),
{
    let b = a.drop_last();
    assert forall|j: int| 0 <= j < i && j < b.len() implies int_at(#[trigger] b[j], "t"@) is Some
        && number_at(b[j], "v"@) is Some by {
        assert(b[j] == a[j]);
    }
    if i < b.len() {
        assert(b[i] == a[i]);
        lemma_points_fault(b, i);
    } else {
        assert(a.last() == a[i]);
        lemma_points_ok(b);
    }
}

proof fn lemma_points_ok(a: Seq<JsonTree>)
    requires
        forall|j: int|
            0 <= j < a.len() ==> int_at(#[trigger] a[j], "t"@) is Some && number_at(a[j], "v"@)
                is Some,
    ensures
        points_from(a) is Ok,
    decreases a.len(),
{
    if a.len() > 0 {
        let b = a.drop_last();
        assert forall|j: int| 0 <= j < b.len() implies int_at(#[trigger] b[j], "t"@) is Some
            && number_at(b[j], "v"@) is Some by {
            assert(b[j] == a[j]);
        }
        lemma_points_ok(b);
        assert(a.last() == a[a.len() - 1]);
    }
}

/// A square wave of a form has samples, whatever its times are; and one whose times
/// have no room in 32 bits and leave nothing is refused.
pub proof fn law_square_of_a_form(body: Seq<char>, numbers: Seq<Double>, times: FormTimes)
    requires
        field_at(fields(body), "wave"@) == Some("adv_square"@),
    ensures
        ({
            let r = source_made(plan_of(body), numbers, times);
            let none = times.high > 0 && times.low > 0 && times.high as int % 0x1_0000_0000 == 0
                && times.low as int % 0x1_0000_0000 == 0;
            &&& none ==> r == Err::<SourceView, Seq<char>>("Square wave must have nonzero period."@)
            &&& !none ==> r is Ok
        }),
{
    lemma_words_differ();
    law_low_bits_are_kept(times.high);
    law_low_bits_are_kept(times.low);
}

/// Points of a form that make no wave are refused with what is wrong with them.
pub proof fn law_bad_points_of_a_form(
    body: Seq<char>,
    numbers: Seq<Double>,
    times: FormTimes,
    values: Seq<(i64, Single)>,
)
    requires
        field_at(fields(body), "wave"@) == Some("arb"@),
        plan_of(body).points is Some,
        values.len() == times.points@.len(),
        forall|i: int|
            0 <= i < values.len() ==> (#[trigger] times.points@[i]) == (
                Some(values[i].0),
                Some(values[i].1),
            ),
    ensures
        ({
            let r = numbers[2].integer();
            let passes = if r == 0 {
                1
            } else {
                r
            };
            match arb_fault(values, passes) {
                Some(m) => source_made(plan_of(body), numbers, times) == Err::<
                    SourceView,
                    Seq<char>,
                >(m),
                None => source_made(plan_of(body), numbers, times) is Ok,
            }
        }),
{
    lemma_words_differ();
    lemma_all_numbers(times.points@);
    let v = times.points@;
    assert(all_numbers(v) is Some) by {
        if all_numbers(v) is None {
            let i = choose|i: int|
                0 <= i < v.len() && ((#[trigger] v[i]).0 is None || v[i].1 is None);
            assert(v[i] == (Some(values[i].0), Some(values[i].1)));
        }
    }
    let taken = all_numbers(v)->Some_0;
    assert forall|i: int| 0 <= i < v.len() implies taken[i] == values[i] by {
        assert(v[i] == (Some(values[i].0), Some(values[i].1)));
    }
    assert(taken =~= values);
}

} // verus!
