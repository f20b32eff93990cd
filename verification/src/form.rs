//! Sources that are posted as forms.
//!
//! The numbers of a form are floating-point texts, and its times are seconds.
//! So a source comes of a form in steps: the form says which numbers it needs;
//! the caller reads them; the form says what is wrong or which numbers count; the
//! caller turns seconds into samples; and the source is made.

use crate::float::{Double, Single};
use crate::jsonutil::Error;
use crate::rest::{field_at, fields, parse_query, Params};
use crate::source::{
    arb_fault, fresh, pass_count, KindView, OutputSource, SourceView, Wave,
};
use crate::text::{
    chars_of, halves, joined, lowercase, pieces, same, small, split, split_once, texts,
};
use vstd::prelude::*;
use vstd::string::*;

verus! {

/// -1, 0.001, 0.5 and 1 in binary64.
pub const MINUS_ONE_BITS: u64 = 0xbff0_0000_0000_0000;

pub const MILLI_BITS: u64 = 0x3f50_624d_d2f1_a9fc;

pub const HALF_BITS: u64 = 0x3fe0_0000_0000_0000;

pub const PLUS_ONE_BITS: u64 = 0x3ff0_0000_0000_0000;

/// What a form asks for.
#[derive(Clone, Copy, Debug, PartialEq, Eq, Structural)]
pub enum FormKind {
    Constant,
    Square,
    Arb,
    Wave(Wave),
    Invalid,
}

/// A number that a form needs.
#[derive(Debug)]
pub struct NumberField {
    pub key: String,
    /// The text of the number, where the form has it.
    pub text: Option<String>,
    /// The number where it has not.
    pub default: Double,
}

#[verifier::ext_equal]
pub ghost struct NumberView {
    pub key: Seq<char>,
    pub text: Option<Seq<char>>,
    pub default: Double,
}

pub open spec fn opt_text(s: Option<String>) -> Option<Seq<char>> {
    match s {
        Some(x) => Some(x@),
        None => None,
    }
}

impl View for NumberField {
    type V = NumberView;

    open spec fn view(&self) -> NumberView {
        NumberView { key: self.key@, text: opt_text(self.text), default: self.default }
    }
}

/// A form that was taken apart.
#[derive(Debug)]
pub struct FormPlan {
    pub kind: FormKind,
    pub mode: u32,
    pub hint: String,
    pub rel_phase: bool,
    /// The numbers, in the order in which complaints about them come.
    pub numbers: Vec<NumberField>,
    /// Times and values of the points of an `Arb`; nothing where they are
    /// malformed.
    pub points: Option<Vec<(String, String)>>,
}

#[verifier::ext_equal]
pub ghost struct PlanView {
    pub kind: FormKind,
    pub mode: u32,
    pub hint: Seq<char>,
    pub rel_phase: bool,
    pub numbers: Seq<NumberView>,
    pub points: Option<Seq<(Seq<char>, Seq<char>)>>,
}

pub open spec fn number_views(v: Seq<NumberField>) -> Seq<NumberView> {
    v.map_values(|n: NumberField| n@)
}

pub open spec fn point_views(v: Seq<(String, String)>) -> Seq<(Seq<char>, Seq<char>)> {
    v.map_values(|p: (String, String)| (p.0@, p.1@))
}

impl View for FormPlan {
    type V = PlanView;

    open spec fn view(&self) -> PlanView {
        PlanView {
            kind: self.kind,
            mode: self.mode,
            hint: self.hint@,
            rel_phase: self.rel_phase,
            numbers: number_views(self.numbers@),
            points: match self.points {
                Some(v) => Some(point_views(v@)),
                None => None,
            },
        }
    }
}

/// `s` with every `%ab` replaced by `c`.
pub open spec fn replaced(s: Seq<char>, a: char, b: char, c: char) -> Seq<char>
    decreases s.len(),
{
    if s.len() == 0 {
        Seq::empty()
    } else if s.len() >= 3 && s[0] == '%' && s[1] == a && s[2] == b {
        seq![c] + replaced(s.skip(3), a, b, c)
    } else {
        seq![s[0]] + replaced(s.skip(1), a, b, c)
    }
}

/// A list of points with its colons and commas decoded; nothing else is.
pub open spec fn decoded(s: Seq<char>) -> Seq<char> {
    replaced(replaced(s, '3', 'A', ':'), '2', 'C', ',')
}

/// The points of a list, if there is a colon in each.
pub open spec fn points_of(p: Seq<Seq<char>>) -> Option<Seq<(Seq<char>, Seq<char>)>>
    decreases p.len(),
{
    if p.len() == 0 {
        Some(Seq::empty())
    } else {
        match (points_of(p.drop_last()), halves(p.last(), ':')) {
            (Some(before), Some(h)) => Some(before.push(h)),
            _ => None,
        }
    }
}

/// The mode that a word means.
pub open spec fn mode_of(word: Seq<char>) -> u32 {
    let w = word.map_values(|c: char| small(c));
    if w == "1"@ || w == "svmi"@ || w == "v"@ {
        1
    } else if w == "2"@ || w == "simv"@ || w == "i"@ {
        2
    } else {
        0
    }
}

/// The source that a word means.
pub open spec fn kind_called(word: Seq<char>) -> FormKind {
    if word == "constant"@ {
        FormKind::Constant
    } else if word == "adv_square"@ {
        FormKind::Square
    } else if word == "arb"@ {
        FormKind::Arb
    } else if word == "sine"@ {
        FormKind::Wave(Wave::Sine)
    } else if word == "triangle"@ {
        FormKind::Wave(Wave::Triangle)
    } else if word == "square"@ {
        FormKind::Wave(Wave::Square)
    } else {
        FormKind::Invalid
    }
}

/// A number of a form.
pub open spec fn number(m: Map<Seq<char>, Seq<char>>, key: Seq<char>, bits: u64) -> NumberView {
    NumberView { key, text: field_at(m, key), default: Double { bits } }
}

/// The numbers that a source takes.
pub open spec fn numbers_for(kind: FormKind, m: Map<Seq<char>, Seq<char>>) -> Seq<NumberView> {
    seq![number(m, "value"@, 0)] + (match kind {
        FormKind::Square => seq![
            number(m, "value1"@, 0),
            number(m, "value2"@, 0),
            number(m, "time1"@, HALF_BITS),
            number(m, "time2"@, HALF_BITS),
            number(m, "phase"@, 0),
        ],
        FormKind::Arb => seq![number(m, "phase"@, MINUS_ONE_BITS), number(m, "repeat"@, 0)],
        FormKind::Wave(_) => seq![
            number(m, "amplitude"@, 0),
            number(m, "frequency"@, PLUS_ONE_BITS),
            number(m, "phase"@, PLUS_ONE_BITS),
        ],
        _ => seq![],
    })
}

/// What a form says.
pub open spec fn plan_of(body: Seq<char>) -> PlanView {
    let m = fields(body);
    let kind = kind_called(field_at(m, "wave"@).unwrap_or("constant"@));
    PlanView {
        kind,
        mode: mode_of(field_at(m, "mode"@).unwrap_or("0"@)),
        hint: field_at(m, "hint"@).unwrap_or(""@),
        rel_phase: field_at(m, "relPhase"@).unwrap_or("1"@) == "1"@,
        numbers: numbers_for(kind, m),
        points: if kind == FormKind::Arb {
            points_of(pieces(decoded(field_at(m, "points"@).unwrap_or(""@)), ','))
        } else {
            None
        },
    }
}

fn replace_all(s: &str, a: char, b: char, c: char) -> (r: String)
    ensures
        r@ == replaced(s@, a, b, c),
{
    let chars = chars_of(s);
    let mut r = String::new();
    let mut i: usize = 0;
    assert(s@.skip(0) =~= s@);
    assert(r@ + replaced(s@.skip(0), a, b, c) =~= replaced(s@, a, b, c));
    while i < chars.len()
        invariant
            i <= chars.len(),
            chars@ == s@,
            r@ + replaced(s@.skip(i as int), a, b, c) == replaced(s@, a, b, c),
        decreases chars.len() - i,
    {
        let ghost rest = s@.skip(i as int);
        let ghost before = r@;
        assert(rest[0] == s@[i as int]);
        if chars.len() - i >= 3 && chars[i] == '%' && chars[i + 1] == a && chars[i + 2] == b {
            assert(rest[1] == s@[i + 1] && rest[2] == s@[i + 2]);
            r.push(c);
            assert(rest.skip(3) =~= s@.skip(i + 3));
            assert(r@ + replaced(s@.skip(i + 3), a, b, c) =~= before + (seq![c] + replaced(
                s@.skip(i + 3),
                a,
                b,
                c,
            )));
            i += 3;
        } else {
            r.push(chars[i]);
            proof {
                if rest.len() >= 3 {
                    assert(rest[1] == s@[i + 1] && rest[2] == s@[i + 2]);
                }
            }
            assert(rest.skip(1) =~= s@.skip(i + 1));
            assert(r@ + replaced(s@.skip(i + 1), a, b, c) =~= before + (seq![rest[0]] + replaced(
                s@.skip(i + 1),
                a,
                b,
                c,
            )));
            i += 1;
        }
    }
    assert(r@ + replaced(s@.skip(i as int), a, b, c) =~= r@);
    r
}

proof fn lemma_points_none(p: Seq<Seq<char>>, i: int)
    requires
        0 <= i <= p.len(),
        points_of(p.take(i)) is None,
    ensures
        points_of(p) is None,
    decreases p.len(),
{
    if i < p.len() {
        assert(p.drop_last().take(i) =~= p.take(i));
        lemma_points_none(p.drop_last(), i);
    } else {
        assert(p.take(i) =~= p);
    }
}

fn read_points(spec_text: &str) -> (r: Option<Vec<(String, String)>>)
    ensures
        match r {
            Some(v) => points_of(pieces(spec_text@, ',')) == Some(point_views(v@)),
            None => points_of(pieces(spec_text@, ',')) is None,
        },
{
    let parts = split(spec_text, ',');
    let mut v: Vec<(String, String)> = Vec::new();
    let mut i: usize = 0;
    let ghost p = texts(parts@);
    assert(p.take(0) =~= Seq::empty());
    assert(point_views(v@) =~= Seq::empty());
    while i < parts.len()
        invariant
            i <= parts.len(),
            p == texts(parts@),
            p == pieces(spec_text@, ','),
            points_of(p.take(i as int)) == Some(point_views(v@)),
        decreases parts.len() - i,
    {
        assert(p.take(i + 1).drop_last() =~= p.take(i as int));
        assert(p.take(i + 1).last() == parts@[i as int]@);
        match split_once(parts[i].as_str(), ':') {
            Some((t, x)) => {
                let ghost before = v@;
                v.push((t, x));
                assert(point_views(v@) =~= point_views(before).push((t@, x@)));
            },
            None => {
                proof {
                    lemma_points_none(p, i + 1);
                }
                return None;
            },
        }
        i += 1;
    }
    assert(p.take(i as int) =~= p);
    Some(v)
}

fn text_in(m: &Params, key: &str) -> (r: Option<String>)
    ensures
        opt_text(r) == field_at(m@, key@),
{
    match m.get(key) {
        Some(s) => Some(s.clone()),
        None => None,
    }
}

fn text_or(m: &Params, key: &str, def: &str) -> (r: String)
    ensures
        r@ == field_at(m@, key@).unwrap_or(def@),
{
    match m.get(key) {
        Some(s) => s.clone(),
        None => def.to_owned(),
    }
}

fn push_number(v: &mut Vec<NumberField>, m: &Params, key: &str, bits: u64)
    ensures
        number_views(final(v)@) == number_views(old(v)@).push(number(m@, key@, bits)),
{
    v.push(NumberField { key: key.to_owned(), text: text_in(m, key), default: Double { bits } });
    assert(number_views(v@) =~= number_views(old(v)@).push(number(m@, key@, bits)));
}

fn mode_meant(word: &str) -> (r: u32)
    ensures
        r == mode_of(word@),
{
    let w = lowercase(word);
    if same(w.as_str(), "1") || same(w.as_str(), "svmi") || same(w.as_str(), "v") {
        1
    } else if same(w.as_str(), "2") || same(w.as_str(), "simv") || same(w.as_str(), "i") {
        2
    } else {
        0
    }
}

fn kind_meant(word: &str) -> (r: FormKind)
    ensures
        r == kind_called(word@),
{
    if same(word, "constant") {
        FormKind::Constant
    } else if same(word, "adv_square") {
        FormKind::Square
    } else if same(word, "arb") {
        FormKind::Arb
    } else if same(word, "sine") {
        FormKind::Wave(Wave::Sine)
    } else if same(word, "triangle") {
        FormKind::Wave(Wave::Triangle)
    } else if same(word, "square") {
        FormKind::Wave(Wave::Square)
    } else {
        FormKind::Invalid
    }
}

/// Takes a form apart.
pub fn form_plan(body: &str) -> (r: FormPlan)
    ensures
        r@ == plan_of(body@),
{
    let m = parse_query(body);
    let kind = kind_meant(text_or(&m, "wave", "constant").as_str());
    let mut numbers: Vec<NumberField> = Vec::new();
    assert(number_views(numbers@) =~= Seq::empty());
    push_number(&mut numbers, &m, "value", 0);
    let mut points: Option<Vec<(String, String)>> = None;
    match kind {
        FormKind::Square => {
            push_number(&mut numbers, &m, "value1", 0);
            push_number(&mut numbers, &m, "value2", 0);
            push_number(&mut numbers, &m, "time1", HALF_BITS);
            push_number(&mut numbers, &m, "time2", HALF_BITS);
            push_number(&mut numbers, &m, "phase", 0);
        },
        FormKind::Arb => {
            push_number(&mut numbers, &m, "phase", MINUS_ONE_BITS);
            push_number(&mut numbers, &m, "repeat", 0);
            let list = text_or(&m, "points", "");
            let list = replace_all(list.as_str(), '3', 'A', ':');
            let list = replace_all(list.as_str(), '2', 'C', ',');
            points = read_points(list.as_str());
        },
        FormKind::Wave(_) => {
            push_number(&mut numbers, &m, "amplitude", 0);
            push_number(&mut numbers, &m, "frequency", PLUS_ONE_BITS);
            push_number(&mut numbers, &m, "phase", PLUS_ONE_BITS);
        },
        _ => {},
    }
    assert(number_views(numbers@) =~= numbers_for(kind, m@));
    FormPlan {
        kind,
        mode: mode_meant(text_or(&m, "mode", "0").as_str()),
        hint: text_or(&m, "hint", ""),
        rel_phase: same(text_or(&m, "relPhase", "1").as_str(), "1"),
        numbers,
        points,
    }
}

// ---- the numbers that count ----

/// The complaint about a number.
pub open spec fn number_fault(key: Seq<char>) -> Seq<char> {
    "Invalid number for parameter "@ + key
}

/// A number of a form, or the complaint about it: `value` is what was read from
/// `text`.
pub fn map_get_num(key: &str, value: Option<Double>) -> (r: Result<Double, Error>)
    ensures
        match r {
            Ok(d) => value == Some(d),
            Err(e) => value is None && e@ == number_fault(key@),
        },
{
    match value {
        Some(d) => Ok(d),
        None => Err(Error(joined("Invalid number for parameter ", key))),
    }
}

/// The numbers, or the first complaint about one.
pub open spec fn numbers_read(p: Seq<NumberView>, v: Seq<Option<Double>>) -> Result<
    Seq<Double>,
    Seq<char>,
>
    decreases p.len(),
{
    if p.len() == 0 {
        Ok(Seq::empty())
    } else {
        match numbers_read(p.drop_last(), v) {
            Err(m) => Err(m),
            Ok(before) => match v[p.len() - 1] {
                Some(d) => Ok(before.push(d)),
                None => Err(number_fault(p.last().key)),
            },
        }
    }
}

/// A frequency that is not positive is taken as a very low one.
pub open spec fn frequency_taken(d: Double) -> Double {
    if !d.nan() && !d.above(Double { bits: 0 }) {
        Double { bits: MILLI_BITS }
    } else {
        d
    }
}

/// The numbers that count, or what is wrong with the form so far.
pub open spec fn operands_of(p: PlanView, v: Seq<Option<Double>>) -> Result<Seq<Double>, Seq<char>> {
    match numbers_read(p.numbers, v) {
        Err(m) => Err(m),
        Ok(n) => match p.kind {
            FormKind::Invalid => Err("Invalid source"@),
            FormKind::Wave(_) => Ok(n.update(2, frequency_taken(n[2]))),
            _ => Ok(n),
        },
    }
}

proof fn lemma_numbers_fault(p: Seq<NumberView>, v: Seq<Option<Double>>, i: int)
    requires
        0 <= i <= p.len(),
        numbers_read(p.take(i), v) is Err,
    ensures
        numbers_read(p, v) == numbers_read(p.take(i), v),
    decreases p.len(),
{
    if i < p.len() {
        assert(p.drop_last().take(i) =~= p.take(i));
        lemma_numbers_fault(p.drop_last(), v, i);
    } else {
        assert(p.take(i) =~= p);
    }
}

/// The numbers that count. `values` has what was read from the texts of the
/// numbers of the plan, or their defaults.
pub fn form_operands(plan: &FormPlan, values: &Vec<Option<Double>>) -> (r: Result<
    Vec<Double>,
    Error,
>)
    requires
        values.len() == plan.numbers.len(),
        plan.kind is Wave ==> plan.numbers.len() == 4,
    ensures
        match r {
            Ok(n) => operands_of(plan@, values@) == Ok::<Seq<Double>, Seq<char>>(n@) && n.len()
                == plan.numbers.len(),
            Err(e) => operands_of(plan@, values@) == Err::<Seq<Double>, Seq<char>>(e@),
        },
{
    let ghost p = plan@.numbers;
    let mut n: Vec<Double> = Vec::new();
    let mut i: usize = 0;
    assert(p.take(0) =~= Seq::empty());
    while i < plan.numbers.len()
        invariant
            i <= plan.numbers.len(),
            values.len() == plan.numbers.len(),
            p == number_views(plan.numbers@),
            p == plan@.numbers,
            n.len() == i,
            numbers_read(p.take(i as int), values@) == Ok::<Seq<Double>, Seq<char>>(n@),
        decreases plan.numbers.len() - i,
    {
        assert(p.take(i + 1).drop_last() =~= p.take(i as int));
        assert(p.take(i + 1).last() == plan.numbers@[i as int]@);
        match map_get_num(plan.numbers[i].key.as_str(), values[i]) {
            Ok(d) => {
                n.push(d);
            },
            Err(e) => {
                proof {
                    lemma_numbers_fault(p, values@, i + 1);
                }
                return Err(e);
            },
        }
        i += 1;
    }
    assert(p.take(i as int) =~= p);
    match plan.kind {
        FormKind::Invalid => Err(Error::new("Invalid source")),
        FormKind::Wave(_) => {
            let zero = Double { bits: 0 };
            let f = n[2];
            if !f.is_nan() && !f.gt(zero) {
                n.set(2, Double { bits: MILLI_BITS });
            } else {
                assert(n@.update(2, n@[2]) =~= n@);
            }
            Ok(n)
        },
        _ => Ok(n),
    }
}

// ---- the source ----

/// The times of a form in samples, and what else takes arithmetic.
#[derive(Debug)]
pub struct FormTimes {
    /// `time1`, `time2` and `phase` of a square.
    pub high: i64,
    pub low: i64,
    pub phase: i64,
    /// The binary64 value of the binary32 value nearest to `value`.
    pub offset: Double,
    /// The period and the phase of a wave.
    pub period: Double,
    pub wave_phase: Double,
    /// Times in samples and values of the points; nothing where a text is no
    /// number.
    pub points: Vec<(Option<i64>, Option<Single>)>,
}

/// At least one sample.
pub open spec fn positive(t: i64) -> i64 {
    if t <= 0 {
        1
    } else {
        t
    }
}

/// The points, if all are numbers.
pub open spec fn all_numbers(v: Seq<(Option<i64>, Option<Single>)>) -> Option<Seq<(i64, Single)>>
    decreases v.len(),
{
    if v.len() == 0 {
        Some(Seq::empty())
    } else {
        match (all_numbers(v.drop_last()), v.last()) {
            (Some(before), (Some(t), Some(x))) => Some(before.push((t, x))),
            _ => None,
        }
    }
}

/// What kind of source a form makes, or what is wrong with it.
pub open spec fn kind_made(p: PlanView, n: Seq<Double>, t: FormTimes) -> Result<KindView, Seq<char>> {
    match p.kind {
        FormKind::Constant => Ok(KindView::Constant { value: n[0].narrowed() }),
        FormKind::Square => {
            let high_samples = positive(t.high) as u32;
            let low_samples = positive(t.low) as u32;
            if high_samples + low_samples == 0 {
                Err("Square wave must have nonzero period."@)
            } else {
                Ok(
                    KindView::AdvSquare {
                        high: n[1].narrowed(),
                        low: n[2].narrowed(),
                        high_samples,
                        low_samples,
                        phase: t.phase,
                        rel_phase: p.rel_phase,
                    },
                )
            }
        },
        FormKind::Arb => match (p.points, all_numbers(t.points@)) {
            (Some(_), Some(values)) => {
                let repeat_count = pass_count(n[2].integer());
                match arb_fault(values, repeat_count) {
                    Some(m) => Err(m),
                    None => Ok(
                        KindView::Arb {
                            phase: if t.phase < 0 {
                                (-1) as i64
                            } else {
                                t.phase
                            },
                            start_time: 0,
                            values,
                            index: 0,
                            repeat_count,
                        },
                    ),
                }
            },
            _ => Err("Invalid arbitrary wave point spec"@),
        },
        FormKind::Wave(wave) => Ok(
            KindView::Periodic {
                wave,
                offset: t.offset,
                amplitude: n[1],
                period: t.period,
                phase: t.wave_phase,
                rel_phase: p.rel_phase,
            },
        ),
        FormKind::Invalid => Err("Invalid source"@),
    }
}

/// The source that a form makes, or what is wrong with it.
pub open spec fn source_made(p: PlanView, n: Seq<Double>, t: FormTimes) -> Result<
    SourceView,
    Seq<char>,
> {
    match kind_made(p, n, t) {
        Err(m) => Err(m),
        Ok(kind) => Ok(SourceView { hint: p.hint, ..fresh(p.mode, kind) }),
    }
}

proof fn lemma_not_numbers(v: Seq<(Option<i64>, Option<Single>)>, i: int)
    requires
        0 <= i <= v.len(),
        all_numbers(v.take(i)) is None,
    ensures
        all_numbers(v) is None,
    decreases v.len(),
{
    if i < v.len() {
        assert(v.drop_last().take(i) =~= v.take(i));
        lemma_not_numbers(v.drop_last(), i);
    } else {
        assert(v.take(i) =~= v);
    }
}

fn point_numbers(v: &Vec<(Option<i64>, Option<Single>)>) -> (r: Option<Vec<(i64, Single)>>)
    ensures
        match r {
            Some(p) => all_numbers(v@) == Some(p@),
            None => all_numbers(v@) is None,
        },
{
    let mut p: Vec<(i64, Single)> = Vec::new();
    let mut i: usize = 0;
    assert(v@.take(0) =~= Seq::empty());
    while i < v.len()
        invariant
            i <= v.len(),
            all_numbers(v@.take(i as int)) == Some(p@),
        decreases v.len() - i,
    {
        assert(v@.take(i + 1).drop_last() =~= v@.take(i as int));
        match v[i] {
            (Some(t), Some(x)) => {
                p.push((t, x));
            },
            _ => {
                proof {
                    lemma_not_numbers(v@, i + 1);
                }
                return None;
            },
        }
        i += 1;
    }
    assert(v@.take(i as int) =~= v@);
    Some(p)
}

/// Makes the source that a form asks for. `operands` are the numbers that count,
/// and `times` what the caller made of them.
pub fn form_source(plan: &FormPlan, operands: &Vec<Double>, times: &FormTimes) -> (r: Result<
    OutputSource,
    Error,
>)
    requires
        operands.len() >= 3 || plan.kind is Constant || plan.kind is Invalid,
        operands.len() >= 1,
    ensures
        match r {
            Ok(s) => source_made(plan@, operands@, *times) == Ok::<SourceView, Seq<char>>(s@)
                && s.wf(),
            Err(e) => source_made(plan@, operands@, *times) == Err::<SourceView, Seq<char>>(e@),
        },
{
    let made = match plan.kind {
        FormKind::Constant => Ok(OutputSource::constant(plan.mode, operands[0].narrow())),
        FormKind::Square => {
            let high: i64 = if times.high <= 0 {
                1
            } else {
                times.high
            };
            let low: i64 = if times.low <= 0 {
                1
            } else {
                times.low
            };
            OutputSource::adv_square(
                plan.mode,
                operands[1].narrow(),
                operands[2].narrow(),
                #[verifier::truncate]
                (high as u32),
                #[verifier::truncate]
                (low as u32),
                times.phase,
                plan.rel_phase,
            )
        },
        FormKind::Arb => {
            if plan.points.is_none() {
                return Err(Error::new("Invalid arbitrary wave point spec"));
            }
            let values = match point_numbers(&times.points) {
                Some(v) => v,
                None => return Err(Error::new("Invalid arbitrary wave point spec")),
            };
            let phase: i64 = if times.phase < 0 {
                -1
            } else {
                times.phase
            };
            OutputSource::arb(plan.mode, phase, values, operands[2].to_int())
        },
        FormKind::Wave(wave) => Ok(
            OutputSource::periodic(
                plan.mode,
                wave,
                times.offset,
                operands[1],
                times.period,
                times.wave_phase,
                plan.rel_phase,
            ),
        ),
        FormKind::Invalid => Err(Error::new("Invalid source")),
    };
    match made {
        Ok(mut s) => {
            s.hint = plan.hint.clone();
            Ok(s)
        },
        Err(e) => Err(e),
    }
}

} // verus!
