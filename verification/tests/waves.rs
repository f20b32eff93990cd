use connect::float::{Double, Single};
use connect::jsonutil::{parse_json, Json, Number};
use connect::source::{
    make_source, Level, OutputSource, PhaseReply, PhaseRequest, PhaseZero, SourceKind, Wave,
};

fn single(v: f32) -> Single {
    Single { bits: v.to_bits() }
}

fn double(v: f64) -> Double {
    Double { bits: v.to_bits() }
}

fn wide(d: Double) -> f64 {
    f64::from_bits(d.bits)
}

fn level(l: Level) -> f32 {
    match l {
        Level::Exact(v) => f32::from_bits(v.bits),
        Level::Blend { from, to, done, span } => {
            let p = done as f64 / span as f64;
            let (from, to) = (f32::from_bits(from.bits), f32::from_bits(to.bits));
            ((1.0 - p) * from as f64 + p * to as f64) as f32
        }
        Level::Wave { wave, offset, amplitude, period, phase, sample } => {
            let (o, a, p) = (wide(offset), wide(amplitude), wide(period));
            let s = sample as f64 + wide(phase);
            match wave {
                Wave::Sine => ((s * 2.0 * std::f64::consts::PI / p).sin() * a + o) as f32,
                Wave::Triangle => {
                    let x = (s - p / 4.0).rem_euclid(p) / p * 2.0 - 1.0;
                    ((x.abs() * 2.0 - 1.0) * a + o) as f32
                }
                Wave::Square => {
                    if s % p < p / 2.0 {
                        (o + a) as f32
                    } else {
                        (o - a) as f32
                    }
                }
            }
        }
    }
}

fn val(s: &mut OutputSource, i: u64) -> f32 {
    level(s.get_value(i))
}

fn zero(s: &OutputSource, sample: u64) -> f64 {
    match s.phase_zero_after(sample) {
        PhaseZero::At(z) => z as f64,
        PhaseZero::Wave { wave, period, phase, sample } => {
            let (s, period, phase) = (sample as f64, wide(period), wide(phase));
            if wave == Wave::Square {
                s + (period - (s + phase) % period).ceil()
            } else {
                s + (period - (s + phase) % period) % period
            }
        }
    }
}

fn periodic(wave: Wave, o: f64, a: f64, period: f64, phase: f64, rel: bool) -> OutputSource {
    OutputSource::periodic(1, wave, double(o), double(a), double(period), double(phase), rel)
}

fn arb(phase: i64, points: &[(i64, f32)], repeat: i64) -> Result<OutputSource, String> {
    let values = points.iter().map(|p| (p.0, single(p.1))).collect();
    OutputSource::arb(1, phase, values, repeat).map_err(|e| e.0)
}

fn square(high: u32, low: u32, phase: i64, rel: bool) -> Result<OutputSource, String> {
    OutputSource::adv_square(1, single(3.0), single(1.0), high, low, phase, rel).map_err(|e| e.0)
}

const NO_REPLY: PhaseReply = PhaseReply { phase: Double { bits: 0 }, samples: 0 };

#[test]
fn constant_source() {
    let mut s = OutputSource::constant(1, single(2.5));
    assert_eq!(val(&mut s, 0), 2.5);
    assert_eq!(val(&mut s, 1000), 2.5);
    assert_eq!(zero(&s, 42), 42.0);
    assert_eq!(s.display_name(), "constant");
}

#[test]
fn sine_source() {
    let mut s = periodic(Wave::Sine, 2.5, 1.0, 100.0, 0.0, false);
    assert!((val(&mut s, 0) - 2.5).abs() < 1e-4);
    assert!((val(&mut s, 25) - 3.5).abs() < 1e-4);
    assert!((val(&mut s, 50) - 2.5).abs() < 1e-4);
    assert!((val(&mut s, 75) - 1.5).abs() < 1e-4);
    assert!((val(&mut s, 100) - 2.5).abs() < 1e-4);
    let mut s = periodic(Wave::Sine, 0.0, 1.0, 100.0, 25.0, false);
    assert!((val(&mut s, 0) - 1.0).abs() < 1e-4);
}

#[test]
fn triangle_source_in_range_everywhere() {
    let mut s = periodic(Wave::Triangle, 2.5, 1.0, 100.0, 0.0, false);
    for i in 0..300 {
        let v = val(&mut s, i);
        assert!((1.5..=3.5).contains(&v), "sample {i} out of range: {v}");
    }
    assert!((val(&mut s, 0) - 2.5).abs() < 1e-4);
    assert!((val(&mut s, 25) - 3.5).abs() < 1e-4);
    assert!((val(&mut s, 50) - 2.5).abs() < 1e-4);
    assert!((val(&mut s, 75) - 1.5).abs() < 1e-4);
    assert!((val(&mut s, 100) - 2.5).abs() < 1e-4);
}

#[test]
fn square_source() {
    let mut s = periodic(Wave::Square, 2.0, 1.0, 100.0, 0.0, false);
    assert_eq!(val(&mut s, 0), 3.0);
    assert_eq!(val(&mut s, 49), 3.0);
    assert_eq!(val(&mut s, 50), 1.0);
    assert_eq!(val(&mut s, 99), 1.0);
    assert_eq!(val(&mut s, 100), 3.0);
    assert_eq!(zero(&s, 0), 100.0);
    assert_eq!(zero(&s, 1), 100.0);
    assert_eq!(zero(&s, 100), 200.0);
}

#[test]
fn periodic_phase_zero() {
    let s = periodic(Wave::Sine, 0.0, 1.0, 100.0, 0.0, false);
    assert_eq!(zero(&s, 0), 0.0);
    assert_eq!(zero(&s, 1), 100.0);
    assert_eq!(zero(&s, 100), 100.0);
    assert_eq!(zero(&s, 101), 200.0);
    let s = periodic(Wave::Sine, 0.0, 1.0, 100.0, 30.0, false);
    assert_eq!(zero(&s, 0), 70.0);
}

#[test]
fn adv_square_low_first() {
    let mut s = square(10, 5, 0, false).unwrap();
    assert_eq!(val(&mut s, 0), 1.0);
    assert_eq!(val(&mut s, 4), 1.0);
    assert_eq!(val(&mut s, 5), 3.0);
    assert_eq!(val(&mut s, 14), 3.0);
    assert_eq!(val(&mut s, 15), 1.0);
    assert_eq!(zero(&s, 0), 5.0);
    assert_eq!(zero(&s, 5), 5.0);
    assert_eq!(zero(&s, 6), 20.0);
    assert_eq!(square(0, 0, 0, false).unwrap_err(), "Square wave must have nonzero period.");
}

#[test]
fn square_with_phase_repeats() {
    let mut s = square(3, 2, -7, false).unwrap();
    for i in 0..20 {
        assert_eq!(val(&mut s, i), val(&mut s, i + 5));
        let z = zero(&s, i) as u64;
        assert!(i <= z && z < i + 5);
        assert_eq!(val(&mut s, z), 3.0);
        assert_eq!(val(&mut s, z + 4), 1.0);
    }
}

#[test]
fn square_takes_over_the_fraction() {
    let a = square(50, 50, 0, false).unwrap();
    let mut b = square(20, 20, 0, true).unwrap();
    let prev = Some(a);
    let q = b.phase_request(150, &prev);
    assert_eq!(q, PhaseRequest::Scale { num: 50, den: 100, period: 40 });
    b.initialize(150, &prev, PhaseReply { samples: 20, ..NO_REPLY });
    match b.kind {
        SourceKind::AdvSquare { phase, .. } => assert_eq!((150 + phase) % 40, 20),
        k => panic!("no square: {k:?}"),
    }
    let mut c = square(20, 20, -1, true).unwrap();
    assert_eq!(c.phase_request(150, &None), PhaseRequest::Nothing);
    c.initialize(150, &None, NO_REPLY);
    match c.kind {
        SourceKind::AdvSquare { phase, .. } => assert_eq!(phase, 39),
        k => panic!("no square: {k:?}"),
    }
}

#[test]
fn arb_interpolation_and_repeat() {
    let ramp = [(0, 0.0), (10, 10.0)];
    let mut s = arb(-1, &ramp, 1).unwrap();
    s.initialize(0, &None, NO_REPLY);
    assert_eq!(val(&mut s, 0), 0.0);
    assert_eq!(val(&mut s, 5), 5.0);
    assert_eq!(val(&mut s, 10), 10.0);
    assert_eq!(val(&mut s, 11), 10.0);
    assert_eq!(val(&mut s, 100), 10.0);

    let mut s = arb(-1, &ramp, -1).unwrap();
    s.initialize(0, &None, NO_REPLY);
    assert_eq!(val(&mut s, 0), 0.0);
    assert_eq!(val(&mut s, 5), 5.0);
    assert_eq!(val(&mut s, 12), 2.0);
    assert_eq!(val(&mut s, 25), 5.0);

    let mut s = arb(-1, &ramp, 2).unwrap();
    s.initialize(0, &None, NO_REPLY);
    assert_eq!(val(&mut s, 5), 5.0);
    assert_eq!(val(&mut s, 15), 5.0);
    assert_eq!(val(&mut s, 25), 10.0);

    assert_eq!(arb(-1, &[], 1).unwrap_err(), "Arb wave must have at least one point.");
    assert_eq!(arb(-1, &[(1, 0.0)], 1).unwrap_err(), "Arb wave first point must have t=0.");
    assert_eq!(
        arb(-1, &[(0, 0.0), (5, 1.0), (3, 2.0)], 1).unwrap_err(),
        "Arb wave points must be in time order."
    );
    assert_eq!(
        arb(-1, &[(0, 0.0)], 2).unwrap_err(),
        "Arb wave with repeat must have nonzero period."
    );
}

#[test]
fn arb_phase_and_passes() {
    let ramp = [(0, 0.0), (4, 1.0), (10, 10.0)];
    let mut s = arb(23, &ramp, -1).unwrap();
    s.initialize(57, &None, NO_REPLY);
    match &s.kind {
        SourceKind::Arb { start_time, .. } => assert_eq!(*start_time, 53),
        k => panic!("no points: {k:?}"),
    }
    assert_eq!(zero(&s, 57), 63.0);
    assert_eq!(zero(&s, 63), 63.0);
    assert_eq!(val(&mut s, 57), 1.0);
    assert_eq!(val(&mut s, 67), 1.0);

    let mut once = arb(30, &ramp, 0).unwrap();
    once.initialize(57, &None, NO_REPLY);
    assert_eq!(val(&mut once, 0), 0.0);
    assert_eq!(val(&mut once, 34), 1.0);
    assert_eq!(val(&mut once, 57), 10.0);
}

#[test]
fn asking_for_more_samples_changes_nothing() {
    let points = [(0, 0.0), (0, 2.0), (4, 1.0), (10, 10.0)];
    for repeat in [1, 2, 5, -1, -3] {
        for last in [0u64, 3, 9, 10, 11, 19, 20, 47, 63] {
            let mut a = arb(-1, &points, repeat).unwrap();
            let mut b = arb(-1, &points, repeat).unwrap();
            a.initialize(7, &None, NO_REPLY);
            b.initialize(7, &None, NO_REPLY);
            for i in 0..last {
                a.get_value(i);
            }
            assert_eq!(a.get_value(last), b.get_value(last));
        }
    }
}

#[test]
fn rel_phase_continuity() {
    let mut a = periodic(Wave::Sine, 0.0, 1.0, 100.0, 0.0, false);
    let va = val(&mut a, 150);
    let mut b = periodic(Wave::Sine, 0.0, 1.0, 200.0, 0.0, true);
    let prev = Some(a);
    let reply = match b.phase_request(150, &prev) {
        PhaseRequest::Carry { sample, phase, period, prev_phase, prev_period } => {
            let (s, pp) = (sample as f64, wide(prev_period));
            let moved = wide(phase) + ((s + wide(prev_phase)) % pp / pp * wide(period) - s);
            PhaseReply { phase: double(moved % wide(period)), samples: 0 }
        }
        q => panic!("no phase to carry over: {q:?}"),
    };
    b.initialize(150, &prev, reply);
    let vb = val(&mut b, 150);
    assert!((va - vb).abs() < 1e-4);
    if let SourceKind::Periodic { phase, .. } = b.kind {
        assert!(((150.0 + wide(phase)) % 200.0 / 200.0 - 0.5).abs() < 1e-9);
    } else {
        panic!()
    }
}

fn text<'a>(j: &'a Json, key: &str) -> &'a str {
    match j.get(key) {
        Some(Json::Str(s)) => s,
        v => panic!("no text {key}: {v:?}"),
    }
}

#[test]
fn make_source_from_json() {
    let n = parse_json(r#"{"source":"constant","mode":1,"value":2.5,"hint":"dutycycle:4"}"#);
    let s = make_source(&n.unwrap()).unwrap();
    assert_eq!(s.mode, 1);
    assert_eq!(s.hint, "dutycycle:4");
    let j = s.describe_json();
    assert_eq!(text(&j, "source"), "constant");
    assert!(matches!(j.get("value"), Some(Json::Number(Number::Single(v))) if *v == single(2.5)));
    assert!(matches!(j.get("effective"), Some(Json::Bool(false))));
    assert_eq!(text(&j, "hint"), "dutycycle:4");

    let s = make_source(&parse_json("{}").unwrap()).unwrap();
    assert_eq!(s.display_name(), "constant");

    let e = make_source(&parse_json(r#"{"source":"sine"}"#).unwrap()).unwrap_err();
    assert_eq!(e.0, "JSON missing float property: offset");

    let e = make_source(&parse_json(r#"{"source":"nope"}"#).unwrap()).unwrap_err();
    assert_eq!(e.0, "Invalid source");
}

#[test]
fn make_source_of_each_kind() {
    let make = |s: &str| make_source(&parse_json(s).unwrap()).map_err(|e| e.0);
    let s = make(
        r#"{"source":"adv_square","high":3,"low":1.5,"highSamples":10,"lowSamples":5,
            "phase":-2,"relPhase":false,"mode":-1}"#,
    )
    .unwrap();
    assert_eq!(s.mode, 0);
    match s.kind {
        SourceKind::AdvSquare { high, low, high_samples, low_samples, phase, rel_phase } => {
            assert_eq!((high, low), (single(3.0), single(1.5)));
            assert_eq!((high_samples, low_samples, phase, rel_phase), (10, 5, -2, false));
        }
        k => panic!("no square: {k:?}"),
    }
    let s = make(r#"{"source":"arb","values":[{"t":0,"v":1},{"t":3.9,"v":0.1}]}"#).unwrap();
    match s.kind {
        SourceKind::Arb { phase, values, repeat_count, .. } => {
            assert_eq!((phase, repeat_count), (-1, 1));
            assert_eq!(values, vec![(0, single(1.0)), (3, single(0.1))]);
        }
        k => panic!("no points: {k:?}"),
    }
    assert_eq!(make(r#"{"source":"arb"}"#).unwrap_err(), "JSON missing property: values");
    assert_eq!(
        make(r#"{"source":"arb","values":[{"v":1}]}"#).unwrap_err(),
        "JSON missing int property: t"
    );
    let s = make(r#"{"source":"triangle","offset":1,"amplitude":2,"period":7}"#).unwrap();
    assert_eq!(s.display_name(), "triangle");
    let s = make(r#"{"source":"square","offset":1,"amplitude":2,"period":7}"#).unwrap();
    assert_eq!(s.display_name(), "square");
}
