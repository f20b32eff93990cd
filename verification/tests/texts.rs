use connect::digits::{digits_text, notation, scientific_text, strip_trailing_zeros, Notation};
use connect::float::{Double, Single};
use connect::jsonutil::{
    json_bool_prop, json_bool_prop_def, json_float_prop, json_float_prop_def, json_int_prop,
    json_int_prop_def, json_string_prop, json_string_prop_def, parse_json, Json,
    Number,
};
use connect::net::{origin_allowed, serve, wants_socket, Service};
use connect::rest::parse_query;
use connect::server_git_version;
use connect::text::{at_least, lowercase, parse_integer, split, split_once};

#[test]
fn origin_policy() {
    assert!(origin_allowed(""));
    assert!(origin_allowed("null"));
    assert!(origin_allowed("http://localhost"));
    assert!(origin_allowed("http://localhost:5173"));
    assert!(origin_allowed("https://localhost:9003"));
    assert!(origin_allowed("https://www.nonolithlabs.com"));
    assert!(origin_allowed("http://nonolithlabs.com"));
    assert!(origin_allowed("http://apps.nonolithlabs.com"));
    assert!(!origin_allowed("http://evil.example.com"));
    assert!(!origin_allowed("http://localhost.evil.com"));
    assert!(!origin_allowed("http://nonolithlabs.com.evil.com"));
    assert!(!origin_allowed("ftp://localhost"));
    assert!(!origin_allowed("http://localhost:abc"));
    assert!(!origin_allowed("http://localhost:"));
    assert!(!origin_allowed("http://a b.nonolithlabs.com"));
}

#[test]
fn requests_are_routed_by_their_first_segment() {
    assert!(wants_socket("/ws/v0"));
    assert!(wants_socket("//ws?x"));
    assert!(!wants_socket("/rest/ws"));
    assert_eq!(serve(false, "", "/rest/v1/devices"), Service::Rest);
    assert_eq!(serve(false, "", "/rest?x=/ws"), Service::Rest);
    assert_eq!(serve(false, "", "/"), Service::Redirect);
    assert_eq!(serve(false, "", "?x"), Service::Redirect);
    assert_eq!(serve(false, "", "/ws"), Service::NotFound);
    assert_eq!(serve(false, "", "/restful"), Service::NotFound);
    assert_eq!(serve(false, "http://evil.example.com", "/rest/v1"), Service::Refuse);
    assert_eq!(serve(true, "http://evil.example.com", "/rest/v1"), Service::Rest);
}

#[test]
fn prop_helpers() {
    let n = parse_json(r#"{"s": "x", "i": 3, "f": 2.5, "b": true}"#).unwrap();
    assert_eq!(json_string_prop(&n, "s").unwrap(), "x");
    assert!(json_string_prop(&n, "i").is_err());
    assert_eq!(json_int_prop(&n, "i").unwrap(), 3);
    assert_eq!(json_int_prop(&n, "f").unwrap(), 2);
    assert_eq!(f64::from_bits(json_float_prop(&n, "f").unwrap().bits), 2.5);
    assert!(json_bool_prop(&n, "s").is_err());
    assert!(json_bool_prop(&n, "b").unwrap());
    assert_eq!(
        json_string_prop(&n, "nope").unwrap_err().0,
        "JSON missing string property: nope"
    );
}

fn built(id: Number) -> Json {
    Json::Object(vec![("s".to_owned(), Json::Null), ("id".to_owned(), Json::Number(id))])
}

#[test]
fn numbers_of_every_form_are_read() {
    let def = Double { bits: 7.0f64.to_bits() };
    let single = |v: f32| Number::Single(Single { bits: v.to_bits() });
    let double = |v: f64| Number::Double(Double { bits: v.to_bits() });
    let cases = [
        (Number::Unsigned(5), 5.0),
        (Number::Unsigned(u64::MAX), u64::MAX as f64),
        (Number::Signed(-3), -3.0),
        (Number::Signed(i64::MIN), i64::MIN as f64),
        (single(-2.5), -2.5),
        (single(0.3), 0.3f32 as f64),
        (double(1e300), 1e300),
        (Number::Ratio(1, 3), 1.0 / 3.0),
        (Number::Ratio(0, 3), 0.0),
    ];
    for (n, v) in cases {
        let j = built(n);
        assert_eq!(f64::from_bits(json_float_prop(&j, "id").unwrap().bits), v);
        assert_eq!(f64::from_bits(json_float_prop_def(&j, "id", def).bits), v);
        assert_eq!(json_int_prop(&j, "id").unwrap(), v as i64);
        assert_eq!(json_int_prop_def(&j, "id", 7), v as i64);
    }
    let none = [single(f32::NAN), single(f32::INFINITY), double(f64::NAN), Number::Ratio(1, 0)];
    for n in none {
        let j = built(n);
        assert!(json_int_prop(&j, "id").is_err());
        assert!(json_float_prop(&j, "id").is_err());
        assert_eq!(json_int_prop_def(&j, "id", 7), 7);
        assert_eq!(json_float_prop_def(&j, "id", def), def);
    }
}

#[test]
fn conversions_to_binary64() {
    let mut n: u64 = 1;
    for i in 0..4000u64 {
        n = n.wrapping_mul(6364136223846793005).wrapping_add(1442695040888963407);
        let x = n >> (i % 64);
        assert_eq!(Double::from_unsigned(x).bits, (x as f64).to_bits());
        assert_eq!(Double::from_signed(x as i64).bits, (x as i64 as f64).to_bits());
        let (a, b) = (x as u32, (n >> 32) as u32 | 1);
        assert_eq!(Double::quotient(a, b).bits, (a as f64 / b as f64).to_bits());
        let s = Single { bits: n as u32 };
        if s.is_finite() {
            let wide = s.widen();
            assert_eq!(wide.bits, (f32::from_bits(s.bits) as f64).to_bits());
            assert_eq!(wide.narrow(), s);
        }
        let kept = x >> 11;
        assert_eq!(Double::from_unsigned(kept).to_int(), kept as i64);
    }
    for x in [0, 1, (1 << 53) - 1, 1 << 53, (1 << 53) + 1, (1 << 53) + 3, u64::MAX, u64::MAX - 1024] {
        assert_eq!(Double::from_unsigned(x).bits, (x as f64).to_bits());
    }
    for bits in [0, 1, 0x7f_ffff, 0x80_0000, 0x8000_0000, 0x8000_0001, 0x7f7f_ffff] {
        let s = Single { bits };
        assert_eq!(s.widen().bits, (f32::from_bits(bits) as f64).to_bits());
    }
    assert_eq!(Double::quotient(u32::MAX, 1).bits, (u32::MAX as f64).to_bits());
    assert_eq!(Double::quotient(1, u32::MAX).bits, (1.0 / u32::MAX as f64).to_bits());
}

#[test]
fn prop_defaults() {
    let n = parse_json(r#"{"s": "x", "i": -3.7, "b": false}"#).unwrap();
    assert_eq!(json_string_prop_def(&n, "s", "d"), "x");
    assert_eq!(json_string_prop_def(&n, "b", "d"), "d");
    assert!(!json_bool_prop_def(&n, "b", true));
    assert!(json_bool_prop_def(&n, "s", true));
    assert_eq!(json_int_prop_def(&n, "i", 9), -3);
    assert_eq!(json_int_prop_def(&n, "s", 9), 9);
    let def = Double { bits: 0.5f64.to_bits() };
    assert_eq!(json_float_prop_def(&n, "nope", def), def);
    assert_eq!(json_bool_prop(&n, "x").unwrap_err().0, "JSON missing bool property: x");
    assert_eq!(json_int_prop(&n, "x").unwrap_err().0, "JSON missing int property: x");
    assert_eq!(json_float_prop(&n, "s").unwrap_err().0, "JSON missing float property: s");
    assert!(json_string_prop(&parse_json("[1]").unwrap(), "s").is_err());
}

#[test]
fn documents_are_read_as_they_are() {
    let j = parse_json(r#" {"a": [null, true, "é\n", 1e400, -0.0], "a": {"b": {}}} "#);
    assert!(j.is_err());
    let j = parse_json(r#" {"a": [null, true, "é\n", 12], "b": {"c": {}}} "#).unwrap();
    match j.get("a") {
        Some(Json::Array(v)) => {
            assert!(matches!(v[0], Json::Null));
            assert!(matches!(v[1], Json::Bool(true)));
            assert!(matches!(&v[2], Json::Str(s) if s == "\u{e9}\n"));
        }
        v => panic!("no list: {v:?}"),
    }
    assert!(j.get("b").unwrap().get("c").is_some());
    assert!(j.get("z").is_none());
    let e = parse_json("{").unwrap_err();
    assert!(e.0.starts_with("JSON parse error: EOF while parsing an object"));
}

#[test]
fn numbers_are_cut_and_held_within_range() {
    let n = parse_json(r#"{"a": 1e30, "b": -1e30, "c": 9007199254740993, "d": 0.99, "e": -0.99}"#)
        .unwrap();
    assert_eq!(json_int_prop(&n, "a").unwrap(), i64::MAX);
    assert_eq!(json_int_prop(&n, "b").unwrap(), i64::MIN);
    assert_eq!(json_int_prop(&n, "c").unwrap(), 9007199254740992);
    assert_eq!(json_int_prop(&n, "d").unwrap(), 0);
    assert_eq!(json_int_prop(&n, "e").unwrap(), 0);
}

#[test]
fn float_conversions_match_the_machine() {
    let values = [
        0.0, -0.0, 1.0, -1.5, 0.1, 1e-40, 1.401298464324817e-45, 7e-46, 1e-50, 3.4028235e38,
        3.4028235677973366e38, 3.5e38, -1e39, 16777217.0, 16777219.0, 2.5e9, -9.3e18, 1e300,
        f64::INFINITY, f64::NEG_INFINITY, 5e-324, 123456789.123,
    ];
    for v in values {
        let d = Double { bits: v.to_bits() };
        assert_eq!(d.narrow().bits, (v as f32).to_bits(), "{v}");
        assert_eq!(d.to_int(), v as i64, "{v}");
        for w in values {
            let e = Double { bits: w.to_bits() };
            assert_eq!(d.gt(e), v > w, "{v} {w}");
            let (s, t) = (v as f32, w as f32);
            let a = Single { bits: s.to_bits() };
            let b = Single { bits: t.to_bits() };
            assert_eq!(a.gt(b), s > t, "{s} {t}");
            assert_eq!(a.is_finite(), s.is_finite());
        }
    }
    let nan = Double { bits: f64::NAN.to_bits() };
    assert!(nan.is_nan() && nan.narrow().is_nan() && nan.to_int() == 0);
    assert!(!nan.gt(nan));
}

#[test]
fn queries_are_not_decoded() {
    let m = parse_query("a=1&b=x%20y&c&d==&a=2&=e");
    assert_eq!(m.get("a").unwrap(), "2");
    assert_eq!(m.get("b").unwrap(), "x%20y");
    assert!(m.get("c").is_none());
    assert_eq!(m.get("d").unwrap(), "=");
    assert_eq!(m.get("").unwrap(), "e");
}

#[test]
fn texts_are_taken_apart() {
    assert_eq!(split("a//b/", '/'), vec!["a", "", "b", ""]);
    assert_eq!(split("", '/'), vec![""]);
    assert_eq!(split_once("a=b=c", '='), Some(("a".to_owned(), "b=c".to_owned())));
    assert_eq!(split_once("abc", '='), None);
    assert_eq!(parse_integer("-9223372036854775808"), Some(i64::MIN));
    assert_eq!(parse_integer("+7"), Some(7));
    assert_eq!(parse_integer("9223372036854775808"), None);
    assert_eq!(parse_integer("-"), None);
    assert_eq!(parse_integer(" 1"), None);
    assert_eq!(lowercase("SiMv-1"), "simv-1");
    assert!(at_least("2.11", "2.11"));
    assert!(at_least("2.2", "2.11"));
    assert!(!at_least("2.1", "2.11"));
}

#[test]
fn digits_are_written() {
    assert_eq!(digits_text(0), "0");
    assert_eq!(digits_text(u64::MAX), "18446744073709551615");
    assert_eq!(notation(-5), Notation::Scientific);
    assert_eq!(notation(-4), Notation::Fixed(9));
    assert_eq!(notation(5), Notation::Fixed(0));
    assert_eq!(notation(6), Notation::Scientific);
    assert_eq!(strip_trailing_zeros("1.2300"), "1.23");
    assert_eq!(strip_trailing_zeros("100"), "100");
    assert_eq!(strip_trailing_zeros("7.000"), "7");
    assert_eq!(scientific_text("2.50000e0").unwrap(), "2.5e+00");
    assert_eq!(scientific_text("-1.00000e-12").unwrap(), "-1e-12");
    assert_eq!(scientific_text("1.00000e120").unwrap(), "1e+120");
    assert!(scientific_text("1.5").is_none());
}

#[test]
fn revision_may_be_unknown() {
    assert_eq!(server_git_version(Some("v1-2")), "v1-2");
    assert_eq!(server_git_version(None), "unknown");
}
