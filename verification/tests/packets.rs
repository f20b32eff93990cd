use connect::command::Outcome;
use connect::config::{ConfigRequest, Range, Timing, I_STEP_BITS, V_STEP_BITS};
use connect::effect::{ControlReply, Effect};
use connect::float::{Double, Single};
use connect::jsonutil::{parse_json, Json, Number};
use connect::rest::{rest_answer, RestAsk, RestBody, RestRequest, RestResponse, RestStep};
use connect::source::{Level, OutputSource, PhaseReply};
use connect::streaming::{Backend, StreamingDevice};
use connect::usb::bootloader::{base64_decode, BootloaderDevice, BootloaderInfo};
use connect::usb::cee::{
    self, pack_out_sample, unpack_in_sample, CeeCal, DEFAULT_CURRENT_GAIN, EEPROM_VALID_MAGIC,
};
use connect::usb::discovery::{Interview, Report};
use connect::usb::m1k::{self, leading_number, M1kCal, EEPROM_VALID};
use connect::usb::transfer::{
    cee_out_transfer, cee_period, frame_start, m1k_out_transfer, m1k_period, more_transfers,
    OutShape, Values,
};
use connect::usb::{answer, device_kind, read_string, serial_text, Kind};

#[test]
fn sample_pack_unpack_roundtrip() {
    for (av, ai, bv, bi) in [
        (0i16, 0, 0, 0),
        (2047, -2048, 1, -1),
        (-100, 100, -2000, 2000),
    ] {
        let e = |v: i16| (v as u16) & 0xfff;
        let s = [
            (e(av) & 0xff) as u8,
            (e(ai) & 0xff) as u8,
            (((e(ai) >> 4) & 0xf0) | (e(av) >> 8)) as u8,
            (e(bv) & 0xff) as u8,
            (e(bi) & 0xff) as u8,
            (((e(bi) >> 4) & 0xf0) | (e(bv) >> 8)) as u8,
        ];
        assert_eq!(unpack_in_sample(&s), (av, ai, bv, bi));
    }
}

#[test]
fn out_sample_packing() {
    let s = pack_out_sample(0xABC, 0x123);
    assert_eq!(s[0], 0xBC);
    assert_eq!(s[1], 0x23);
    assert_eq!(s[2], ((0x123u16 >> 4) & 0xf0 | (0xABCu16 >> 8)) as u8);
}

#[test]
fn packing_keeps_twelve_bits_of_the_second() {
    assert_eq!(pack_out_sample(0xF123, 0xF456), [0x23, 0x56, 0xF1]);
    assert_eq!(cee::signextend12(0xFFF), -1);
    assert_eq!(cee::signextend12(0x7FF), 2047);
}

#[test]
fn cee_eeprom_roundtrip() {
    let cal = CeeCal {
        magic: EEPROM_VALID_MAGIC,
        offset_a_v: -5,
        offset_a_i: 3,
        offset_b_v: 0,
        offset_b_i: -1,
        dac200_a: 0x6B7,
        dac200_b: 0x6B8,
        dac400_a: 100,
        dac400_b: -100,
        current_gain_a: 315000,
        current_gain_b: 315001,
        flags: 1,
    };
    let bytes = cal.to_bytes();
    assert_eq!(bytes.len(), 25);
    let back = CeeCal::from_bytes(&bytes).unwrap();
    assert_eq!(back.magic, EEPROM_VALID_MAGIC);
    assert_eq!(back.offset_a_v, -5);
    assert_eq!(back.dac400_b, -100);
    assert_eq!(back.current_gain_b, 315001);
    assert_eq!(back.flags, 1);
}

#[test]
fn base64() {
    assert_eq!(base64_decode("aGVsbG8=").unwrap(), b"hello");
    assert_eq!(base64_decode("aGVsbG8").unwrap(), b"hello");
    assert_eq!(base64_decode("").unwrap(), b"");
    assert_eq!(base64_decode("AA==").unwrap(), vec![0]);
    assert!(base64_decode("!!!").is_none());
}

#[test]
fn info_parsing() {
    let mut d = vec![0u8; 51];
    d[0..4].copy_from_slice(&[0xCA, 0xFE, 0xBA, 0xBE]);
    d[4] = 2;
    d[9..11].copy_from_slice(&512u16.to_le_bytes());
    d[11..15].copy_from_slice(&0x1FFFFu32.to_le_bytes());
    d[19..24].copy_from_slice(b"CEE\0\0");
    d[35..38].copy_from_slice(b"B\0\0");
    let info = BootloaderInfo::from_bytes(&d);
    assert_eq!(info.magic, 0xCAFEBABE);
    assert_eq!(info.page_size, 512);
    assert_eq!(info.app_section_end, 0x1FFFF);
    assert_eq!(info.hw_product, "CEE");
    assert_eq!(info.hw_version, "B");
}

#[test]
fn base64_may_be_broken_by_white_space() {
    assert_eq!(base64_decode(" aGV\nsbG\t8 = ").unwrap(), b"hello");
    assert_eq!(base64_decode("////+w").unwrap(), vec![0xff, 0xff, 0xff, 0xfb]);
    assert!(base64_decode("A").is_none());
    assert!(base64_decode("AAAAA").is_none());
}

#[test]
fn short_info_is_no_info() {
    let info = BootloaderInfo::from_bytes(&[1; 50]);
    assert_eq!(info.magic, 0);
    assert_eq!(info.hw_product, "");
}

// ---- timing ----

#[test]
fn timer_period() {
    let clock = 4e6;
    let st = 1.0 / 10000.0;
    let per = cee_period((st * clock as f64).round() as u32, 100);
    assert_eq!(per, 400);
    assert_eq!(per as f64 / clock, st);
    assert_eq!(cee_period(20, 100), 100);
}

#[test]
fn timer_period_math() {
    let clock = 48e6;
    let cases = [
        (1e-5, 240.0, 1e-5),
        (1e-6, 240.0, 1e-5),
        (1.0, 24000.0, 1e-3),
        (2.5e-5, 600.0, 2.5e-5),
    ];
    for (st, want_per, want_st) in cases {
        let per = m1k_period((st * clock as f64).round() as u64) as f64 / 2.0;
        let actual = 2.0 * per / clock;
        assert_eq!(per, want_per, "st={st}");
        assert!((actual - want_st as f64).abs() < 1e-12, "st={st}");
    }
}

#[test]
fn scaling_formulas() {
    let v_resolution = 5.0 / 65536.0;
    let i_resolution = 0.4 / 65536.0;
    let raw: u16 = 32768;
    assert!((raw as f64 * v_resolution - 2.5f64).abs() < 1e-9);
    let raw: u16 = 0;
    let i = (raw as f64 * i_resolution - 0.195) * 1.25;
    assert!((i - -0.24375f64).abs() < 1e-9);
    assert_eq!(f32::from_bits(V_STEP_BITS), v_resolution as f32);
    assert_eq!(f32::from_bits(I_STEP_BITS), (i_resolution * 1000.0) as f32);
}

#[test]
fn sof_alignment() {
    let sof: u16 = 0x1234;
    let out = frame_start(sof);
    assert_eq!(out, (((0x1234 >> 3) + 0x1f) & 0x7FF) << 3);
    assert_eq!(out % 8, 0);
    assert_eq!(frame_start(0xffff), (((0xffffu16 >> 3) + 0x1f) & 0x7ff) << 3);
}

#[test]
fn transfers_go_on_while_samples_are_wanted() {
    assert!(more_transfers(true, u64::MAX, usize::MAX, 0));
    assert!(more_transfers(false, 2, 3, 1537));
    assert!(!more_transfers(false, 2, 3, 1536));
    assert!(!more_transfers(false, u64::MAX, usize::MAX, u32::MAX));
}

// ---- the M1K ----

fn single(v: f32) -> Single {
    Single { bits: v.to_bits() }
}

#[test]
fn m1k_eeprom_roundtrip() {
    let mut cal = M1kCal::default();
    cal.offset[3] = single(0.25);
    cal.gain_p[7] = single(1.5);
    cal.gain_n[0] = single(0.5);
    let bytes = cal.to_bytes();
    assert_eq!(bytes.len(), 100);
    assert_eq!(u32::from_le_bytes([bytes[0], bytes[1], bytes[2], bytes[3]]), EEPROM_VALID);
    let back = M1kCal::from_bytes(&bytes).unwrap();
    assert!(back.valid);
    assert_eq!(back.offset[3], single(0.25));
    assert_eq!(back.gain_p[7], single(1.5));
    assert_eq!(back.gain_n[0], single(0.5));
    let mut bad = bytes.clone();
    bad[0] = 0;
    let back = M1kCal::from_bytes(&bad).unwrap();
    assert!(!back.valid);
    assert_eq!(back.gain_p[7], single(1.0));
    assert!(M1kCal::from_bytes(&bytes[..99]).is_none());
}

fn told(status: i32, data: &[u8]) -> ControlReply {
    ControlReply { status, data: data.to_vec() }
}

fn report(fw: &str, eeprom: ControlReply) -> Report {
    Report {
        serial: "S".to_owned(),
        hw_version: "F".to_owned(),
        fw_version: fw.to_owned(),
        git_version: "g1".to_owned(),
        info: told(5, &[1, 0, 0, 250, 80]),
        eeprom,
    }
}

fn timing(sample_time: Double, per: u32) -> Timing {
    let range = Range { min: single(-7.0), max: single(7.0) };
    Timing {
        sample_time,
        length: single(1.0),
        per,
        packets: 1,
        range_a: range,
        range_b: range,
    }
}

fn m1k(fw: &str, interleaved: bool) -> StreamingDevice {
    let (mut dev, c) = m1k::create(&report(fw, told(-1, &[])), interleaved);
    assert_eq!((c.mode, c.samples, c.continuous, c.raw), (0, 1200000, true, false));
    assert_eq!(f64::from_bits(c.sample_time.bits), 1e-5);
    dev.configure(c, timing(c.sample_time, 240));
    dev.out.clear();
    dev
}

fn controls(dev: &mut StreamingDevice) -> Vec<(u8, u16, u16)> {
    let mut v = Vec::new();
    for e in std::mem::take(&mut dev.out) {
        if let Effect::Control(c) = e {
            v.push((c.request, c.value, c.index));
        }
    }
    v
}

#[test]
fn m1k_reads_either_layout() {
    for inter in [true, false] {
        let dev = m1k("2.17", inter);
        let mut packet = vec![0u8; 2048];
        for i in 0..256usize {
            for r in 0..4usize {
                let at = if inter { 8 * i + 2 * r } else { 2 * (i + 256 * r) };
                let v = (1000 * r + i) as u16;
                packet[at] = (v >> 8) as u8;
                packet[at + 1] = v as u8;
            }
        }
        let Backend::M1k(b) = &dev.backend else { panic!("no M1K") };
        let s = b.read_transfer(&packet);
        assert_eq!(s.len(), 256);
        assert_eq!((s[7].av, s[7].ai, s[7].bv, s[7].bi), (7, 1007, 2007, 3007));
        assert!(b.read_transfer(&packet[..2047]).is_empty());
    }
}

#[test]
fn m1k_output_layouts() {
    let dev = m1k("2.06", true);
    assert_eq!(dev.out_shape(), Some(OutShape { packets: 1, samples: 256, bytes: 1024 }));
    let codes: Vec<(u16, u16)> = (0..256).map(|i| (0x1200 + i, 0x3400 + i)).collect();
    let b = m1k_out_transfer(true, 1, &codes);
    assert_eq!(b.len(), 1024);
    assert_eq!(&b[8..12], &[0x12, 2, 0x34, 2]);
    let b = m1k_out_transfer(false, 1, &codes);
    assert_eq!(&b[4..6], &[0x12, 2]);
    assert_eq!(&b[516..518], &[0x34, 2]);
}

#[test]
fn m1k_capture_talks_to_the_hardware() {
    let mut dev = m1k("2.17", true);
    dev.start_capture();
    assert!(dev.out.iter().any(|e| matches!(e, Effect::Start)));
    dev.out.clear();
    dev.m1k_prepare();
    assert_eq!(
        controls(&mut dev),
        vec![
            (0x59, 0, 0x3000),
            (0x53, 0, 0),
            (0x59, 1, 0x3000),
            (0x53, 1, 0),
            (0xC5, 0, 0),
            (0xCC, 0, 0)
        ]
    );
    dev.m1k_begin(&told(2, &[0x34, 0x12]));
    assert_eq!(controls(&mut dev), vec![(0xC5, 240, frame_start(0x1234))]);

    let source = OutputSource::constant(1, single(2.0));
    let reply = PhaseReply { phase: Double { bits: 0 }, samples: 0 };
    dev.set_output(1, source, reply);
    assert_eq!(controls(&mut dev), vec![(0x59, 1, 0), (0x53, 1, 1)]);
    assert_eq!(dev.channels[1].source.as_ref().unwrap().start_sample, 1);

    dev.pause_capture();
    assert!(matches!(dev.out.iter().find(|e| matches!(e, Effect::Stop)), Some(_)));
    assert_eq!(controls(&mut dev)[0], (0xC5, 0, 0));
}

#[test]
fn m1k_resync_restores_the_lead() {
    let mut dev = m1k("2.17", true);
    dev.capture_o = 1000;
    for _ in 0..16 + 64 {
        dev.resync();
    }
    assert_eq!(dev.capture_o, 1000);
    dev.capture_o = 1500;
    for _ in 0..64 {
        dev.resync();
    }
    assert_eq!(dev.capture_o, 1000);
    dev.capture_o = 1128;
    for _ in 0..64 {
        dev.resync();
    }
    assert_eq!(dev.capture_o, 1128);
}

fn rest(dev: &mut StreamingDevice, method: &str, what: &str, body: &str) -> RestStep {
    let req = RestRequest::new(method, &format!("/rest/v1/devices/x/{what}"), body);
    dev.device_rest(&req, 5).unwrap()
}

fn document(step: RestStep) -> Json {
    match step {
        RestStep::Respond(RestResponse { body: RestBody::Document(j), .. }) => j,
        s => panic!("no document: {s:?}"),
    }
}

fn asked(step: RestStep) -> RestAsk {
    match step {
        RestStep::Ask(a) => a,
        s => panic!("no question: {s:?}"),
    }
}

fn answered(a: &RestAsk, replies: Vec<ControlReply>) -> Json {
    document(RestStep::Respond(rest_answer(a, &replies)))
}

fn num(j: &Json, key: &str) -> i64 {
    match j.get(key) {
        Some(Json::Number(Number::Unsigned(n))) => *n as i64,
        Some(Json::Number(Number::Signed(n))) => *n,
        v => panic!("no integer {key}: {v:?}"),
    }
}

fn truth(j: &Json, key: &str) -> bool {
    matches!(j.get(key), Some(Json::Bool(true)))
}

#[test]
fn m1k_rest_endpoints() {
    let mut dev = m1k("2.17", true);
    let j = document(rest(&mut dev, "POST", "frontend", "channel=b&r50_gnd=1&pot_r1=200&split="));
    let b = j.get("b").unwrap();
    assert!(truth(b, "r50_gnd") && truth(b, "feedback") && !truth(b, "split"));
    assert_eq!(controls(&mut dev), vec![(0x50, 0x26, 0), (0x59, 1, 72 << 8)]);

    let a = asked(rest(&mut dev, "GET", "power", ""));
    let r = &a.requests[0];
    assert_eq!((r.request_type, r.request, r.value, r.index, r.length), (0xC0, 0x17, 0, 3, 3));
    let j = answered(&a, vec![told(3, &[8, 0, 0])]);
    assert_eq!((num(&j, "status_raw"), num(&j, "alert_bit")), (8, 8));
    assert!(truth(&j, "overcurrent"));
    let j = answered(&a, vec![told(-1, &[])]);
    assert_eq!(num(&j, "error"), -1);

    let a = asked(rest(&mut dev, "GET", "temperature", ""));
    assert_eq!(a.requests.len(), 2);

    let j = document(rest(&mut dev, "POST", "leds", "red=1&blue=true"));
    assert_eq!(num(&j, "leds"), 5);
    let j = document(rest(&mut dev, "POST", "leds", "leds=-6"));
    assert_eq!(num(&j, "leds"), 2);
    assert_eq!(controls(&mut dev), vec![(0x03, 5, 0), (0x03, 2, 0)]);

    let a = asked(rest(&mut dev, "POST", "calibration", r#"{"reset": true}"#));
    assert_eq!(a.requests[0].request, 0x02);
    assert_eq!(a.requests[0].data, M1kCal::default().to_bytes());
    let j = answered(&a, vec![told(100, &[])]);
    assert_eq!(num(&j, "status"), 100);
    assert!(truth(&j, "valid"));
    assert!(truth(&document(rest(&mut dev, "GET", "calibration", "")), "valid"));
    match rest(&mut dev, "POST", "calibration", "{}") {
        RestStep::Respond(r) => assert_eq!(r.status, 402),
        s => panic!("no response: {s:?}"),
    }

    let a = asked(rest(&mut dev, "POST", "serial", "serial=N7"));
    assert_eq!((a.requests[0].request, a.requests[0].data.as_slice()), (0x05, &b"N7"[..]));
    let j = document(rest(&mut dev, "POST", "serial", "serial="));
    assert_eq!(num(&j, "status"), -1);
    let j = document(rest(&mut dev, "GET", "serial", ""));
    assert!(matches!(j.get("serial"), Some(Json::Str(s)) if s == "S"));
}

fn message(dev: &mut StreamingDevice, cmd: &str, body: &str) -> Result<Outcome, String> {
    dev.process_message(4, cmd, &parse_json(body).unwrap()).map_err(|e| e.0)
}

fn sent(dev: &mut StreamingDevice) -> Vec<Json> {
    let mut v = Vec::new();
    for e in std::mem::take(&mut dev.out) {
        if let Effect::Send { clients, message } = e {
            assert_eq!(clients, vec![4]);
            v.push(message);
        }
    }
    v
}

#[test]
fn m1k_messages() {
    let mut dev = m1k("2.10", true);
    assert!(matches!(message(&mut dev, "getLED", r#"{"id": 3}"#), Ok(Outcome::Handled)));
    let m = sent(&mut dev);
    assert_eq!((num(&m[0], "id"), num(m[0].get("leds").unwrap(), "leds")), (3, 0));

    let Ok(Outcome::Ask(a)) = message(&mut dev, "getPower", r#"{"id": 9}"#) else {
        panic!("no question")
    };
    assert_eq!((a.client, a.id), (4, 9));
    let j = answer(&a, &vec![told(3, &[4, 0, 0])], 0);
    let power = j.get("power").unwrap();
    assert!(truth(power, "overcurrent"));
    assert_eq!(num(power, "alert_bit"), 4);

    let Ok(Outcome::Ask(a)) = message(
        &mut dev,
        "controlTransfer",
        r#"{"id": 1, "bRequest": 7, "wValue": 65537, "wLength": 900}"#,
    ) else {
        panic!("no question")
    };
    let r = &a.requests[0];
    assert_eq!((r.request_type, r.request, r.value, r.length), (0xC0, 7, 1, 64));
    let j = answer(&a, &vec![told(2, &[5, 6])], 0);
    assert!(matches!(j.get("data"), Some(Json::Array(v)) if v.len() == 2));
    assert_eq!(num(&j, "status"), 2);

    let e = message(&mut dev, "controlTransfer", r#"{"bRequest": 7, "bmRequestType": 64}"#);
    assert_eq!(e.unwrap_err(), "JSON missing property: data");
    let e = message(&mut dev, "controlTransfer", "{}");
    assert_eq!(e.unwrap_err(), "JSON missing int property: bRequest");
    assert!(matches!(message(&mut dev, "nothing", "{}"), Ok(Outcome::Unknown)));
}

// ---- the CEE ----

fn cee() -> StreamingDevice {
    let cal = CeeCal {
        magic: EEPROM_VALID_MAGIC,
        offset_a_v: -5,
        flags: 1,
        ..CeeCal::defaults()
    };
    let least = Double { bits: (80.0 / 4e6f64).to_bits() };
    let (mut dev, c) = cee::create(&report("1.2", told(25, &cal.to_bytes())), least);
    assert_eq!(dev.fw_version, "1.2/g1");
    assert_eq!(dev.current_limit, 200);
    assert_eq!(c.samples, 120000);
    dev.configure(c, timing(c.sample_time, 400));
    dev.out.clear();
    dev
}

#[test]
fn cee_takes_its_calibration() {
    let mut dev = cee();
    let Backend::Cee(b) = &mut dev.backend else { panic!("no CEE") };
    assert_eq!(b.cal.offset_a_v, -5);
    assert_eq!(b.cal.current_gain_a, DEFAULT_CURRENT_GAIN);
    assert_eq!(b.min_per, 80);
    assert_eq!((DEFAULT_CURRENT_GAIN, (45.0 * 0.07 * 100000.0) as u32), (315000, 315000));

    let mut packet = vec![0u8; 64];
    packet[0] = 1;
    packet[2] = 1;
    packet[4] = 10;
    let (s, lost) = b.read_transfer(&packet);
    assert_eq!(s.len(), 10);
    assert_eq!((s[0].av, s[0].a_on, s[0].b_on), (5, true, false));
    assert!(!lost);
    let (_, lost) = b.read_transfer(&packet);
    assert!(lost);
}

#[test]
fn cee_starts_over_without_calibration() {
    let least = Double { bits: 0 };
    let (dev, _) = cee::create(&report("1.0", told(-1, &[])), least);
    let Backend::Cee(b) = &dev.backend else { panic!("no CEE") };
    assert_eq!(b.cal.offset_a_v, 0);
    assert_eq!(b.cal.flags, 0xff);
    assert_eq!(dev.current_limit, 200);
}

#[test]
fn cee_absorbs_transfers() {
    let mut dev = cee();
    dev.on_client_attach(4);
    dev.out.clear();
    let v = Values { av: single(1.0), ai: single(2.0), bv: single(3.0), bi: single(4.0) };
    dev.absorb(&vec![v, v], true);
    assert_eq!(dev.capture_i, 2);
    assert_eq!(dev.get(1, 0, 1), single(3.0));
    let m = sent(&mut dev);
    assert!(matches!(m[0].get("_action"), Some(Json::Str(s)) if s == "packetDrop"));
    dev.transfer_done();
    assert!(dev.channels[0].source.as_ref().unwrap().effective);
    assert!(dev.channels[1].source.as_ref().unwrap().effective);
    assert_eq!(sent(&mut dev).len(), 2);
}

#[test]
fn cee_output_transfer() {
    let mut dev = cee();
    assert_eq!(dev.out_shape(), Some(OutShape { packets: 1, samples: 10, bytes: 32 }));
    let (a, b) = dev.next_levels(10).unwrap();
    assert_eq!(a, vec![Level::Exact(single(0.0)); 10]);
    assert_eq!(b.len(), 10);
    assert_eq!(dev.capture_o, 10);
    let codes = vec![(0xABC, 0x123); 10];
    let t = cee_out_transfer(1, 2, 1, &codes);
    assert_eq!(t.len(), 32);
    assert_eq!(&t[..5], &[1, 2, 0xBC, 0x23, 0x1A]);
    assert_eq!(&t[29..], &[0xBC, 0x23, 0x1A]);
}

#[test]
fn cee_gains_and_limits() {
    let mut dev = cee();
    dev.set_gain(0, 1, 8);
    assert_eq!(controls(&mut dev), vec![(0x65, 12, 0)]);
    assert_eq!(dev.channels[0].streams[1].gain, 8);
    dev.set_gain(0, 1, 3);
    assert!(controls(&mut dev).is_empty());
    assert_eq!(dev.channels[0].streams[1].gain, 8);
    dev.set_current_limit(2000);
    assert_eq!(dev.current_limit, 2000);
    dev.set_current_limit(7);
    assert_eq!(dev.current_limit, 2000);
    let sample_time = dev.sample_time;
    let r = ConfigRequest { mode: 0, sample_time, samples: 10, continuous: false, raw: true };
    dev.configure(r, timing(sample_time, 400));
    assert_eq!(dev.channels[0].streams[1].gain, 8);
    assert_eq!(dev.channels[0].streams[1].normal_gain, 2);
}

#[test]
fn cee_messages_and_pins() {
    let mut dev = cee();
    let e = message(&mut dev, "writeCalibration", "{}").unwrap_err();
    assert_eq!(e, "JSON missing int property: offset_a_v");
    let Ok(Outcome::Handled) = message(&mut dev, "readCalibration", r#"{"id": 2}"#) else {
        panic!("not handled")
    };
    let m = sent(&mut dev);
    assert_eq!((num(&m[0], "id"), num(&m[0], "offset_a_v")), (2, -5));
    let a = asked(rest(&mut dev, "POST", "gpio", "dir=3&out=300"));
    let r = &a.requests[0];
    assert_eq!((r.request, r.value, r.index, r.length), (0x21, 44, 3, 4));
    let j = answered(&a, vec![told(4, &[7, 3])]);
    assert_eq!((num(&j, "in"), num(&j, "dir"), num(&j, "out")), (7, 3, 0));
    let a = asked(rest(&mut dev, "GET", "gpio", ""));
    assert_eq!(a.requests[0].request, 0x20);
}

// ---- the bootloader ----

#[test]
fn bootloader_messages() {
    let mut d = vec![0u8; 51];
    d[0..4].copy_from_slice(&[0xCA, 0xFE, 0xBA, 0xBE]);
    d[19..22].copy_from_slice(b"CEE");
    d[35] = b'B';
    let mut boot = BootloaderDevice::new("S1", &d);
    assert_eq!(boot.model(), "com.nonolithlabs.bootloader");
    assert_eq!(boot.hw_version(), "CEE B");
    boot.on_client_attach(4);
    match &boot.out[0] {
        Effect::Send { message, .. } => {
            assert!(matches!(message.get("magic"), Some(Json::Str(s)) if s == "CAFEBABE"))
        }
        e => panic!("no message: {e:?}"),
    }
    let mut say = |cmd: &str, body: &str| {
        boot.process_message(4, cmd, &parse_json(body).unwrap()).map_err(|e| e.0)
    };
    let Ok(Outcome::Ask(a)) = say("write", r#"{"id": 5, "data": "aGVsbG8="}"#) else {
        panic!("no question")
    };
    assert_eq!(a.bulk.as_deref(), Some(&b"hello"[..]));
    let j = answer(&a, &vec![told(0, &[])], -1);
    assert_eq!((num(&j, "id"), num(&j, "result")), (5, -1));
    assert_eq!(say("write", r#"{"data": "!"}"#).unwrap_err(), "Invalid base64 data");
    assert_eq!(say("write", "{}").unwrap_err(), "JSON missing string property: data");
    let Ok(Outcome::Ask(a)) = say("crc_app", r#"{"id": 6}"#) else { panic!("no question") };
    let j = answer(&a, &vec![told(4, &[1, 2, 0, 0])], 0);
    assert_eq!(num(&j, "crc"), 513);
    assert!(matches!(say("frobnicate", "{}"), Ok(Outcome::Unknown)));
}

#[test]
fn devices_are_told_apart() {
    assert_eq!(device_kind(0x59e3, 0xCEE1), Some(Kind::Cee));
    assert_eq!(device_kind(0x9999, 0xCEE1), Some(Kind::Cee));
    assert_eq!(device_kind(0x59e3, 0xBBBB), Some(Kind::Bootloader));
    assert_eq!(device_kind(0x0456, 0xCEE2), Some(Kind::M1k));
    assert_eq!(device_kind(0x064B, 0x784C), Some(Kind::M1k));
    assert_eq!(device_kind(0x0456, 0x784C), None);
    assert_eq!(serial_text(Some("A1\0\0")), "A1");
    assert_eq!(serial_text(None), "0");
    assert_eq!(read_string(&told(4, b"1.2\0x")), "1.2");
    assert_eq!(read_string(&told(2, b"\xffz")), "\u{fffd}z");
    assert_eq!(read_string(&told(-1, b"1.2")), "");
}

#[test]
fn versions_start_with_a_number() {
    assert_eq!(leading_number("2.17 beta"), "2.17");
    assert_eq!(leading_number("2.1.3"), "2.1");
    assert_eq!(leading_number("2.17-rc1"), "2.17");
    assert_eq!(leading_number("beta"), "");
    assert_eq!(leading_number(""), "");
    assert_eq!(leading_number("-"), "");
    assert_eq!(leading_number("+.x"), "");
    assert_eq!(leading_number("2.x"), "2.");
    assert_eq!(leading_number(".5.1"), ".5");
    assert_eq!(leading_number("1-2"), "1");
    assert_eq!(leading_number("-1.5+2"), "-1.5");
    assert_eq!(leading_number("--1"), "");
    assert_eq!(leading_number(" \t2.06"), "2.06");
    assert_eq!(leading_number("2.0e1x"), "2.0e1");
    assert_eq!(leading_number("2E-3"), "2E-3");
    assert_eq!(leading_number("2.0e"), "2.0");
    assert_eq!(leading_number("2.0e+rc"), "2.0");
    assert_eq!(leading_number("e1"), "");
    for (version, new) in [("2.1.3", true), ("2.17-rc1", true), ("1.9.9", false), ("beta", false)] {
        let number = leading_number(version).parse::<f64>().unwrap_or(0.0);
        assert_eq!(number >= 2.0, new, "{version}");
    }
}

fn interviewed(kind: Kind, replies: Vec<ControlReply>) -> (Vec<(u8, u16, u16)>, Report) {
    let mut asked = Vec::new();
    let mut replies = replies.into_iter();
    let mut interview = Interview::new(kind, "S9".to_owned());
    while let Some(q) = interview.next_question() {
        asked.push((q.request, q.value, q.index));
        interview.heard(replies.next().unwrap_or(told(0, &[])));
    }
    (asked, interview.report())
}

#[test]
fn devices_are_asked_what_they_are() {
    let (asked, r) = interviewed(
        Kind::M1k,
        vec![told(2, b"F\0"), told(5, b"2.17\0"), told(0, &[]), told(100, &[7; 100])],
    );
    assert_eq!(asked, vec![(0, 0, 0), (0, 0, 1), (0xC5, 0, 0), (1, 0, 0)]);
    assert_eq!((r.serial.as_str(), r.hw_version.as_str(), r.fw_version.as_str()), ("S9", "F", "2.17"));
    assert_eq!((r.eeprom.status, r.info.status), (100, -1));

    let new = vec![told(1, b"B"), told(3, b"1.2"), told(5, &[1, 0, 0, 250, 80]), told(2, b"g7")];
    let (asked, r) = interviewed(Kind::Cee, new);
    assert_eq!(asked.len(), 10);
    assert_eq!(&asked[2..5], &[(0, 0, 0xff), (0, 0, 2), (0x80, 0, 0)]);
    assert_eq!(asked[9], (0xE0, 0, 0));
    assert_eq!((r.git_version.as_str(), cee::min_period(&r.info)), ("g7", 80));

    let old = vec![told(1, b"B"), told(3, b"1.1")];
    let (asked, r) = interviewed(Kind::Cee, old);
    assert_eq!(asked.len(), 8);
    assert_eq!((r.git_version.as_str(), cee::min_period(&r.info)), ("", 100));

    let (asked, r) = interviewed(Kind::Bootloader, vec![told(51, &[3; 51])]);
    assert_eq!(asked, vec![(0xB0, 0, 0)]);
    assert_eq!(r.eeprom.data.len(), 51);
}
