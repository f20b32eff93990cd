use connect::command::Outcome;
use connect::config::{make_test_device, test_sample_time, ConfigRequest, Range, Timing};
use connect::device::{AnyDevice, ClientHandle, ServerState};
use connect::digits::{notation, scientific_text, special_word, strip_trailing_zeros, Notation};
use connect::effect::Effect;
use connect::float::{Double, Single};
use connect::form::{form_operands, form_source, FormPlan, FormTimes};
use connect::jsonutil::{parse_json, Error, Json, Number};
use connect::listener::{csv_rows, Next, Sink, Update, Zero};
use connect::rest::{
    handle_json_request, Field, GainField, RestBody, RestRequest, RestResponse, RestStep,
};
use connect::source::{make_source, OutputSource, PhaseReply, PhaseRequest, PhaseZero, Wave};
use connect::streaming::{Backend, StreamingDevice};
use connect::ws::{hello, Reaction, WsConn};

// ---- floating point ----

fn single(v: f32) -> Single {
    Single { bits: v.to_bits() }
}

fn double(v: f64) -> Double {
    Double { bits: v.to_bits() }
}

fn value(s: Single) -> f32 {
    f32::from_bits(s.bits)
}

fn wide(d: Double) -> f64 {
    f64::from_bits(d.bits)
}

fn mean(window: &Option<Vec<Single>>) -> f32 {
    match window {
        Some(v) => {
            let mut total: f32 = 0.0;
            for s in v {
                total += value(*s);
            }
            total / v.len() as f32
        }
        None => f32::NAN,
    }
}

fn means(u: &Update) -> Vec<Vec<Single>> {
    u.windows.iter().map(|row| row.iter().map(|w| single(mean(w))).collect()).collect()
}

fn fmt_g(v: f32) -> String {
    if let Some(word) = special_word(single(v)) {
        return word;
    }
    let v = v as f64;
    let mut exp = v.abs().log10().floor() as i32;
    let scale = 10f64.powi(5 - exp);
    let rounded = (v * scale).round() / scale;
    if rounded.abs().log10().floor() as i32 != exp && rounded != 0.0 {
        exp = rounded.abs().log10().floor() as i32;
    }
    match notation(exp) {
        Notation::Fixed(decimals) => strip_trailing_zeros(&format!("{v:.decimals$}")),
        Notation::Scientific => scientific_text(&format!("{v:.5e}")).unwrap(),
    }
}

fn zero_of(z: PhaseZero) -> f64 {
    match z {
        PhaseZero::At(s) => s as f64,
        PhaseZero::Wave { wave, period, phase, sample } => {
            let (s, period, phase) = (sample as f64, wide(period), wide(phase));
            if wave == Wave::Square {
                s + (period - (s + phase) % period).ceil()
            } else {
                s + (period - (s + phase) % period) % period
            }
        }
    }
}

fn reply_to(q: PhaseRequest) -> PhaseReply {
    let mut r = PhaseReply { phase: double(0.0), samples: 0 };
    match q {
        PhaseRequest::Nothing => {}
        PhaseRequest::Wrap { phase, period } => r.phase = double(wide(phase) % wide(period)),
        PhaseRequest::Carry { sample, phase, period, prev_phase, prev_period } => {
            let (s, pp) = (sample as f64, wide(prev_period));
            let moved = wide(phase) + ((s + wide(prev_phase)) % pp / pp * wide(period) - s);
            r.phase = double(moved % wide(period));
        }
        PhaseRequest::Scale { num, den, period } => {
            r.samples = (num as f64 / den as f64 * period as f64).round() as i64
        }
    }
    r
}

// ---- documents ----

fn at<'a>(j: &'a Json, path: &[&str]) -> &'a Json {
    let mut j = j;
    for key in path {
        j = j.get(key).unwrap_or_else(|| panic!("no {key} in {j:?}"));
    }
    j
}

fn num(j: &Json) -> f64 {
    match j {
        Json::Number(Number::Unsigned(n)) => *n as f64,
        Json::Number(Number::Signed(n)) => *n as f64,
        Json::Number(Number::Single(s)) => format!("{:?}", value(*s)).parse().unwrap(),
        Json::Number(Number::Double(d)) => wide(*d),
        Json::Number(Number::Ratio(a, b)) => *a as f64 / *b as f64,
        _ => panic!("no number: {j:?}"),
    }
}

fn text(j: &Json) -> &str {
    match j {
        Json::Str(s) => s.as_str(),
        _ => panic!("no text: {j:?}"),
    }
}

fn truth(j: &Json) -> bool {
    match j {
        Json::Bool(b) => *b,
        _ => panic!("no truth: {j:?}"),
    }
}

fn list(j: &Json) -> &Vec<Json> {
    match j {
        Json::Array(a) => a,
        _ => panic!("no list: {j:?}"),
    }
}

fn rows(j: &Json) -> Vec<Vec<f64>> {
    list(j).iter().map(|r| list(r).iter().map(num).collect()).collect()
}

fn action(j: &Json) -> &str {
    text(at(j, &["_action"]))
}

// ---- driving a device ----

/// What came for one client, or into the bodies of responses.
#[derive(Default)]
struct Inbox {
    client: u64,
    docs: Vec<Json>,
    frames: Vec<Vec<u8>>,
    chunks: Vec<String>,
}

impl Inbox {
    fn of(client: u64) -> Inbox {
        Inbox { client, ..Inbox::default() }
    }

    fn drain(&mut self) -> Vec<Json> {
        std::mem::take(&mut self.docs)
    }

    fn updates(&mut self) -> Vec<Json> {
        self.drain().into_iter().filter(|m| action(m) == "update").collect()
    }
}

fn settle(dev: &mut StreamingDevice, inbox: &mut Inbox) {
    for e in std::mem::take(&mut dev.out) {
        if let Effect::Send { clients, message } = e {
            if clients.contains(&inbox.client) {
                inbox.docs.push(message);
            }
        }
    }
}

fn deliver(u: &Update, inbox: &mut Inbox) {
    let m = means(u);
    match u.sink {
        Sink::Ws { binary: true, .. } => inbox.frames.push(u.binary_frame(&m)),
        Sink::Ws { .. } => inbox.docs.push(u.json_update(&m)),
        Sink::Rest { .. } => {
            let words: Vec<Vec<String>> =
                m.iter().map(|r| r.iter().map(|s| fmt_g(value(*s))).collect()).collect();
            inbox.chunks.push(csv_rows(&words, u.chunks));
        }
    }
}

fn poll(dev: &mut StreamingDevice, inbox: &mut Inbox, first: usize) {
    let mut i = first;
    while i < dev.listeners.len() {
        let wave = dev.zero_request(i).and_then(|z| {
            let zero = zero_of(z);
            if zero.is_finite() {
                let near = zero.round();
                Some(Zero { at: near as u64, error: double(zero - near) })
            } else {
                None
            }
        });
        let p = dev.poll_listener(i, wave, false);
        if let Some(u) = p.update {
            deliver(&u, inbox);
        }
        i = dev.after_poll(i, p.next, true);
    }
}

fn feed(dev: &mut StreamingDevice, inbox: &mut Inbox, values: &[f32]) {
    for &v in values {
        for c in 0..dev.channels.len() {
            dev.put(c, 0, single(v));
            dev.put(c, 1, single(v / 10.0));
        }
        dev.sample_done();
    }
    poll(dev, inbox, 0);
    dev.packet_done();
    for c in 0..dev.channels.len() {
        dev.check_output_effective(c);
    }
    settle(dev, inbox);
}

fn feed_ramp(dev: &mut StreamingDevice, inbox: &mut Inbox, n: u64) {
    let start = dev.capture_i;
    let values: Vec<f32> = (0..n).map(|k| ((start + k) * 10) as f32).collect();
    feed(dev, inbox, &values);
}

fn timing_of(r: &ConfigRequest) -> Timing {
    let time = test_sample_time(r.sample_time);
    let none = Range { min: single(0.0), max: single(0.0) };
    Timing {
        sample_time: time,
        length: single(r.samples as f32 * wide(time) as f32),
        per: 0,
        packets: 0,
        range_a: none,
        range_b: none,
    }
}

fn configure_as(dev: &mut StreamingDevice, r: ConfigRequest) {
    let t = timing_of(&r);
    dev.configure(r, t);
}

fn configure(dev: &mut StreamingDevice, mode: i32, time: f64, samples: u32, continuous: bool) {
    let sample_time = double(time);
    configure_as(dev, ConfigRequest { mode, sample_time, samples, continuous, raw: false });
}

fn set_output(dev: &mut StreamingDevice, chan: usize, source: OutputSource) {
    let reply = reply_to(dev.phase_request(chan, &source));
    dev.set_output(chan, source, reply);
}

fn internal_gain(dev: &StreamingDevice, chan: usize, stream: usize, gain: f64) -> i32 {
    (gain * dev.channels[chan].streams[stream].normal_gain as f64).round() as i32
}

fn carry_out(dev: &mut StreamingDevice, inbox: &mut Inbox, outcome: Outcome) -> bool {
    match outcome {
        Outcome::Unknown => return false,
        Outcome::Handled => {}
        Outcome::Listening => {
            let last = dev.listeners.len() - 1;
            poll(dev, inbox, last);
        }
        Outcome::Configure(r) => configure_as(dev, r),
        Outcome::Output { chan, source } => set_output(dev, chan, source),
        Outcome::Gain { chan, stream, gain } => {
            let internal = internal_gain(dev, chan, stream, wide(gain));
            dev.set_gain(chan, stream, internal);
        }
        Outcome::Ask(a) => panic!("no hardware to ask: {a:?}"),
    }
    settle(dev, inbox);
    true
}

fn command(
    dev: &mut StreamingDevice,
    inbox: &mut Inbox,
    cmd: &str,
    body: &str,
) -> Result<bool, Error> {
    let n = parse_json(body).unwrap();
    let outcome = dev.process_message(inbox.client, cmd, &n)?;
    Ok(carry_out(dev, inbox, outcome))
}

fn attached(serial: &str) -> (StreamingDevice, Inbox) {
    let mut dev = make_test_device(serial);
    configure(&mut dev, 0, 1e-4, 100, true);
    let mut inbox = Inbox::of(1);
    dev.on_client_attach(1);
    settle(&mut dev, &mut inbox);
    inbox.drain();
    (dev, inbox)
}

// ---- the ring buffer ----

#[test]
fn buffer_get_put_semantics() {
    let mut dev = make_test_device("BUF1");
    let mut inbox = Inbox::of(1);
    configure(&mut dev, 0, 1e-4, 5, false);
    assert!(value(dev.get(0, 0, 0)).is_nan());

    feed(&mut dev, &mut inbox, &[1.0, 2.0, 3.0]);
    assert_eq!(value(dev.get(0, 0, 0)), 1.0);
    assert_eq!(value(dev.get(0, 0, 2)), 3.0);
    assert!(value(dev.get(0, 0, 3)).is_nan());
    assert_eq!(dev.buffer_min(), 0);
    assert_eq!(dev.buffer_max(), 3);
}

#[test]
fn buffer_wrap_continuous() {
    let mut dev = make_test_device("BUF2");
    let mut inbox = Inbox::of(1);
    configure(&mut dev, 0, 1e-4, 5, true);
    feed(&mut dev, &mut inbox, &[0.0, 1.0, 2.0, 3.0, 4.0, 5.0, 6.0, 7.0]);
    assert!(value(dev.get(0, 0, 0)).is_nan());
    assert!(value(dev.get(0, 0, 3)).is_nan());
    assert_eq!(value(dev.get(0, 0, 4)), 4.0);
    assert_eq!(value(dev.get(0, 0, 7)), 7.0);
    assert!(value(dev.get(0, 0, 8)).is_nan());
    assert_eq!(dev.buffer_min(), 3);
    assert_eq!(dev.buffer_max(), 8);
}

#[test]
fn non_continuous_overflow_dropped_but_counted() {
    let mut dev = make_test_device("BUF3");
    let mut inbox = Inbox::of(1);
    configure(&mut dev, 0, 1e-4, 5, false);
    feed(&mut dev, &mut inbox, &[0.0, 1.0, 2.0, 3.0, 4.0, 99.0, 98.0]);
    assert_eq!(dev.capture_i, 7);
    assert_eq!(value(dev.get(0, 0, 4)), 4.0);
    assert_eq!(value(dev.get(0, 0, 5)), 0.0);
    assert!(value(dev.get(0, 0, 7)).is_nan());
    assert!(dev.capture_done);
    assert!(!dev.capture_state);
}

#[test]
fn resample_mean_and_nan() {
    let mut dev = make_test_device("RS1");
    let mut inbox = Inbox::of(1);
    configure(&mut dev, 0, 1e-4, 100, false);
    feed(&mut dev, &mut inbox, &[1.0, 2.0, 3.0, 4.0]);
    assert_eq!(mean(&dev.resample(0, 0, 0, 2)), 1.5);
    assert_eq!(mean(&dev.resample(0, 0, 2, 2)), 3.5);
    assert!(mean(&dev.resample(0, 0, 3, 2)).is_nan());
}

#[test]
fn windows_hold_their_samples() {
    let mut dev = make_test_device("RS2");
    configure(&mut dev, 0, 1e-4, 5, true);
    let mut inbox = Inbox::of(0);
    feed_ramp(&mut dev, &mut inbox, 8);
    assert_eq!(dev.resample(0, 0, 4, 4), Some((4..8).map(|i| dev.get(0, 0, i)).collect()));
    for i in 0..10 {
        match dev.resample(0, 0, i, 1) {
            Some(w) => assert_eq!(w, vec![dev.get(0, 0, i)]),
            None => assert!(dev.get(0, 0, i).is_nan()),
        }
    }
    assert!(dev.resample(0, 0, 3, 2).is_none());
    assert!(dev.resample(0, 0, 7, 2).is_none());
}

#[test]
fn empty_buffer_takes_nothing() {
    let mut dev = make_test_device("BUF4");
    let mut inbox = Inbox::of(1);
    configure(&mut dev, 0, 1e-4, 0, true);
    feed(&mut dev, &mut inbox, &[1.0, 2.0]);
    assert_eq!(dev.capture_i, 2);
    assert!(value(dev.get(0, 0, 0)).is_nan());
    assert!(dev.resample(0, 0, 0, 1).is_none());
}

// ---- the capture ----

#[test]
fn capture_state_machine_and_broadcasts() {
    let mut dev = make_test_device("SM1");
    let mut inbox = Inbox::of(1);
    dev.on_client_attach(1);
    settle(&mut dev, &mut inbox);
    let msgs = inbox.drain();
    assert_eq!(msgs.len(), 1);
    assert_eq!(action(&msgs[0]), "deviceConfig");
    assert_eq!(text(at(&msgs[0], &["device", "id"])), "com.nonolithlabs.test~SM1");
    assert_eq!(text(at(&msgs[0], &["device", "channels", "a", "streams", "v", "units"])), "V");

    configure(&mut dev, 0, 1e-4, 3, false);
    dev.start_capture();
    settle(&mut dev, &mut inbox);
    let msgs = inbox.drain();
    assert_eq!(action(&msgs[0]), "deviceConfig");
    assert_eq!(action(&msgs[1]), "captureState");
    assert!(truth(at(&msgs[1], &["state"])));
    assert!(!truth(at(&msgs[1], &["done"])));

    dev.start_capture();
    settle(&mut dev, &mut inbox);
    assert!(inbox.drain().is_empty());

    feed(&mut dev, &mut inbox, &[1.0, 2.0, 3.0]);
    let msgs = inbox.drain();
    let cs: Vec<&Json> = msgs.iter().filter(|m| action(m) == "captureState").collect();
    assert_eq!(cs.len(), 1);
    assert!(!truth(at(cs[0], &["state"])));
    assert!(truth(at(cs[0], &["done"])));

    dev.start_capture();
    settle(&mut dev, &mut inbox);
    let msgs = inbox.drain();
    assert_eq!(action(&msgs[0]), "captureReset");
    assert_eq!(action(&msgs[1]), "captureState");
    assert_eq!(dev.capture_i, 0);
    assert!(!dev.capture_done);
}

#[test]
fn output_effective_handshake() {
    let (mut dev, mut inbox) = attached("FX1");
    let n = parse_json(r#"{"source":"constant","mode":1,"value":2.5,"hint":"h"}"#).unwrap();
    set_output(&mut dev, 0, make_source(&n).unwrap());
    settle(&mut dev, &mut inbox);
    let msgs = inbox.drain();
    assert_eq!(msgs.len(), 1);
    assert_eq!(action(&msgs[0]), "outputChanged");
    assert_eq!(text(at(&msgs[0], &["channel"])), "a");
    assert!(!truth(at(&msgs[0], &["effective"])));
    assert_eq!(text(at(&msgs[0], &["hint"])), "h");

    feed(&mut dev, &mut inbox, &[1.0, 1.0]);
    let msgs = inbox.drain();
    let oc: Vec<&Json> = msgs
        .iter()
        .filter(|m| action(m) == "outputChanged" && text(at(m, &["channel"])) == "a")
        .collect();
    assert_eq!(oc.len(), 1);
    assert!(truth(at(oc[0], &["effective"])));
}

#[test]
fn set_gain_notifies() {
    let mut dev = make_test_device("G1");
    let mut inbox = Inbox::of(1);
    dev.on_client_attach(1);
    settle(&mut dev, &mut inbox);
    inbox.drain();

    let body = r#"{"_cmd":"setGain","channel":"a","stream":"v","gain":2.0}"#;
    command(&mut dev, &mut inbox, "setGain", body).unwrap();
    let msgs = inbox.drain();
    assert_eq!(action(&msgs[0]), "gainChanged");
    assert_eq!(text(at(&msgs[0], &["channel"])), "a");
    assert_eq!(text(at(&msgs[0], &["stream"])), "v");
    assert_eq!(num(at(&msgs[0], &["gain"])), 2.0);

    let e = command(&mut dev, &mut inbox, "setGain", r#"{"channel":"x","stream":"v"}"#);
    assert_eq!(e.unwrap_err().0, "Channel not found");
    let e = command(&mut dev, &mut inbox, "setGain", r#"{"channel":"a","stream":"x"}"#);
    assert_eq!(e.unwrap_err().0, "Stream not found");
}

#[test]
fn current_limit_is_handed_on() {
    let (mut dev, mut inbox) = attached("CL1");
    assert!(command(&mut dev, &mut inbox, "setCurrentLimit", r#"{"currentLimit":399.9}"#).unwrap());
    let e = command(&mut dev, &mut inbox, "setCurrentLimit", "{}").unwrap_err();
    assert_eq!(e.0, "JSON missing float property: currentLimit");
    match &dev.backend {
        Backend::Test(t) => assert_eq!(t.current_limits, vec![399]),
        _ => panic!("no test device"),
    }
}

#[test]
fn unknown_command_unhandled() {
    let mut dev = make_test_device("U1");
    let mut inbox = Inbox::of(1);
    assert!(!command(&mut dev, &mut inbox, "bogus", "{}").unwrap());
}

#[test]
fn detach_removes_listeners() {
    let (mut dev, mut inbox) = attached("D1");
    let body = r#"{"id": 1, "count": 0, "streams": [{"channel":"a","stream":"v"}]}"#;
    command(&mut dev, &mut inbox, "listen", body).unwrap();
    assert_eq!(dev.listeners.len(), 1);
    dev.on_client_detach(1);
    assert!(dev.listeners.is_empty());
    assert!(dev.connections.is_empty());
}

#[test]
fn detaching_one_client_leaves_the_others() {
    let (mut dev, mut inbox) = attached("D2");
    let mut other = Inbox::of(2);
    dev.on_client_attach(2);
    settle(&mut dev, &mut other);
    let body = r#"{"id": 1, "count": 0, "streams": [{"channel":"a","stream":"v"}]}"#;
    command(&mut dev, &mut inbox, "listen", body).unwrap();
    command(&mut dev, &mut other, "listen", body).unwrap();
    assert_eq!(dev.listeners.len(), 2);
    dev.on_client_detach(1);
    assert_eq!(dev.connections, vec![2]);
    assert_eq!(dev.listeners.len(), 1);
    assert!(dev.listeners[0].is_from_client(2));
}

#[test]
fn configure_clears_listeners_and_data() {
    let (mut dev, mut inbox) = attached("C1");
    feed(&mut dev, &mut inbox, &[1.0, 2.0]);
    let body = r#"{"id": 1, "count": 0, "streams": [{"channel":"a","stream":"v"}]}"#;
    command(&mut dev, &mut inbox, "listen", body).unwrap();
    assert_eq!(dev.listeners.len(), 1);
    inbox.drain();

    configure(&mut dev, 0, 1e-4, 50, true);
    settle(&mut dev, &mut inbox);
    assert!(dev.listeners.is_empty());
    assert_eq!(dev.capture_i, 0);
    let msgs = inbox.drain();
    let last = msgs.last().unwrap();
    assert_eq!(action(last), "deviceConfig");
    assert_eq!(num(at(last, &["device", "samples"])), 50.0);
}

#[test]
fn paused_capture_goes_on() {
    let (mut dev, mut inbox) = attached("P1");
    dev.start_capture();
    feed(&mut dev, &mut inbox, &[1.0, 2.0]);
    dev.pause_capture();
    dev.pause_capture();
    dev.start_capture();
    assert!(dev.capture_state);
    assert_eq!(dev.capture_i, 2);
    assert_eq!(value(dev.get(0, 0, 1)), 2.0);
    match &dev.backend {
        Backend::Test(t) => assert_eq!((t.starts, t.pauses, t.resets), (2, 1, 0)),
        _ => panic!("no test device"),
    }
}

#[test]
fn disconnection_is_told_and_ends_listeners() {
    let (mut dev, mut inbox) = attached("DC1");
    let body = r#"{"id": 1, "count": 0, "streams": [{"channel":"a","stream":"v"}]}"#;
    command(&mut dev, &mut inbox, "listen", body).unwrap();
    dev.on_disconnect();
    settle(&mut dev, &mut inbox);
    assert_eq!(action(&inbox.drain()[0]), "deviceDisconnected");
    assert!(dev.listeners.is_empty());
}

#[test]
fn test_device_starts_with_its_configuration() {
    let dev = make_test_device("TD1");
    assert_eq!(wide(dev.sample_time), 1e-4);
    assert_eq!(wide(dev.min_sample_time), 1e-5);
    assert_eq!(value(dev.capture_length), 1000u32 as f32 * 1e-4f64 as f32);
    assert_eq!(value(dev.channels[0].streams[0].uncertainty), 5.0 / 65536.0);
    assert_eq!(value(dev.channels[0].streams[1].uncertainty), 0.4 / 65536.0 * 1000.0);
    assert_eq!(value(dev.channels[1].streams[1].min), -200.0);
    assert_eq!(value(dev.channels[1].streams[1].max), 200.0);
    assert_eq!(wide(test_sample_time(double(1e-6))), 1e-5);
    assert_eq!(wide(test_sample_time(double(2e-5))), 2e-5);
}

// ---- listeners ----

#[test]
fn listen_streams_decimated_means() {
    let (mut dev, mut inbox) = attached("L1");
    let body = r#"{"id": 1, "decimateFactor": 2, "start": 0, "count": 0,
                   "streams": [{"channel":"a","stream":"v"}]}"#;
    command(&mut dev, &mut inbox, "listen", body).unwrap();
    feed(&mut dev, &mut inbox, &[1.0, 3.0, 5.0, 7.0, 9.0]);
    let ups = inbox.updates();
    assert_eq!(ups.len(), 1);
    assert_eq!(num(at(&ups[0], &["id"])), 1.0);
    assert_eq!(num(at(&ups[0], &["idx"])), 0.0);
    assert_eq!(num(at(&ups[0], &["sampleIndex"])), 0.0);
    assert_eq!(rows(at(&ups[0], &["data"])), vec![vec![2.0, 6.0]]);
}

#[test]
fn count_limited_listener_sends_done_and_is_removed() {
    let (mut dev, mut inbox) = attached("L2");
    let body = r#"{"id": 7, "decimateFactor": 1, "start": 0, "count": 3,
                   "streams": [{"channel":"a","stream":"v"}]}"#;
    command(&mut dev, &mut inbox, "listen", body).unwrap();
    assert_eq!(dev.listeners.len(), 1);

    feed(&mut dev, &mut inbox, &[1.0, 2.0, 3.0, 4.0, 5.0]);
    let ups = inbox.updates();
    assert_eq!(ups.len(), 1);
    assert_eq!(rows(at(&ups[0], &["data"])), vec![vec![1.0, 2.0, 3.0]]);
    assert!(truth(at(&ups[0], &["done"])));
    assert!(dev.listeners.is_empty());
}

#[test]
fn negative_start_is_relative_to_latest() {
    let mut dev = make_test_device("L3");
    configure(&mut dev, 0, 1e-4, 100, true);
    let mut inbox = Inbox::of(1);
    feed(&mut dev, &mut inbox, &[10.0, 20.0, 30.0, 40.0]);
    dev.on_client_attach(1);
    settle(&mut dev, &mut inbox);
    inbox.drain();

    let body = r#"{"id": 1, "start": -1, "count": 0, "streams": [{"channel":"a","stream":"v"}]}"#;
    command(&mut dev, &mut inbox, "listen", body).unwrap();
    assert_eq!(dev.listeners[0].index, 4);

    feed(&mut dev, &mut inbox, &[50.0, 60.0]);
    let ups = inbox.updates();
    assert_eq!(ups.len(), 1);
    assert_eq!(num(at(&ups[0], &["sampleIndex"])), 4.0);
    assert_eq!(rows(at(&ups[0], &["data"])), vec![vec![50.0, 60.0]]);
}

#[test]
fn replacing_listener_with_same_id() {
    let (mut dev, mut inbox) = attached("L4");
    for _ in 0..2 {
        let body =
            r#"{"id": 1, "start": 0, "count": 0, "streams": [{"channel":"a","stream":"v"}]}"#;
        command(&mut dev, &mut inbox, "listen", body).unwrap();
    }
    assert_eq!(dev.listeners.len(), 1);
    command(&mut dev, &mut inbox, "cancelListen", r#"{"id": 1}"#).unwrap();
    assert!(dev.listeners.is_empty());
}

#[test]
fn binary_frame_layout_byte_exact() {
    let (mut dev, mut inbox) = attached("B1");
    let body = r#"{"id": 5, "decimateFactor": 2, "start": 0, "count": 0, "binary": true,
                   "streams": [{"channel":"a","stream":"v"}, {"channel":"a","stream":"i"}]}"#;
    command(&mut dev, &mut inbox, "listen", body).unwrap();
    feed(&mut dev, &mut inbox, &[1.0, 3.0, 5.0, 7.0, 9.0]);
    assert_eq!(inbox.frames.len(), 1);
    let b = &inbox.frames[0];
    assert_eq!(b.len(), 24 + 2 * 2 * 4);
    assert_eq!(b[0], 1);
    assert_eq!(b[1], 0);
    assert_eq!(u16::from_le_bytes([b[2], b[3]]), 2);
    assert_eq!(u32::from_le_bytes([b[4], b[5], b[6], b[7]]), 5);
    assert_eq!(u32::from_le_bytes([b[8], b[9], b[10], b[11]]), 0);
    assert_eq!(u32::from_le_bytes([b[12], b[13], b[14], b[15]]), 0);
    assert_eq!(f32::from_le_bytes([b[16], b[17], b[18], b[19]]), 0.0);
    assert_eq!(u32::from_le_bytes([b[20], b[21], b[22], b[23]]), 2);
    let f = |o: usize| f32::from_le_bytes([b[o], b[o + 1], b[o + 2], b[o + 3]]);
    assert_eq!(f(24), 2.0);
    assert_eq!(f(28), 6.0);
    assert_eq!(f(32), 0.2);
    assert_eq!(f(36), 0.6);
}

#[test]
fn binary_done_flag() {
    let (mut dev, mut inbox) = attached("B2");
    let body = r#"{"id": 1, "start": 0, "count": 2, "binary": true,
                   "streams": [{"channel":"a","stream":"v"}]}"#;
    command(&mut dev, &mut inbox, "listen", body).unwrap();
    feed(&mut dev, &mut inbox, &[1.0, 2.0, 3.0]);
    assert_eq!(inbox.frames.len(), 1);
    assert_eq!(inbox.frames[0][1] & 1, 1);
    assert!(dev.listeners.is_empty());
}

#[test]
fn updates_follow_each_other() {
    let (mut dev, mut inbox) = attached("L5");
    let body = r#"{"id": 1, "decimateFactor": 3, "start": 0, "count": 0,
                   "streams": [{"channel":"a","stream":"v"}]}"#;
    command(&mut dev, &mut inbox, "listen", body).unwrap();
    let mut idx = 0.0;
    let mut got: Vec<f64> = Vec::new();
    for n in [4u64, 3, 7, 1, 5] {
        feed_ramp(&mut dev, &mut inbox, n);
        for u in inbox.updates() {
            assert_eq!(num(at(&u, &["idx"])), idx);
            let data = rows(at(&u, &["data"]));
            idx += data[0].len() as f64;
            got.extend(&data[0]);
        }
    }
    assert_eq!(got, vec![10.0, 40.0, 70.0, 100.0, 130.0, 160.0]);
}

#[test]
fn lost_samples_are_not_numbers() {
    let mut dev = make_test_device("L6");
    configure(&mut dev, 0, 1e-4, 4, true);
    let mut inbox = Inbox::of(1);
    dev.on_client_attach(1);
    feed_ramp(&mut dev, &mut inbox, 8);
    let body = r#"{"id": 1, "start": 0, "count": 8, "streams": [{"channel":"a","stream":"v"}]}"#;
    command(&mut dev, &mut inbox, "listen", body).unwrap();
    let ups = inbox.updates();
    match &list(&list(at(&ups[0], &["data"]))[0])[0] {
        Json::Number(Number::Single(s)) => assert!(s.is_nan()),
        j => panic!("no number: {j:?}"),
    }
    assert_eq!(num(&list(&list(at(&ups[0], &["data"]))[0])[7]), 70.0);
}

#[test]
fn in_trigger_rising_edge() {
    let (mut dev, mut inbox) = attached("T1");
    let body = r#"{"id": 1, "start": 0, "count": 3,
                   "streams": [{"channel":"a","stream":"v"}],
                   "trigger": {"type": "in", "channel": "a", "stream": "v",
                               "level": 2.5, "repeat": false}}"#;
    command(&mut dev, &mut inbox, "listen", body).unwrap();
    feed(&mut dev, &mut inbox, &[0.0, 1.0, 2.0, 3.0, 4.0, 5.0, 6.0, 7.0]);
    let ups = inbox.updates();
    assert_eq!(ups.len(), 1);
    assert_eq!(num(at(&ups[0], &["sampleIndex"])), 3.0);
    assert_eq!(num(at(&ups[0], &["subsample"])), 0.0);
    assert_eq!(rows(at(&ups[0], &["data"])), vec![vec![3.0, 4.0, 5.0]]);
    assert!(truth(at(&ups[0], &["done"])));
}

#[test]
fn out_trigger_phase_zero_with_subsample() {
    let (mut dev, mut inbox) = attached("T2");
    let n = parse_json(
        r#"{"source": "sine", "mode": 1, "offset": 2.5, "amplitude": 1.0,
            "period": 30.5, "phase": 10.0, "relPhase": false}"#,
    )
    .unwrap();
    set_output(&mut dev, 0, make_source(&n).unwrap());
    settle(&mut dev, &mut inbox);
    inbox.drain();

    let body = r#"{"id": 1, "start": 0, "count": 2,
                   "streams": [{"channel":"a","stream":"v"}],
                   "trigger": {"type": "out", "channel": "a", "repeat": false}}"#;
    command(&mut dev, &mut inbox, "listen", body).unwrap();

    feed(&mut dev, &mut inbox, &[0.0; 10]);
    assert!(inbox.updates().is_empty());

    dev.capture_o = 40;
    feed(&mut dev, &mut inbox, &[1.0; 40]);
    let ups = inbox.updates();
    assert_eq!(ups.len(), 1);
    assert_eq!(num(at(&ups[0], &["sampleIndex"])), 21.0);
    assert_eq!(num(at(&ups[0], &["subsample"])), -0.5);
}

#[test]
fn forced_trigger_reports_trigger_forced() {
    let (mut dev, mut inbox) = attached("T3");
    let body = r#"{"id": 1, "start": 0, "count": 2,
                   "streams": [{"channel":"a","stream":"v"}],
                   "trigger": {"type": "in", "channel": "a", "stream": "v",
                               "level": 100.0, "repeat": false, "force": 4}}"#;
    command(&mut dev, &mut inbox, "listen", body).unwrap();
    feed(&mut dev, &mut inbox, &[1.0; 8]);
    assert!(inbox.updates().is_empty());
    feed(&mut dev, &mut inbox, &[1.0; 4]);
    let ups = inbox.updates();
    assert_eq!(ups.len(), 1);
    assert!(truth(at(&ups[0], &["triggerForced"])));
    assert_eq!(num(at(&ups[0], &["sampleIndex"])), 8.0);
}

#[test]
fn repeating_trigger_rearms_with_holdoff() {
    let mut dev = make_test_device("T4");
    configure(&mut dev, 0, 1e-4, 1000, true);
    let mut inbox = Inbox::of(1);
    dev.on_client_attach(1);
    let body = r#"{"id": 1, "start": 0, "count": 2,
                   "streams": [{"channel":"a","stream":"v"}],
                   "trigger": {"type": "in", "channel": "a", "stream": "v",
                               "level": 2.5, "repeat": true, "holdoff": 0}}"#;
    command(&mut dev, &mut inbox, "listen", body).unwrap();
    feed(&mut dev, &mut inbox, &[0.0, 0.0, 5.0, 5.0, 0.0, 0.0, 5.0, 5.0, 0.0, 0.0]);
    let ups = inbox.updates();
    assert_eq!(ups.len(), 2, "{ups:?}");
    assert_eq!(num(at(&ups[0], &["idx"])), 0.0);
    assert_eq!(num(at(&ups[0], &["sampleIndex"])), 2.0);
    assert_eq!(num(at(&ups[1], &["idx"])), 0.0);
    assert_eq!(num(at(&ups[1], &["sampleIndex"])), 6.0);
    assert_eq!(dev.listeners.len(), 1);
}

#[test]
fn trigger_offset_goes_back() {
    let (mut dev, mut inbox) = attached("T6");
    let body = r#"{"id": 1, "start": 0, "count": 3,
                   "streams": [{"channel":"a","stream":"v"}],
                   "trigger": {"type": "in", "channel": "a", "stream": "v",
                               "level": 2.5, "offset": -2}}"#;
    command(&mut dev, &mut inbox, "listen", body).unwrap();
    assert_eq!(dev.listeners[0].trigger_holdoff, 2);
    feed(&mut dev, &mut inbox, &[0.0, 1.0, 2.0, 3.0, 4.0, 5.0]);
    let ups = inbox.updates();
    assert_eq!(num(at(&ups[0], &["sampleIndex"])), 1.0);
    assert_eq!(rows(at(&ups[0], &["data"])), vec![vec![1.0, 2.0, 3.0]]);
}

#[test]
fn trigger_errors() {
    let mut dev = make_test_device("T5");
    configure(&mut dev, 0, 1e-4, 100, true);
    let mut inbox = Inbox::of(1);
    let streams = r#""id":1,"count":0,"streams":[{"channel":"a","stream":"v"}]"#;
    for (trigger, complaint) in [
        (r#"{"type":"bogus"}"#, "Invalid trigger type"),
        (
            r#"{"type":"in","channel":"a","stream":"v"}"#,
            "JSON missing float property: level",
        ),
        (r#"{"type":"out","channel":"x"}"#, "Trigger channel not found"),
    ] {
        let body = format!("{{{streams},\"trigger\":{trigger}}}");
        let e = command(&mut dev, &mut inbox, "listen", &body).unwrap_err();
        assert_eq!(e.0, complaint);
    }
}

#[test]
fn listen_errors() {
    let (mut dev, mut inbox) = attached("LE1");
    for (body, complaint) in [
        ("{}", "JSON missing int property: id"),
        (r#"{"id":1}"#, "JSON missing int property: count"),
        (r#"{"id":1,"count":0}"#, "JSON missing property: streams"),
        (r#"{"id":1,"count":0,"streams":[{}]}"#, "JSON missing string property: channel"),
        (
            r#"{"id":1,"count":0,"streams":[{"channel":"a"}]}"#,
            "JSON missing string property: stream",
        ),
        (
            r#"{"id":1,"count":0,"streams":[{"channel":"z","stream":"v"}]}"#,
            "Channel not found",
        ),
        (
            r#"{"id":1,"count":0,"streams":[{"channel":"a","stream":"z"}]}"#,
            "Stream not found",
        ),
    ] {
        let e = command(&mut dev, &mut inbox, "listen", body).unwrap_err();
        assert_eq!(e.0, complaint);
    }
    let e = command(&mut dev, &mut inbox, "configure", r#"{"mode":0,"samples":5}"#).unwrap_err();
    assert_eq!(e.0, "JSON missing float property: sampleTime");
}

#[test]
fn capture_reset_rewinds_listeners() {
    let mut dev = make_test_device("R1");
    configure(&mut dev, 0, 1e-4, 10, false);
    let mut inbox = Inbox::of(1);
    dev.on_client_attach(1);
    let body = r#"{"id": 1, "start": 0, "count": 0, "streams": [{"channel":"a","stream":"v"}]}"#;
    command(&mut dev, &mut inbox, "listen", body).unwrap();

    dev.start_capture();
    feed(&mut dev, &mut inbox, &[1.0; 10]);
    assert!(dev.capture_done);
    assert!(dev.listeners[0].index > 0);

    dev.start_capture();
    assert_eq!(dev.listeners[0].index, 0);
    assert_eq!(dev.listeners[0].out_index, 0);
}

// ---- the backlog ----

#[test]
fn binary_backpressure_drops_when_backlogged() {
    let mut client = ClientHandle::new(1);
    let frame = 1024 * 1024;
    let mut queue: Vec<usize> = Vec::new();
    for _ in 0..9 {
        if client.send_binary(frame) {
            queue.push(frame);
        }
    }
    assert_eq!(queue.len(), 8);
    assert!(client.dropping);
    for len in queue.drain(..) {
        client.received(len);
    }
    assert_eq!(client.queued_binary, 0);
    assert!(client.send_binary(frame));
    assert!(!client.dropping);
}

// ---- the server ----

fn state_with_device(serial: &str) -> ServerState {
    let mut state = ServerState::new(false, false, "v1");
    state.add_device(AnyDevice::Streaming(make_test_device(serial)));
    state
}

fn device(state: &mut ServerState, key: u64) -> &mut StreamingDevice {
    let i = state.find(key).unwrap();
    match &mut state.devices[i].dev {
        AnyDevice::Streaming(d) => d,
        AnyDevice::Bootloader(_) => panic!("no streaming device"),
    }
}

fn field(t: &Option<String>) -> Field {
    match t {
        None => Field::Absent,
        Some(s) => match s.parse::<f64>() {
            Ok(v) => Field::Value(double(v)),
            Err(_) => Field::Fault,
        },
    }
}

fn source_of_form(time: f64, plan: &FormPlan) -> Result<OutputSource, Error> {
    let mut values: Vec<Option<Double>> = Vec::new();
    for n in &plan.numbers {
        values.push(match &n.text {
            None => Some(n.default),
            Some(s) => s.parse::<f64>().ok().map(double),
        });
    }
    let n = form_operands(plan, &values)?;
    let v = |i: usize| n.get(i).map(|d| wide(*d)).unwrap_or(0.0);
    let (mut high, mut low, mut phase) = (0, 0, 0);
    if n.len() == 6 {
        high = (v(3) / time) as i64;
        low = (v(4) / time) as i64;
        phase = (v(5) / time) as i64;
    } else if n.len() == 3 {
        phase = (v(1) / time) as i64;
    }
    let mut points = Vec::new();
    if let Some(p) = &plan.points {
        for (t, x) in p {
            let t = t.parse::<f64>().ok().map(|t| (t / time).round() as i64);
            points.push((t, x.parse::<f32>().ok().map(single)));
        }
    }
    let times = FormTimes {
        high,
        low,
        phase,
        offset: double(v(0) as f32 as f64),
        period: double(1.0 / time / v(2)),
        wave_phase: double(v(3) / time),
        points,
    };
    form_source(plan, &n, &times)
}

fn rest(
    state: &mut ServerState,
    inbox: &mut Inbox,
    method: &str,
    target: &str,
    body: &str,
) -> RestResponse {
    let req = RestRequest::new(method, target, body);
    let (key, step) = handle_json_request(state, &req);
    let key = match key {
        Some(key) => key,
        None => match step {
            RestStep::Respond(r) => return r,
            s => panic!("no device for {s:?}"),
        },
    };
    let dev = device(state, key);
    let put = |dev: &mut StreamingDevice, chan: usize, made: Result<OutputSource, Error>| {
        match made {
            Ok(source) => {
                let reply = reply_to(dev.phase_request(chan, &source));
                dev.rest_output_post(chan, source, reply)
            }
            Err(e) => RestResponse::error(&e),
        }
    };
    let r = match step {
        RestStep::Respond(r) => r,
        RestStep::Configure { samples, sample_time, current_limit } => {
            match dev.rest_configure(field(&samples), field(&sample_time), field(&current_limit)) {
                Ok(c) => dev.rest_configuration_post(c, timing_of(&c)),
                Err(e) => RestResponse::error(&e),
            }
        }
        RestStep::Output { chan, source } => put(dev, chan, Ok(source)),
        RestStep::Form { chan, plan } => {
            let made = source_of_form(wide(dev.sample_time), &plan);
            put(dev, chan, made)
        }
        RestStep::Gains { chan, texts } => {
            let mut wishes = Vec::new();
            for (s, t) in texts.iter().enumerate() {
                let gain = field(t);
                let internal = match gain {
                    Field::Value(d) => internal_gain(dev, chan, s, wide(d)),
                    _ => 0,
                };
                wishes.push(GainField { gain, internal });
            }
            dev.rest_input_post(chan, &wishes)
        }
        RestStep::Input { chan, resample } => {
            let time = wide(dev.sample_time);
            let decimate = resample.parse::<f64>().ok().map(|s| (s / time).round() as i64);
            let (r, heading) = dev.rest_input(chan, &req, decimate, 1);
            if let Some(h) = heading {
                inbox.chunks.push(h);
            }
            if r.status == 200 {
                let last = dev.listeners.len() - 1;
                poll(dev, inbox, last);
            }
            r
        }
        RestStep::Ask(a) => panic!("no hardware to ask: {a:?}"),
    };
    settle(device(state, key), inbox);
    r
}

fn get(state: &mut ServerState, target: &str) -> RestResponse {
    rest(state, &mut Inbox::of(0), "GET", target, "")
}

fn post(state: &mut ServerState, target: &str, body: &str) -> RestResponse {
    rest(state, &mut Inbox::of(0), "POST", target, body)
}

fn body_string(r: &RestResponse) -> &str {
    match &r.body {
        RestBody::Full(s) => s,
        b => panic!("no text: {b:?}"),
    }
}

fn json_body(r: &RestResponse) -> &Json {
    match &r.body {
        RestBody::Document(j) => j,
        b => panic!("no document: {b:?}"),
    }
}

#[test]
fn routing_basics() {
    let mut state = state_with_device("R1");

    let r = get(&mut state, "/rest");
    assert_eq!(r.status, 404);
    assert_eq!(body_string(&r), "No API version selected.");

    let r = get(&mut state, "/rest/v9/devices");
    assert_eq!(r.status, 404);
    assert_eq!(body_string(&r), "API version not supported");

    let r = get(&mut state, "/rest/v1/");
    assert_eq!(r.status, 200);
    let j = json_body(&r);
    assert_eq!(text(at(j, &["server"])), "Nonolith Connect");
    assert_eq!(text(at(j, &["version"])), "1.3");

    let r = get(&mut state, "/rest/v1/devices");
    let j = json_body(&r);
    assert!(matches!(j, Json::Object(_)));
    assert!(text(at(j, &["com.nonolithlabs.test~R1", "serial"])) == "R1");

    let r = get(&mut state, "/rest/v1/devices/unknown~X");
    assert_eq!(r.status, 404);
    assert_eq!(body_string(&r), "REST object not found");
}

#[test]
fn device_id_wildcard_matches_model() {
    let mut state = state_with_device("W1");
    let r = get(&mut state, "/rest/v1/devices/com.nonolithlabs.test*");
    assert_eq!(r.status, 200);
    assert_eq!(text(at(json_body(&r), &["serial"])), "W1");
}

#[test]
fn device_state_and_channel() {
    let mut state = state_with_device("S1");
    let r = get(&mut state, "/rest/v1/devices/com.nonolithlabs.test~S1");
    let j = json_body(&r);
    assert_eq!(text(at(j, &["id"])), "com.nonolithlabs.test~S1");
    assert!(!truth(at(j, &["captureState"])));
    assert_eq!(text(at(j, &["channels", "a", "streams", "i", "units"])), "mA");

    let r = get(&mut state, "/rest/v1/devices/com.nonolithlabs.test~S1/a");
    let j = json_body(&r);
    assert_eq!(text(at(j, &["id"])), "a");
    assert_eq!(text(at(j, &["output", "source"])), "constant");

    let r = get(&mut state, "/rest/v1/devices/com.nonolithlabs.test~S1/x");
    assert_eq!(r.status, 404);
}

#[test]
fn capture_post() {
    let mut state = state_with_device("C1");
    let target = "/rest/v1/devices/com.nonolithlabs.test~C1";
    let r = post(&mut state, target, "capture=on");
    assert!(truth(at(json_body(&r), &["captureState"])));
    let r = post(&mut state, target, "{\"capture\": false}");
    assert!(truth(at(json_body(&r), &["captureState"])));
    let r = post(&mut state, target, "capture=maybe");
    assert!(truth(at(json_body(&r), &["captureState"])));
    let r = post(&mut state, target, "capture=off");
    assert!(!truth(at(json_body(&r), &["captureState"])));
}

#[test]
fn configuration_clamps_sample_time() {
    let mut state = state_with_device("CF1");
    let target = "/rest/v1/devices/com.nonolithlabs.test~CF1/configuration";
    let r = get(&mut state, target);
    assert_eq!(r.status, 200);
    assert!(json_body(&r).get("captureState").is_none());

    let r = post(&mut state, target, "sampleTime=0.5&samples=100");
    let j = json_body(&r);
    assert_eq!(num(at(j, &["sampleTime"])), 0.001);
    assert_eq!(num(at(j, &["samples"])), 100.0);

    let r = post(&mut state, target, "sampleTime=-1");
    assert_eq!(num(at(json_body(&r), &["sampleTime"])), 0.001);
    assert_eq!(num(at(json_body(&r), &["samples"])), 100.0);
}

#[test]
fn configuration_errors() {
    let mut state = state_with_device("CF2");
    let target = "/rest/v1/devices/com.nonolithlabs.test~CF2/configuration";
    for (body, complaint) in [
        ("samples=x&sampleTime=x", "Invalid number for parameter samples"),
        ("sampleTime=x&currentLimit=x", "Invalid number for parameter sampleTime"),
        ("samples=5&currentLimit=", "Invalid number for parameter currentLimit"),
    ] {
        let r = post(&mut state, target, body);
        assert_eq!(r.status, 402);
        assert_eq!(text(at(json_body(&r), &["error"])), complaint);
    }
    let r = post(&mut state, target, "{\"samples\": 5}");
    assert_eq!(num(at(json_body(&r), &["samples"])), 1000.0);
}

#[test]
fn output_form_post() {
    let mut state = state_with_device("O1");
    let base = "/rest/v1/devices/com.nonolithlabs.test~O1/a/output";

    let r = post(&mut state, base, "mode=svmi&value=2.5");
    let j = json_body(&r);
    assert_eq!(num(at(j, &["mode"])), 1.0);
    assert_eq!(text(at(j, &["source"])), "constant");
    assert_eq!(num(at(j, &["value"])), 2.5);
    assert!(!truth(at(j, &["effective"])));

    let r = post(&mut state, base, "mode=v&wave=sine&value=2.5&amplitude=1&frequency=10");
    let j = json_body(&r);
    assert_eq!(text(at(j, &["source"])), "sine");
    assert_eq!(num(at(j, &["period"])), 1000.0);

    let r = post(&mut state, base, "mode=SIMV&value=1");
    assert_eq!(num(at(json_body(&r), &["mode"])), 2.0);
    let r = post(&mut state, base, "mode=zzz&value=1");
    assert_eq!(num(at(json_body(&r), &["mode"])), 0.0);

    let r = post(&mut state, base, r#"{"source":"constant","mode":1,"value":1.25}"#);
    assert_eq!(num(at(json_body(&r), &["value"])), 1.25);

    let r = post(&mut state, base, "wave=bogus");
    assert_eq!(r.status, 402);
    assert_eq!(text(at(json_body(&r), &["error"])), "Invalid source");

    let r = get(&mut state, base);
    assert_eq!(num(at(json_body(&r), &["value"])), 1.25);
}

#[test]
fn output_square_form() {
    let mut state = state_with_device("O3");
    let base = "/rest/v1/devices/com.nonolithlabs.test~O3/b/output";
    let body = "mode=1&wave=adv_square&value1=3&value2=1&time1=0.001&time2=-1&hint=h";
    let r = post(&mut state, base, body);
    let j = json_body(&r);
    assert_eq!(text(at(j, &["source"])), "adv_square");
    assert_eq!(num(at(j, &["high"])), 3.0);
    assert_eq!(num(at(j, &["low"])), 1.0);
    assert_eq!(num(at(j, &["highSamples"])), 10.0);
    assert_eq!(num(at(j, &["lowSamples"])), 1.0);
    assert_eq!(text(at(j, &["hint"])), "h");
    let r = post(&mut state, base, "wave=adv_square&time1=abc");
    assert_eq!(text(at(json_body(&r), &["error"])), "Invalid number for parameter time1");
    let r = post(&mut state, base, "{\"source\":");
    assert_eq!(r.status, 402);
    assert!(text(at(json_body(&r), &["error"])).starts_with("JSON parse error: "));
}

#[test]
fn output_arb_points_decoding() {
    let mut state = state_with_device("O2");
    let base = "/rest/v1/devices/com.nonolithlabs.test~O2/a/output";
    let r = post(&mut state, base, "mode=1&wave=arb&points=0%3A0%2C0.001%3A5&repeat=0");
    let j = json_body(&r);
    assert_eq!(text(at(j, &["source"])), "arb");
    let values = list(at(j, &["values"]));
    assert_eq!(num(at(&values[0], &["t"])), 0.0);
    assert_eq!(num(at(&values[1], &["t"])), 10.0);
    assert_eq!(num(at(&values[1], &["v"])), 5.0);

    let r = post(&mut state, base, "wave=arb&points=zzz");
    assert_eq!(r.status, 402);
    assert_eq!(text(at(json_body(&r), &["error"])), "Invalid arbitrary wave point spec");
}

#[test]
fn input_gain_post() {
    let mut state = state_with_device("G1");
    let target = "/rest/v1/devices/com.nonolithlabs.test~G1/a/input";
    let r = post(&mut state, target, "gain_v=2");
    let j = json_body(&r);
    assert_eq!(num(at(j, &["gain", "v"])), 2.0);
    assert_eq!(num(at(j, &["gain", "i"])), 1.0);
    let r = post(&mut state, target, "gain_v=4&gain_i=x");
    assert_eq!(r.status, 402);
    assert_eq!(text(at(json_body(&r), &["error"])), "Invalid number for parameter gain_i");
    let r = post(&mut state, target, "gain_v=0&gain_i=-0");
    assert_eq!(num(at(json_body(&r), &["gain", "v"])), 4.0);
}

#[test]
fn input_csv_stream() {
    let mut state = state_with_device("CSV1");
    let key = state.device_by_id("com.nonolithlabs.test~CSV1").unwrap();
    configure(device(&mut state, key), 0, 1e-4, 100, true);

    let mut inbox = Inbox::of(0);
    let target =
        "/rest/v1/devices/com.nonolithlabs.test~CSV1/a/input?resample=0.0001&start=0&count=3";
    let r = rest(&mut state, &mut inbox, "GET", target, "");
    assert_eq!(r.status, 200);
    assert!(matches!(r.body, RestBody::Stream(1)));
    assert_eq!(inbox.chunks, vec!["Voltage A (V),Current A (mA)\n"]);
    inbox.chunks.clear();

    feed_ramp(device(&mut state, key), &mut inbox, 4);
    assert_eq!(inbox.chunks.concat(), "0, 0\n10, 1\n20, 2\n");
    assert!(device(&mut state, key).listeners.is_empty());
}

#[test]
fn input_csv_bad_params_are_4xx() {
    let mut state = state_with_device("CSV2");
    let base = "/rest/v1/devices/com.nonolithlabs.test~CSV2/a/input";
    let r = get(&mut state, &format!("{base}?count=-1"));
    assert_eq!(r.status, 402);
    let r = get(&mut state, &format!("{base}?resample=zzz"));
    assert_eq!(r.status, 402);
    for (query, complaint) in [
        ("resample=zzz&start=x&count=x", "Invalid resample parameter"),
        ("start=x&count=x", "Invalid start parameter"),
        ("count=99999999999999999999", "Invalid count parameter"),
    ] {
        let r = get(&mut state, &format!("{base}?{query}"));
        assert_eq!(text(at(json_body(&r), &["error"])), complaint);
    }
}

#[test]
fn closed_response_ends_its_listener() {
    let mut state = state_with_device("CSV3");
    let mut inbox = Inbox::of(0);
    let target = "/rest/v1/devices/com.nonolithlabs.test~CSV3/a/input?header=0&count=0";
    let r = rest(&mut state, &mut inbox, "GET", target, "");
    assert_eq!(r.status, 200);
    assert!(inbox.chunks.is_empty());
    let key = state.device_by_id("com.nonolithlabs.test*").unwrap();
    let dev = device(&mut state, key);
    assert_eq!(dev.listeners[0].decimate_factor, 100);
    let p = dev.poll_listener(0, None, true);
    assert!(p.update.is_none());
    assert_eq!(p.next, Next::Remove);
    assert!(dev.listeners.is_empty());
}

#[test]
fn broadcasts_go_to_attached_ws_clients() {
    let mut state = state_with_device("BR1");
    let key = state.device_by_id("com.nonolithlabs.test~BR1").unwrap();
    let mut inbox = Inbox::of(9);
    state.attach(key, 9);
    settle(device(&mut state, key), &mut inbox);
    inbox.drain();
    let target = "/rest/v1/devices/com.nonolithlabs.test~BR1";
    rest(&mut state, &mut inbox, "POST", target, "capture=on");
    let docs = inbox.drain();
    assert!(docs.iter().any(|m| action(m) == "captureState"));
}

#[test]
fn request_body_may_be_any_bytes() {
    let r = RestRequest::from_bytes("POST", "/rest/v1?a=b&c", b"x=\xff&y=\xc3\xa9");
    assert_eq!(r.body, "x=\u{fffd}&y=\u{e9}");
    assert_eq!(r.parts, vec!["", "rest", "v1"]);
    assert_eq!(r.param("a", "z"), "b");
    assert_eq!(r.param("c", "z"), "z");
    assert_eq!(RestRequest::new("GET", "//", "").parts, vec!["", ""]);
}

// ---- connections ----

struct Talk {
    state: ServerState,
    conn: WsConn,
    inbox: Inbox,
}

impl Talk {
    fn open() -> Talk {
        let state = state_with_device("WS1");
        let conn = WsConn::new(1);
        let mut inbox = Inbox::of(1);
        inbox.docs.push(hello(&state.git_version));
        inbox.docs.push(conn.send_device_list(&state));
        Talk { state, conn, inbox }
    }

    fn say(&mut self, msg: &str) -> Vec<Json> {
        match self.conn.on_message(&mut self.state, msg) {
            Reaction::Nothing => {}
            Reaction::Reply(j) => self.inbox.docs.push(j),
            Reaction::Outcome { key, outcome } => {
                let dev = device(&mut self.state, key);
                carry_out(dev, &mut self.inbox, outcome);
            }
        }
        for slot in &mut self.state.devices {
            if let AnyDevice::Streaming(d) = &mut slot.dev {
                settle(d, &mut self.inbox);
            }
        }
        self.inbox.drain()
    }

    fn selected() -> Talk {
        let mut t = Talk::open();
        t.inbox.drain();
        t.say(r#"{"_cmd": "selectDevice", "id": "com.nonolithlabs.test~WS1"}"#);
        t
    }
}

#[test]
fn hello_then_devices_on_connect() {
    let mut t = Talk::open();
    let msgs = t.inbox.drain();
    assert_eq!(action(&msgs[0]), "serverHello");
    assert_eq!(text(at(&msgs[0], &["server"])), "Nonolith Connect");
    assert_eq!(text(at(&msgs[0], &["version"])), "1.3");
    assert_eq!(text(at(&msgs[0], &["gitVersion"])), "v1");
    assert_eq!(action(&msgs[1]), "devices");
    let entry = at(&msgs[1], &["devices", "com.nonolithlabs.test~WS1"]);
    assert!(matches!(entry, Json::Object(_)));
}

#[test]
fn parse_error_yields_error_action() {
    let mut t = Talk::open();
    t.inbox.drain();
    let msgs = t.say("this is not json");
    assert_eq!(msgs.len(), 1);
    assert_eq!(action(&msgs[0]), "error");
    assert!(msgs[0].get("id").is_none());
    assert!(text(at(&msgs[0], &["error"])).starts_with("JSON parse error: "));
}

#[test]
fn missing_cmd_yields_error() {
    let mut t = Talk::open();
    t.inbox.drain();
    let msgs = t.say(r#"{"foo": 1}"#);
    assert_eq!(action(&msgs[0]), "error");
    assert_eq!(text(at(&msgs[0], &["error"])), "JSON missing string property: _cmd");
}

#[test]
fn commands_before_select_are_dropped_silently() {
    let mut t = Talk::open();
    t.inbox.drain();
    assert!(t.say(r#"{"_cmd": "startCapture"}"#).is_empty());
}

#[test]
fn select_unknown_device_is_silent_and_connection_survives() {
    let mut t = Talk::open();
    t.inbox.drain();
    assert!(t.say(r#"{"_cmd": "selectDevice", "id": "nope~X"}"#).is_empty());
    assert!(t.say(r#"{"_cmd": "selectDevice", "id": ""}"#).is_empty());
    assert_eq!(action(&t.say("still not json")[0]), "error");
}

#[test]
fn select_device_sends_device_config() {
    let mut t = Talk::open();
    t.inbox.drain();
    let msgs = t.say(r#"{"_cmd": "selectDevice", "id": "com.nonolithlabs.test~WS1"}"#);
    assert_eq!(msgs.len(), 1);
    assert_eq!(action(&msgs[0]), "deviceConfig");
    assert_eq!(text(at(&msgs[0], &["device", "id"])), "com.nonolithlabs.test~WS1");
}

#[test]
fn command_errors_carry_id() {
    let mut t = Talk::selected();
    let msgs = t.say(r#"{"_cmd": "set", "id": 42, "channel": "zz"}"#);
    assert_eq!(action(&msgs[0]), "error");
    assert_eq!(text(at(&msgs[0], &["error"])), "Channel not found");
    assert_eq!(num(at(&msgs[0], &["id"])), 42.0);
}

#[test]
fn unknown_command_gets_no_reply() {
    let mut t = Talk::selected();
    assert!(t.say(r#"{"_cmd": "frobnicate", "id": 7}"#).is_empty());
}

#[test]
fn full_set_flow_broadcasts_output_changed() {
    let mut t = Talk::selected();
    let msgs = t.say(
        r#"{"_cmd": "set", "channel": "a", "mode": 1, "source": "constant", "value": 2.5}"#,
    );
    assert_eq!(action(&msgs[0]), "outputChanged");
    assert_eq!(text(at(&msgs[0], &["channel"])), "a");
    assert_eq!(num(at(&msgs[0], &["value"])), 2.5);
    assert!(!truth(at(&msgs[0], &["effective"])));
    assert_eq!(num(at(&msgs[0], &["startSample"])), 0.0);
}

#[test]
fn detach_on_close() {
    let mut t = Talk::selected();
    let key = t.state.device_by_id("com.nonolithlabs.test~WS1").unwrap();
    assert_eq!(device(&mut t.state, key).connections.len(), 1);
    t.conn.on_close(&mut t.state);
    assert!(device(&mut t.state, key).connections.is_empty());
    assert!(t.conn.device.is_none());
}

#[test]
fn removed_device_stays_for_its_clients_only() {
    let mut t = Talk::selected();
    let key = t.state.device_by_id("com.nonolithlabs.test~WS1").unwrap();
    t.state.remove_device(key);
    assert!(t.state.device_by_id("com.nonolithlabs.test~WS1").is_none());
    assert!(matches!(t.state.devices_json(), Json::Object(m) if m.is_empty()));
    let msgs = t.say(r#"{"_cmd": "startCapture"}"#);
    assert_eq!(action(&msgs[0]), "deviceDisconnected");
    assert_eq!(action(&msgs[1]), "captureState");
    t.conn.on_close(&mut t.state);
    assert!(t.state.devices.is_empty());
}

#[test]
fn shutdown_pauses_every_capture() {
    let mut t = Talk::selected();
    let key = t.state.device_by_id("com.nonolithlabs.test*").unwrap();
    t.say(r#"{"_cmd": "startCapture"}"#);
    assert!(device(&mut t.state, key).capture_state);
    t.state.shutdown();
    assert!(!device(&mut t.state, key).capture_state);
    settle(device(&mut t.state, key), &mut t.inbox);
    let msgs = t.inbox.drain();
    assert_eq!(action(&msgs[0]), "captureState");
    assert!(!truth(at(&msgs[0], &["state"])));
}

#[test]
fn selecting_another_device_lets_go_of_the_first() {
    let mut t = Talk::selected();
    let first = t.state.device_by_id("com.nonolithlabs.test~WS1").unwrap();
    let second = t.state.add_device(AnyDevice::Streaming(make_test_device("WS2")));
    assert_ne!(first, second);
    t.say(r#"{"_cmd": "selectDevice", "id": "com.nonolithlabs.test~WS2"}"#);
    assert!(device(&mut t.state, first).connections.is_empty());
    assert_eq!(device(&mut t.state, second).connections, vec![1]);
    assert_eq!(t.state.device_by_id("com.nonolithlabs.test*"), Some(first));
    assert!(t.state.device_by_id("").is_none());
}

#[test]
fn fmt_g_matches_cxx_ostream() {
    assert_eq!(fmt_g(0.0), "0");
    assert_eq!(fmt_g(1.0), "1");
    assert_eq!(fmt_g(10.0), "10");
    assert_eq!(fmt_g(20.0), "20");
    assert_eq!(fmt_g(2.5), "2.5");
    assert_eq!(fmt_g(-2.5), "-2.5");
    assert_eq!(fmt_g(0.5), "0.5");
    assert_eq!(fmt_g(2.34567), "2.34567");
    assert_eq!(fmt_g(123456.0), "123456");
    assert_eq!(fmt_g(1234567.0), "1.23457e+06");
    assert_eq!(fmt_g(1e6), "1e+06");
    assert_eq!(fmt_g(0.0001), "0.0001");
    assert_eq!(fmt_g(0.00001), "1e-05");
    assert_eq!(fmt_g(f32::NAN), "nan");
    assert_eq!(fmt_g(0.1), "0.1");
    assert_eq!(fmt_g(1.5), "1.5");
    assert_eq!(fmt_g(f32::INFINITY), "inf");
    assert_eq!(fmt_g(f32::NEG_INFINITY), "-inf");
    assert_eq!(fmt_g(-0.0), "-0");
    assert_eq!(fmt_g(3.0e38), "3e+38");
}

#[test]
fn listener_without_reader_is_dropped() {
    let (mut dev, mut inbox) = attached("L5");
    for id in 1..3 {
        let body = format!(
            r#"{{"id": {id}, "start": 0, "count": 0, "streams": [{{"channel":"a","stream":"v"}}]}}"#
        );
        command(&mut dev, &mut inbox, "listen", &body).unwrap();
    }
    assert_eq!(dev.listeners.len(), 2);
    assert_eq!(dev.after_poll(0, Next::Keep, true), 1);
    assert_eq!(dev.after_poll(1, Next::Again, true), 1);
    assert_eq!(dev.after_poll(1, Next::Remove, true), 1);
    assert_eq!(dev.listeners.len(), 2);
    assert_eq!(dev.after_poll(0, Next::Keep, false), 0);
    assert_eq!(dev.listeners.len(), 1);
    assert_eq!(dev.listeners[0].id, 2);
}
