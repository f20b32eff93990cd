//! The REST interface.

use crate::command::request_views;
use crate::config::{ConfigRequest, Timing};
use crate::device::{AnyDevice, AnyView, ServerState, ServerView};
use crate::effect::{
    ask, asked, effects, hand_over, reply_views, written, ControlReply, ControlRequest,
    ControlView, Effect, EffectView,
};
use crate::float::Double;
use crate::form::{
    form_plan, map_get_num, number_fault, opt_text, plan_of, MILLI_BITS, FormPlan, PlanView,
};
use crate::jsonutil::{
    bool_at, json_bool_prop_def, members, parse_json, parsed, put, put_bool, put_number, put_text,
    set_member, with_member, Error, Json, JsonTree, Number,
};
use crate::listener::{make_rest_listener, rest_listener};
use crate::source::{
    count_of, described, make_source, modulo, source_from, to_count, OutputSource, PhaseReply,
    SourceView,
};
use crate::state::{text, truth};
use crate::streaming::{
    channel_wf, has_stream, Backend, BackendView, DeviceView, Stream, StreamView, StreamingDevice,
};
use crate::text::{
    characters, halves, integer, joined, lossy, parse_integer, pieces, plain, same, split,
    split_once, text_of_bytes, texts,
};
use crate::usb::m1k::{
    alert_bit, alert_bit_of, calibration_from, channel_index, channel_named, led_json, lights,
    lights_tree, lights_with, number_members, power_question, put_calibration, read_calibration,
    sends, serial_fits, serial_request, temperature_questions, temperature_requests, CalView,
    FrontendChange, M1kBackend, M1kCal, M1kView,
};
use crate::usb::{
    pins_json, pins_tree, power_json, power_tree, reply_at, signed, temperature_json,
    temperature_tree,
};
use crate::ws::{greeting, put_greeting};
use vstd::prelude::*;
use vstd::string::*;
use vstd::utf8::encode_utf8;

verus! {

// ---- queries ----

/// The fields of a query or of a form.
#[derive(Debug)]
pub struct Params {
    /// Names and values, in order. Of the values of a name the last one counts.
    pub pairs: Vec<(String, String)>,
}

/// The value of each name.
pub open spec fn pair_map(v: Seq<(String, String)>) -> Map<Seq<char>, Seq<char>>
    decreases v.len(),
{
    if v.len() == 0 {
        Map::empty()
    } else {
        pair_map(v.drop_last()).insert(v.last().0@, v.last().1@)
    }
}

impl View for Params {
    type V = Map<Seq<char>, Seq<char>>;

    open spec fn view(&self) -> Map<Seq<char>, Seq<char>> {
        pair_map(self.pairs@)
    }
}

/// The fields that the pieces of a query make up: what stands before the first
/// `=` of a piece is the name of a field, and what follows its value. Pieces
/// without `=` do not count.
pub open spec fn fields_of(p: Seq<Seq<char>>) -> Map<Seq<char>, Seq<char>>
    decreases p.len(),
{
    if p.len() == 0 {
        Map::empty()
    } else {
        match halves(p.last(), '=') {
            Some((k, v)) => fields_of(p.drop_last()).insert(k, v),
            None => fields_of(p.drop_last()),
        }
    }
}

/// The fields of a query. Nothing in it is decoded.
pub open spec fn fields(query: Seq<char>) -> Map<Seq<char>, Seq<char>> {
    fields_of(pieces(query, '&'))
}

/// The value of a field, if there is one.
pub open spec fn field_at(m: Map<Seq<char>, Seq<char>>, key: Seq<char>) -> Option<Seq<char>> {
    if m.contains_key(key) {
        Some(m[key])
    } else {
        None
    }
}

proof fn lemma_last_pair(v: Seq<(String, String)>, key: Seq<char>, i: int)
    requires
        0 <= i <= v.len(),
        forall|j: int| i <= j < v.len() ==> (#[trigger] v[j]).0@ != key,
    ensures
        i == 0 ==> !pair_map(v).contains_key(key),
        i > 0 && v[i - 1].0@ == key ==> pair_map(v).contains_key(key) && pair_map(v)[key] == v[i
            - 1].1@,
    decreases v.len(),
{
    if v.len() > i {
        assert(v[v.len() - 1].0@ != key);
        lemma_last_pair(v.drop_last(), key, i);
    }
}

impl Params {
    /// The value of a field.
    pub fn get(&self, key: &str) -> (r: Option<&String>)
        ensures
            match r {
                Some(v) => field_at(self@, key@) == Some(v@),
                None => field_at(self@, key@) is None,
            },
    {
        let mut i: usize = self.pairs.len();
        while i > 0
            invariant
                i <= self.pairs.len(),
                forall|j: int| i <= j < self.pairs.len() ==> (#[trigger] self.pairs@[j]).0@ != key@,
            decreases i,
        {
            if same(self.pairs[i - 1].0.as_str(), key) {
                proof {
                    lemma_last_pair(self.pairs@, key@, i as int);
                }
                return Some(&self.pairs[i - 1].1);
            }
            i -= 1;
        }
        proof {
            lemma_last_pair(self.pairs@, key@, 0);
        }
        None
    }
}

/// Reads a query or a form.
pub fn parse_query(query: &str) -> (r: Params)
    ensures
        r@ == fields(query@),
{
    let parts = split(query, '&');
    let mut pairs: Vec<(String, String)> = Vec::new();
    let mut i: usize = 0;
    assert(texts(parts@).take(0) =~= Seq::empty());
    while i < parts.len()
        invariant
            i <= parts.len(),
            texts(parts@) == pieces(query@, '&'),
            pair_map(pairs@) == fields_of(texts(parts@).take(i as int)),
        decreases parts.len() - i,
    {
        assert(texts(parts@).take(i + 1).drop_last() =~= texts(parts@).take(i as int));
        assert(texts(parts@).take(i + 1).last() == parts@[i as int]@);
        if let Some((k, v)) = split_once(parts[i].as_str(), '=') {
            let ghost before = pairs@;
            pairs.push((k, v));
            assert(pairs@.drop_last() =~= before);
        }
        i += 1;
    }
    assert(texts(parts@).take(i as int) =~= texts(parts@));
    Params { pairs }
}

// ---- requests ----

#[derive(Debug)]
pub struct RestRequest {
    pub method: String,
    /// The parts of the path. The first one of an absolute path is empty.
    pub parts: Vec<String>,
    pub params: Params,
    pub body: String,
}

#[verifier::ext_equal]
pub ghost struct RequestView {
    pub method: Seq<char>,
    pub parts: Seq<Seq<char>>,
    pub params: Map<Seq<char>, Seq<char>>,
    pub body: Seq<char>,
}

impl View for RestRequest {
    type V = RequestView;

    open spec fn view(&self) -> RequestView {
        RequestView {
            method: self.method@,
            parts: texts(self.parts@),
            params: self.params@,
            body: self.body@,
        }
    }
}

impl RequestView {
    /// The part of the path at `level`.
    pub open spec fn at(self, level: int) -> Seq<char> {
        if 0 <= level < self.parts.len() {
            self.parts[level]
        } else {
            Seq::empty()
        }
    }

    /// Whether the path ends above `level`.
    pub open spec fn leaf(self, level: int) -> bool {
        self.parts.len() <= level
    }

    pub open spec fn post(self) -> bool {
        self.method == "POST"@
    }
}

/// The path and the query of a request target.
pub open spec fn path_and_query(target: Seq<char>) -> (Seq<char>, Seq<char>) {
    match halves(target, '?') {
        Some(h) => h,
        None => (target, Seq::empty()),
    }
}

/// The parts of a path, without an empty one at the end.
pub open spec fn path_parts(path: Seq<char>) -> Seq<Seq<char>> {
    let p = pieces(path, '/');
    if p.last().len() == 0 {
        p.drop_last()
    } else {
        p
    }
}

/// A request. Nothing in it is decoded.
pub open spec fn request_of(method: Seq<char>, target: Seq<char>, body: Seq<char>) -> RequestView {
    let (path, query) = path_and_query(target);
    RequestView { method, parts: path_parts(path), params: fields(query), body }
}

impl RestRequest {
    pub fn new(method: &str, target: &str, body: &str) -> (r: RestRequest)
        ensures
            r@ == request_of(method@, target@, body@),
    {
        let (path, query) = match split_once(target, '?') {
            Some((p, q)) => (p, q),
            None => (target.to_owned(), String::new()),
        };
        assert((path@, query@) == path_and_query(target@));
        let mut parts = split(path.as_str(), '/');
        let ghost all = parts@;
        if parts[parts.len() - 1].as_str().is_empty() {
            parts.pop();
            assert(texts(parts@) =~= texts(all).drop_last());
        }
        RestRequest {
            method: method.to_owned(),
            parts,
            params: parse_query(query.as_str()),
            body: body.to_owned(),
        }
    }

    /// A request whose body came as bytes.
    pub fn from_bytes(method: &str, target: &str, body: &[u8]) -> (r: RestRequest)
        ensures
            r@ == request_of(method@, target@, lossy(body@)),
            forall|t: Seq<char>| #[trigger]
                encode_utf8(t) == body@ ==> r@ == request_of(method@, target@, t),
            plain(body@) ==> r@ == request_of(method@, target@, characters(body@)),
    {
        RestRequest::new(method, target, text_of_bytes(body).as_str())
    }

    /// The value of a field of the query.
    pub fn param(&self, key: &str, def: &str) -> (r: String)
        ensures
            r@ == field_at(self.params@, key@).unwrap_or(def@),
    {
        match self.params.get(key) {
            Some(v) => v.clone(),
            None => def.to_owned(),
        }
    }

    /// The part of the path at `level`.
    pub fn part(&self, level: usize) -> (r: &str)
        ensures
            r@ == self@.at(level as int),
    {
        if level < self.parts.len() {
            self.parts[level].as_str()
        } else {
            proof {
                reveal_strlit("");
                assert(""@ =~= Seq::empty());
            }
            ""
        }
    }

    /// Whether the path ends above `level`.
    pub fn leaf(&self, level: usize) -> (r: bool)
        ensures
            r == self@.leaf(level as int),
    {
        self.parts.len() <= level
    }
}

// ---- responses ----

#[derive(Debug)]
pub enum RestBody {
    /// A text.
    Full(String),
    /// A document.
    Document(Json),
    /// Rows of text as they come, from the listener that writes into the stream
    /// with this number.
    Stream(u64),
}

#[derive(Debug)]
pub struct RestResponse {
    pub status: u16,
    pub body: RestBody,
}

pub ghost enum BodyView {
    Full(Seq<char>),
    Document(JsonTree),
    Stream(u64),
}

pub ghost struct ResponseView {
    pub status: u16,
    pub body: BodyView,
}

impl View for RestResponse {
    type V = ResponseView;

    open spec fn view(&self) -> ResponseView {
        ResponseView {
            status: self.status,
            body: match self.body {
                RestBody::Full(s) => BodyView::Full(s@),
                RestBody::Document(j) => BodyView::Document(j@),
                RestBody::Stream(n) => BodyView::Stream(n),
            },
        }
    }
}

/// A response that is a text.
pub open spec fn full(status: u16, body: Seq<char>) -> ResponseView {
    ResponseView { status, body: BodyView::Full(body) }
}

/// A response that is a document.
pub open spec fn document(t: JsonTree) -> ResponseView {
    ResponseView { status: 200, body: BodyView::Document(t) }
}

/// The response to a request that something is wrong with.
pub open spec fn complaint(message: Seq<char>) -> ResponseView {
    ResponseView {
        status: 402,
        body: BodyView::Document(JsonTree::Object(seq![text("error"@, message)])),
    }
}

impl RestResponse {
    pub fn full(status: u16, body: &str) -> (r: RestResponse)
        ensures
            r@ == full(status, body@),
    {
        RestResponse { status, body: RestBody::Full(body.to_owned()) }
    }

    pub fn json(n: Json) -> (r: RestResponse)
        ensures
            r@ == document(n@),
    {
        RestResponse { status: 200, body: RestBody::Document(n) }
    }

    pub fn error(e: &Error) -> (r: RestResponse)
        ensures
            r@ == complaint(e@),
    {
        let mut n: Vec<(String, Json)> = Vec::new();
        put_text(&mut n, "error", e.0.as_str());
        assert(members(n@) =~= seq![text("error"@, e@)]);
        RestResponse { status: 402, body: RestBody::Document(Json::Object(n)) }
    }
}

// ---- questions to the hardware ----

/// The form of the response to a request that goes to the hardware.
#[derive(Debug)]
pub enum RestAnswer {
    Power { alert_bit: u8 },
    Temperature,
    Pins,
    /// That a calibration was written.
    Calibration,
    /// That this serial number was written.
    Serial(String),
}

pub ghost enum RestAnswerView {
    Power { alert_bit: u8 },
    Temperature,
    Pins,
    Calibration,
    Serial(Seq<char>),
}

#[derive(Debug)]
pub struct RestAsk {
    pub answer: RestAnswer,
    pub requests: Vec<ControlRequest>,
}

#[verifier::ext_equal]
pub ghost struct RestAskView {
    pub answer: RestAnswerView,
    pub requests: Seq<ControlView>,
}

impl View for RestAsk {
    type V = RestAskView;

    open spec fn view(&self) -> RestAskView {
        RestAskView {
            answer: match self.answer {
                RestAnswer::Power { alert_bit } => RestAnswerView::Power { alert_bit },
                RestAnswer::Temperature => RestAnswerView::Temperature,
                RestAnswer::Pins => RestAnswerView::Pins,
                RestAnswer::Calibration => RestAnswerView::Calibration,
                RestAnswer::Serial(s) => RestAnswerView::Serial(s@),
            },
            requests: request_views(self.requests@),
        }
    }
}

/// What came of writing a serial number.
pub open spec fn serial_written(status: i64, serial: Seq<char>) -> JsonTree {
    JsonTree::Object(seq![signed("status"@, status), text("serial"@, serial)])
}

fn serial_json(status: i64, serial: &str) -> (r: Json)
    ensures
        r@ == serial_written(status, serial@),
{
    let mut n: Vec<(String, Json)> = Vec::new();
    put_number(&mut n, "status", Number::Signed(status));
    put_text(&mut n, "serial", serial);
    assert(members(n@) =~= serial_written(status, serial@)->Object_0);
    Json::Object(n)
}

/// The response to a request that went to the hardware.
pub open spec fn rest_answer_of(a: RestAnswerView, v: Seq<crate::effect::ReplyView>) -> ResponseView {
    let r = reply_at(v, 0);
    match a {
        RestAnswerView::Power { alert_bit } => document(power_tree(r, alert_bit)),
        RestAnswerView::Temperature => document(temperature_tree(v)),
        RestAnswerView::Pins => document(pins_tree(r)),
        RestAnswerView::Calibration => document(
            JsonTree::Object(seq![signed("status"@, r.status as i64), truth("valid"@, true)]),
        ),
        RestAnswerView::Serial(s) => document(serial_written(r.status as i64, s)),
    }
}

/// Makes the response to a request that went to the hardware. There is one reply
/// for each control transfer.
pub fn rest_answer(a: &RestAsk, replies: &Vec<ControlReply>) -> (r: RestResponse)
    ensures
        r@ == rest_answer_of(a@.answer, reply_views(replies@)),
{
    let none = ControlReply { status: -1, data: Vec::new() };
    assert(none.data@ =~= Seq::empty());
    let first = if replies.len() > 0 {
        &replies[0]
    } else {
        &none
    };
    assert(first@ == reply_at(reply_views(replies@), 0));
    match &a.answer {
        RestAnswer::Power { alert_bit } => RestResponse::json(power_json(first, *alert_bit)),
        RestAnswer::Temperature => RestResponse::json(temperature_json(replies)),
        RestAnswer::Pins => RestResponse::json(pins_json(first)),
        RestAnswer::Calibration => {
            let mut n: Vec<(String, Json)> = Vec::new();
            put_number(&mut n, "status", Number::Signed(first.status as i64));
            put_bool(&mut n, "valid", true);
            assert(members(n@) =~= seq![
                signed("status"@, first.status as i64),
                truth("valid"@, true),
            ]);
            RestResponse::json(Json::Object(n))
        },
        RestAnswer::Serial(s) => RestResponse::json(serial_json(first.status as i64, s.as_str())),
    }
}

// ---- what a request leads to ----

/// What a request to a device leads to.
#[derive(Debug)]
pub enum RestStep {
    Respond(RestResponse),
    /// The numbers are to be read, and `rest_configure` is to be called.
    Configure {
        samples: Option<String>,
        sample_time: Option<String>,
        current_limit: Option<String>,
    },
    /// `set_output` is to be called.
    Output { chan: usize, source: OutputSource },
    /// A source is to be made of the form, and `set_output` to be called.
    Form { chan: usize, plan: FormPlan },
    /// The gains are to be read, one for each stream, and `rest_input_post` is to
    /// be called.
    Gains { chan: usize, texts: Vec<Option<String>> },
    /// The time is to be read, and `rest_input` is to be called.
    Input { chan: usize, resample: String },
    /// The hardware is to be asked.
    Ask(RestAsk),
}

pub ghost enum StepView {
    Respond(ResponseView),
    Configure {
        samples: Option<Seq<char>>,
        sample_time: Option<Seq<char>>,
        current_limit: Option<Seq<char>>,
    },
    Output { chan: int, source: SourceView },
    Form { chan: int, plan: PlanView },
    Gains { chan: int, texts: Seq<Option<Seq<char>>> },
    Input { chan: int, resample: Seq<char> },
    Ask(RestAskView),
}

pub open spec fn opt_texts(v: Seq<Option<String>>) -> Seq<Option<Seq<char>>> {
    v.map_values(|s: Option<String>| opt_text(s))
}

impl View for RestStep {
    type V = StepView;

    open spec fn view(&self) -> StepView {
        match *self {
            RestStep::Respond(r) => StepView::Respond(r@),
            RestStep::Configure { samples, sample_time, current_limit } => StepView::Configure {
                samples: opt_text(samples),
                sample_time: opt_text(sample_time),
                current_limit: opt_text(current_limit),
            },
            RestStep::Output { chan, source } => StepView::Output {
                chan: chan as int,
                source: source@,
            },
            RestStep::Form { chan, plan } => StepView::Form { chan: chan as int, plan: plan@ },
            RestStep::Gains { chan, texts } => StepView::Gains {
                chan: chan as int,
                texts: opt_texts(texts@),
            },
            RestStep::Input { chan, resample } => StepView::Input {
                chan: chan as int,
                resample: resample@,
            },
            RestStep::Ask(a) => StepView::Ask(a@),
        }
    }
}

/// Whether a text is meant to be a document.
pub open spec fn braced(body: Seq<char>) -> bool {
    body.len() > 0 && body[0] == '{'
}

fn is_braced(body: &str) -> (r: bool)
    ensures
        r == braced(body@),
{
    let chars = crate::text::chars_of(body);
    chars.len() > 0 && chars[0] == '{'
}

// ---- the hardware ----

/// What a field of a form says of a switch: nothing where it is empty.
pub open spec fn switch_field(m: Map<Seq<char>, Seq<char>>, key: Seq<char>) -> Option<bool> {
    match field_at(m, key) {
        Some(v) => if v.len() == 0 {
            None
        } else {
            Some(v == "true"@ || v == "1"@)
        },
        None => None,
    }
}

/// What a field of a form says of a potentiometer.
pub open spec fn pot_field(m: Map<Seq<char>, Seq<char>>, key: Seq<char>) -> Option<u8> {
    match field_at(m, key) {
        Some(v) => if v.len() == 0 {
            None
        } else {
            match integer(v) {
                Some(i) => Some((i as int % 128) as u8),
                None => None,
            }
        },
        None => None,
    }
}

/// Whether a form has something in a field.
pub open spec fn filled(m: Map<Seq<char>, Seq<char>>, key: Seq<char>) -> bool {
    field_at(m, key) matches Some(v) && v.len() > 0
}

/// The change of the front end that a form asks for.
pub open spec fn form_change(m: Map<Seq<char>, Seq<char>>) -> FrontendChange {
    FrontendChange {
        r50_2v5: switch_field(m, "r50_2v5"@),
        r50_gnd: switch_field(m, "r50_gnd"@),
        feedback: switch_field(m, "feedback"@),
        output_en: switch_field(m, "output_en"@),
        split: switch_field(m, "split"@),
        pots: filled(m, "pot_r1"@) || filled(m, "pot_r2"@),
        pot_r1: pot_field(m, "pot_r1"@),
        pot_r2: pot_field(m, "pot_r2"@),
    }
}

/// The lights that a form asks for.
pub open spec fn form_lights(state: u8, m: Map<Seq<char>, Seq<char>>) -> u8 {
    if filled(m, "leds"@) {
        (integer(m["leds"@]).unwrap_or(0) as int % 8) as u8
    } else {
        lights(
            state,
            switch_field(m, "red"@),
            switch_field(m, "green"@),
            switch_field(m, "blue"@),
        )
    }
}

/// The calibration that a posted document asks for, or what is wrong.
pub open spec fn posted_calibration(body: Seq<char>) -> Result<CalView, Seq<char>> {
    match parsed(body) {
        Err(m) => Err("JSON parse error: "@ + m),
        Ok(n) => if bool_at(n, "reset"@).unwrap_or(false) {
            Ok(CalView { valid: true, ..CalView::blank() })
        } else {
            calibration_from(n)
        },
    }
}

/// What a request for the hardware of an M1K leads to: its state, effects and
/// the next step, if the request is for it.
#[verifier::opaque]
pub open spec fn m1k_rest(
    b: M1kView,
    fw_version: Seq<char>,
    serial: Seq<char>,
    segment: Seq<char>,
    post: bool,
    body: Seq<char>,
) -> (M1kView, Seq<EffectView>, Option<StepView>) {
    let m = fields(body);
    if segment == "frontend"@ {
        if post {
            let c = channel_named(field_at(m, "channel"@).unwrap_or("a"@));
            let b2 = b.with_frontend(c, form_change(m));
            (
                b2,
                form_change(m).requests(c, b.frontend[c]),
                Some(StepView::Respond(document(b2.frontend_document()))),
            )
        } else {
            (b, seq![], Some(StepView::Respond(document(b.frontend_document()))))
        }
    } else if segment == "power"@ {
        (
            b,
            seq![],
            Some(
                StepView::Ask(
                    RestAskView {
                        answer: RestAnswerView::Power { alert_bit: alert_bit_of(fw_version) },
                        requests: seq![power_question()],
                    },
                ),
            ),
        )
    } else if segment == "temperature"@ {
        (
            b,
            seq![],
            Some(
                StepView::Ask(
                    RestAskView {
                        answer: RestAnswerView::Temperature,
                        requests: temperature_questions(),
                    },
                ),
            ),
        )
    } else if segment == "leds"@ {
        if post {
            let state = form_lights(b.led_state, m);
            (
                M1kView { led_state: state, ..b },
                seq![sends(0x03, state as u16, 0)],
                Some(StepView::Respond(document(lights_tree(state)))),
            )
        } else {
            (b, seq![], Some(StepView::Respond(document(lights_tree(b.led_state)))))
        }
    } else if segment == "calibration"@ {
        if post {
            match posted_calibration(body) {
                Err(e) => (b, seq![], Some(StepView::Respond(complaint(e)))),
                Ok(cal) => (
                    M1kView { cal, ..b },
                    seq![],
                    Some(
                        StepView::Ask(
                            RestAskView {
                                answer: RestAnswerView::Calibration,
                                requests: seq![written(0x02, cal.stored())],
                            },
                        ),
                    ),
                ),
            }
        } else {
            (
                b,
                seq![],
                Some(
                    StepView::Respond(
                        document(
                            JsonTree::Object(
                                seq![truth("valid"@, b.cal.valid)] + number_members(b.cal),
                            ),
                        ),
                    ),
                ),
            )
        }
    } else if segment == "serial"@ {
        if post {
            let new_serial = field_at(m, "serial"@).unwrap_or(""@);
            if serial_fits(new_serial) {
                (
                    b,
                    seq![],
                    Some(
                        StepView::Ask(
                            RestAskView {
                                answer: RestAnswerView::Serial(new_serial),
                                requests: seq![written(0x05, encode_utf8(new_serial))],
                            },
                        ),
                    ),
                )
            } else {
                (
                    b,
                    seq![],
                    Some(StepView::Respond(document(serial_written((-1) as i64, new_serial)))),
                )
            }
        } else {
            (
                b,
                seq![],
                Some(StepView::Respond(document(JsonTree::Object(seq![text("serial"@, serial)])))),
            )
        }
    } else {
        (b, seq![], None)
    }
}

/// The number in a field of a form, as a byte.
pub open spec fn byte_field(m: Map<Seq<char>, Seq<char>>, key: Seq<char>) -> u8 {
    match field_at(m, key) {
        Some(v) => integer(v).unwrap_or(0) as u8,
        None => 0,
    }
}

/// What a request for the hardware of a CEE leads to.
pub open spec fn cee_rest(segment: Seq<char>, post: bool, body: Seq<char>) -> Option<StepView> {
    if segment == "gpio"@ {
        let m = fields(body);
        Some(
            StepView::Ask(
                RestAskView {
                    answer: RestAnswerView::Pins,
                    requests: seq![
                        if post {
                            asked(
                                0x21,
                                byte_field(m, "out"@) as u16,
                                byte_field(m, "dir"@) as u16,
                                4,
                            )
                        } else {
                            asked(0x20, 0, 0, 4)
                        },
                    ],
                },
            ),
        )
    } else {
        None
    }
}

fn field_switch(m: &Params, key: &str) -> (r: Option<bool>)
    ensures
        r == switch_field(m@, key@),
{
    match m.get(key) {
        Some(v) => if v.as_str().is_empty() {
            None
        } else {
            Some(same(v.as_str(), "true") || same(v.as_str(), "1"))
        },
        None => None,
    }
}

fn field_pot(m: &Params, key: &str) -> (r: Option<u8>)
    ensures
        r == pot_field(m@, key@),
{
    match m.get(key) {
        Some(v) => if v.as_str().is_empty() {
            None
        } else {
            match parse_integer(v.as_str()) {
                Some(i) => Some(modulo(i as i128, 128) as u8),
                None => None,
            }
        },
        None => None,
    }
}

fn field_filled(m: &Params, key: &str) -> (r: bool)
    ensures
        r == filled(m@, key@),
{
    match m.get(key) {
        Some(v) => !v.as_str().is_empty(),
        None => false,
    }
}

fn field_byte(m: &Params, key: &str) -> (r: u8)
    ensures
        r == byte_field(m@, key@),
{
    match m.get(key) {
        Some(v) => match parse_integer(v.as_str()) {
            Some(i) => #[verifier::truncate]
            (i as u8),
            None => 0,
        },
        None => 0,
    }
}

fn ask_step(answer: RestAnswer, request: ControlRequest) -> (r: RestStep)
    ensures
        r matches RestStep::Ask(a) && a@.requests == seq![request@] && a.answer == answer
            && a.requests.len() == 1,
{
    let mut requests: Vec<ControlRequest> = Vec::new();
    requests.push(request);
    assert(request_views(requests@) =~= seq![request@]);
    RestStep::Ask(RestAsk { answer, requests })
}

fn read_form_lights(state: u8, m: &Params) -> (r: u8)
    ensures
        r == form_lights(state, m@),
        r < 8,
{
    if let Some(v) = m.get("leds") {
        if !v.as_str().is_empty() {
            let i: i64 = match parse_integer(v.as_str()) {
                Some(i) => i,
                None => 0,
            };
            return modulo(i as i128, 8) as u8;
        }
    }
    lights_with(
        state,
        field_switch(m, "red"),
        field_switch(m, "green"),
        field_switch(m, "blue"),
    )
}

fn read_posted_calibration(body: &str) -> (r: Result<M1kCal, Error>)
    ensures
        match r {
            Ok(c) => posted_calibration(body@) == Ok::<CalView, Seq<char>>(c@),
            Err(e) => posted_calibration(body@) == Err::<CalView, Seq<char>>(e@),
        },
{
    match parse_json(body) {
        Err(e) => Err(e),
        Ok(n) => if json_bool_prop_def(&n, "reset", false) {
            let mut cal = M1kCal::default();
            cal.valid = true;
            Ok(cal)
        } else {
            read_calibration(&n)
        },
    }
}

/// What is found where a step is one that answers or asks.
pub open spec fn step_is(r: Option<RestStep>, meant: Option<StepView>) -> bool {
    match r {
        Some(s) => meant == Some(s@),
        None => meant is None,
    }
}

/// What holds of a step of a device: channel and source are there.
pub open spec fn step_fits(r: Option<RestStep>, d: DeviceView) -> bool {
    match r {
        Some(RestStep::Output { chan, source }) => chan < d.channels.len() && source.wf(),
        Some(RestStep::Form { chan, .. }) => chan < d.channels.len(),
        Some(RestStep::Gains { chan, texts }) => chan < d.channels.len() && texts.len()
            == d.channels[chan as int].streams.len(),
        Some(RestStep::Input { chan, .. }) => chan < d.channels.len(),
        Some(RestStep::Ask(a)) => a.requests.len() >= 1,
        _ => true,
    }
}

/// Whether a step answers or asks.
pub open spec fn responds_or_asks(r: Option<RestStep>) -> bool {
    match r {
        Some(RestStep::Respond(_)) => true,
        Some(RestStep::Ask(a)) => a.requests.len() >= 1,
        Some(_) => false,
        None => true,
    }
}

impl M1kBackend {
    fn rest_frontend_post(&mut self, out: &mut Vec<Effect>, body: &str)
        ensures
            ({
                let m = fields(body@);
                let c = channel_named(field_at(m, "channel"@).unwrap_or("a"@));
                &&& final(self)@ == old(self)@.with_frontend(c, form_change(m))
                &&& effects(final(out)@) == effects(old(out)@) + form_change(m).requests(
                    c,
                    old(self)@.frontend[c],
                )
            }),
    {
        let m = parse_query(body);
        let c = match m.get("channel") {
            Some(s) => channel_index(s.as_str()),
            None => channel_index("a"),
        };
        let change = FrontendChange {
            r50_2v5: field_switch(&m, "r50_2v5"),
            r50_gnd: field_switch(&m, "r50_gnd"),
            feedback: field_switch(&m, "feedback"),
            output_en: field_switch(&m, "output_en"),
            split: field_switch(&m, "split"),
            pots: field_filled(&m, "pot_r1") || field_filled(&m, "pot_r2"),
            pot_r1: field_pot(&m, "pot_r1"),
            pot_r2: field_pot(&m, "pot_r2"),
        };
        self.apply_frontend(c, change, out);
    }

    /// Handles a request for the hardware of an M1K.
    pub fn handle_rest(
        &mut self,
        fw_version: &str,
        serial: &str,
        out: &mut Vec<Effect>,
        segment: &str,
        post: bool,
        body: &str,
    ) -> (r: Option<RestStep>)
        ensures
            ({
                let (b, todo, step) = m1k_rest(
                    old(self)@,
                    fw_version@,
                    serial@,
                    segment@,
                    post,
                    body@,
                );
                &&& final(self)@ == b
                &&& effects(final(out)@) == effects(old(out)@) + todo
                &&& step_is(r, step)
            }),
            r is None ==> final(self)@ == old(self)@ && effects(final(out)@) == effects(
                old(out)@,
            ),
            responds_or_asks(r),
    {
        proof {
            reveal(m1k_rest);
        }
        assert(effects(out@) =~= effects(out@) + seq![]);
        if same(segment, "frontend") {
            if post {
                self.rest_frontend_post(out, body);
            }
            Some(RestStep::Respond(RestResponse::json(self.frontend_to_json())))
        } else if same(segment, "power") {
            Some(
                ask_step(RestAnswer::Power { alert_bit: alert_bit(fw_version) }, ask(0x17, 0, 3, 3)),
            )
        } else if same(segment, "temperature") {
            Some(
                RestStep::Ask(
                    RestAsk { answer: RestAnswer::Temperature, requests: temperature_requests() },
                ),
            )
        } else if same(segment, "leds") {
            if post {
                let state = read_form_lights(self.led_state, &parse_query(body));
                self.set_leds(state, out);
                assert(effects(out@) =~= effects(old(out)@) + seq![sends(0x03, state as u16, 0)]);
            }
            Some(RestStep::Respond(RestResponse::json(led_json(self.led_state))))
        } else if same(segment, "calibration") {
            if post {
                match read_posted_calibration(body) {
                    Err(e) => Some(RestStep::Respond(RestResponse::error(&e))),
                    Ok(cal) => {
                        self.cal = cal;
                        Some(ask_step(RestAnswer::Calibration, hand_over(0x02, cal.to_bytes())))
                    },
                }
            } else {
                let mut n: Vec<(String, Json)> = Vec::new();
                put_bool(&mut n, "valid", self.cal.valid);
                put_calibration(&mut n, &self.cal);
                assert(members(n@) =~= seq![truth("valid"@, self@.cal.valid)] + number_members(
                    self@.cal,
                ));
                Some(RestStep::Respond(RestResponse::json(Json::Object(n))))
            }
        } else if same(segment, "serial") {
            if post {
                let m = parse_query(body);
                let new_serial = match m.get("serial") {
                    Some(s) => s.clone(),
                    None => "".to_owned(),
                };
                match serial_request(new_serial.as_str()) {
                    Some(c) => Some(ask_step(RestAnswer::Serial(new_serial), c)),
                    None => Some(
                        RestStep::Respond(
                            RestResponse::json(serial_json(-1, new_serial.as_str())),
                        ),
                    ),
                }
            } else {
                let mut n: Vec<(String, Json)> = Vec::new();
                put_text(&mut n, "serial", serial);
                assert(members(n@) =~= seq![text("serial"@, serial@)]);
                Some(RestStep::Respond(RestResponse::json(Json::Object(n))))
            }
        } else {
            None
        }
    }
}

fn cee_handle_rest(segment: &str, post: bool, body: &str) -> (r: Option<RestStep>)
    ensures
        step_is(r, cee_rest(segment@, post, body@)),
        responds_or_asks(r),
{
    if !same(segment, "gpio") {
        return None;
    }
    if post {
        let m = parse_query(body);
        let out: u8 = field_byte(&m, "out");
        let dir: u8 = field_byte(&m, "dir");
        Some(ask_step(RestAnswer::Pins, ask(0x21, out as u16, dir as u16, 4)))
    } else {
        Some(ask_step(RestAnswer::Pins, ask(0x20, 0, 0, 4)))
    }
}

// ---- a device ----

/// After the capture of a device was switched by a form.
pub open spec fn capture_posted(d: DeviceView, body: Seq<char>) -> DeviceView {
    if braced(body) {
        d
    } else {
        match field_at(fields(body), "capture"@) {
            Some(v) => if v == "true"@ || v == "on"@ || v == "1"@ {
                d.started()
            } else if v == "false"@ || v == "off"@ || v == "0"@ {
                d.paused()
            } else {
                d
            },
            None => d,
        }
    }
}

/// The fields of a form that have the gains of streams.
pub open spec fn gain_texts(m: Map<Seq<char>, Seq<char>>, v: Seq<StreamView>) -> Seq<
    Option<Seq<char>>,
> {
    v.map_values(|s: StreamView| field_at(m, "gain_"@ + s.id))
}

/// What a request for the output of a channel leads to.
pub open spec fn output_step(d: DeviceView, c: int, req: RequestView) -> Option<StepView> {
    if req.post() {
        if braced(req.body) {
            Some(
                match parsed(req.body) {
                    Err(m) => StepView::Respond(complaint("JSON parse error: "@ + m)),
                    Ok(n) => match source_from(n) {
                        Err(m) => StepView::Respond(complaint(m)),
                        Ok(source) => StepView::Output { chan: c, source },
                    },
                },
            )
        } else {
            Some(StepView::Form { chan: c, plan: plan_of(req.body) })
        }
    } else {
        match d.channels[c].source {
            Some(s) => Some(StepView::Respond(document(JsonTree::Object(described(s))))),
            None => None,
        }
    }
}

/// What a request for a channel leads to.
pub open spec fn channel_step(d: DeviceView, c: int, req: RequestView, level: int) -> Option<
    StepView,
> {
    if req.leaf(level) {
        Some(StepView::Respond(document(d.channels[c].document())))
    } else if req.at(level) == "output"@ {
        output_step(d, c, req)
    } else if req.at(level) == "input"@ {
        if req.post() {
            Some(
                StepView::Gains {
                    chan: c,
                    texts: gain_texts(fields(req.body), d.channels[c].streams),
                },
            )
        } else {
            Some(
                StepView::Input {
                    chan: c,
                    resample: field_at(req.params, "resample"@).unwrap_or("0.01"@),
                },
            )
        }
    } else {
        None
    }
}

/// What a request for what all devices have leads to.
pub open spec fn common_step(d: DeviceView, req: RequestView, level: int) -> (
    DeviceView,
    Option<StepView>,
) {
    if req.leaf(level) {
        let e = if req.post() {
            capture_posted(d, req.body)
        } else {
            d
        };
        (e, Some(StepView::Respond(document(e.state(false)))))
    } else if req.at(level) == "configuration"@ {
        if req.post() && !braced(req.body) {
            let m = fields(req.body);
            (
                d,
                Some(
                    StepView::Configure {
                        samples: field_at(m, "samples"@),
                        sample_time: field_at(m, "sampleTime"@),
                        current_limit: field_at(m, "currentLimit"@),
                    },
                ),
            )
        } else {
            (d, Some(StepView::Respond(document(d.state(true)))))
        }
    } else {
        match d.channel(req.at(level)) {
            Some(c) => (d, channel_step(d, c, req, level + 1)),
            None => (d, None),
        }
    }
}

/// What a request for the hardware of a device leads to.
pub open spec fn hardware_step(d: DeviceView, req: RequestView, level: int) -> (
    DeviceView,
    Option<StepView>,
) {
    if req.leaf(level) {
        (d, None)
    } else {
        match d.backend {
            BackendView::M1k(b) => {
                let (b2, todo, step) = m1k_rest(
                    b,
                    d.fw_version,
                    d.serial,
                    req.at(level),
                    req.post(),
                    req.body,
                );
                (DeviceView { backend: BackendView::M1k(b2), out: d.out + todo, ..d }, step)
            },
            BackendView::Cee(_) => (d, cee_rest(req.at(level), req.post(), req.body)),
            BackendView::Test(_) => (d, None),
        }
    }
}

/// What a request for a device leads to; the hardware comes first.
pub open spec fn device_step(d: DeviceView, req: RequestView, level: int) -> (
    DeviceView,
    Option<StepView>,
) {
    let (e, step) = hardware_step(d, req, level);
    if step is Some {
        (e, step)
    } else {
        common_step(d, req, level)
    }
}

fn owned(s: Option<&String>) -> (r: Option<String>)
    ensures
        opt_text(r) == (match s {
            Some(t) => Some(t@),
            None => None,
        }),
{
    match s {
        Some(t) => Some(t.clone()),
        None => None,
    }
}

fn read_gain_texts(body: &str, streams: &Vec<Stream>) -> (r: Vec<Option<String>>)
    ensures
        opt_texts(r@) == gain_texts(fields(body@), crate::streaming::stream_views(streams@)),
        r.len() == streams.len(),
{
    let m = parse_query(body);
    let mut r: Vec<Option<String>> = Vec::new();
    let ghost v = crate::streaming::stream_views(streams@);
    let mut i: usize = 0;
    while i < streams.len()
        invariant
            i <= streams.len(),
            r.len() == i,
            m@ == fields(body@),
            v == crate::streaming::stream_views(streams@),
            forall|j: int|
                0 <= j < i ==> opt_text(#[trigger] r@[j]) == gain_texts(fields(body@), v)[j],
        decreases streams.len() - i,
    {
        let key = joined("gain_", streams[i].id.as_str());
        let t = owned(m.get(key.as_str()));
        assert(v[i as int] == streams@[i as int]@);
        r.push(t);
        i += 1;
    }
    assert(opt_texts(r@) =~= gain_texts(fields(body@), v));
    r
}

impl StreamingDevice {
    fn hardware_rest(&mut self, req: &RestRequest, level: usize) -> (r: Option<RestStep>)
        requires
            old(self).wf(),
        ensures
            step_is(r, hardware_step(old(self)@, req@, level as int).1),
            final(self)@ == (if r is Some {
                hardware_step(old(self)@, req@, level as int).0
            } else {
                old(self)@
            }),
            final(self).wf(),
            responds_or_asks(r),
    {
        if req.leaf(level) {
            return None;
        }
        let post = same(req.method.as_str(), "POST");
        let ghost before = self@;
        let r = match &mut self.backend {
            Backend::M1k(b) => b.handle_rest(
                self.fw_version.as_str(),
                self.serial.as_str(),
                &mut self.out,
                req.part(level),
                post,
                req.body.as_str(),
            ),
            Backend::Cee(_) => cee_handle_rest(req.part(level), post, req.body.as_str()),
            Backend::Test(_) => None,
        };
        proof {
            crate::capture::lemma_wf_frame(before, self@);
        }
        r
    }

    fn rest_device_post(&mut self, body: &str)
        requires
            old(self).wf(),
        ensures
            final(self)@ == capture_posted(old(self)@, body@),
            final(self).wf(),
    {
        if is_braced(body) {
            return ;
        }
        let m = parse_query(body);
        if let Some(v) = m.get("capture") {
            let word = v.as_str();
            if same(word, "true") || same(word, "on") || same(word, "1") {
                self.start_capture();
            } else if same(word, "false") || same(word, "off") || same(word, "0") {
                self.pause_capture();
            }
        }
    }

    /// The source of a channel, as a response.
    pub fn rest_described(&self, chan: usize) -> (r: Option<RestResponse>)
        requires
            self.wf(),
            chan < self@.channels.len(),
        ensures
            match (r, self@.channels[chan as int].source) {
                (Some(x), Some(s)) => x@ == document(JsonTree::Object(described(s))),
                (None, None) => true,
                _ => false,
            },
    {
        assert(self@.channels[chan as int] == self.channels@[chan as int]@);
        assert(channel_wf(self@.channels[chan as int], self@.capture_samples));
        match &self.channels[chan].source {
            Some(s) => Some(RestResponse::json(s.describe_json())),
            None => None,
        }
    }

    fn rest_output(&self, chan: usize, req: &RestRequest) -> (r: Option<RestStep>)
        requires
            self.wf(),
            chan < self@.channels.len(),
        ensures
            step_is(r, output_step(self@, chan as int, req@)),
            step_fits(r, self@),
    {
        if same(req.method.as_str(), "POST") {
            if is_braced(req.body.as_str()) {
                match parse_json(req.body.as_str()) {
                    Err(e) => Some(RestStep::Respond(RestResponse::error(&e))),
                    Ok(n) => match make_source(&n) {
                        Err(e) => Some(RestStep::Respond(RestResponse::error(&e))),
                        Ok(source) => Some(RestStep::Output { chan, source }),
                    },
                }
            } else {
                Some(RestStep::Form { chan, plan: form_plan(req.body.as_str()) })
            }
        } else {
            match self.rest_described(chan) {
                Some(x) => Some(RestStep::Respond(x)),
                None => None,
            }
        }
    }

    fn channel_rest(&self, chan: usize, req: &RestRequest, level: usize) -> (r: Option<RestStep>)
        requires
            self.wf(),
            chan < self@.channels.len(),
        ensures
            step_is(r, channel_step(self@, chan as int, req@, level as int)),
            step_fits(r, self@),
    {
        assert(self@.channels[chan as int] == self.channels@[chan as int]@);
        assert(channel_wf(self@.channels[chan as int], self@.capture_samples));
        if req.leaf(level) {
            return Some(RestStep::Respond(RestResponse::json(self.channels[chan].to_json())));
        }
        if same(req.part(level), "output") {
            return self.rest_output(chan, req);
        }
        if same(req.part(level), "input") {
            if same(req.method.as_str(), "POST") {
                let texts = read_gain_texts(req.body.as_str(), &self.channels[chan].streams);
                return Some(RestStep::Gains { chan, texts });
            }
            return Some(RestStep::Input { chan, resample: req.param("resample", "0.01") });
        }
        None
    }

    /// Handles a request for a device; `level` is where the path goes on below the
    /// device.
    pub fn device_rest(&mut self, req: &RestRequest, level: usize) -> (r: Option<RestStep>)
        requires
            old(self).wf(),
        ensures
            final(self)@ == device_step(old(self)@, req@, level as int).0,
            step_is(r, device_step(old(self)@, req@, level as int).1),
            step_fits(r, final(self)@),
            final(self).wf(),
    {
        if let Some(step) = self.hardware_rest(req, level) {
            return Some(step);
        }
        let post = same(req.method.as_str(), "POST");
        if req.leaf(level) {
            if post {
                self.rest_device_post(req.body.as_str());
            }
            return Some(RestStep::Respond(RestResponse::json(self.state_to_json(false))));
        }
        if same(req.part(level), "configuration") {
            if post && !is_braced(req.body.as_str()) {
                let m = parse_query(req.body.as_str());
                return Some(
                    RestStep::Configure {
                        samples: owned(m.get("samples")),
                        sample_time: owned(m.get("sampleTime")),
                        current_limit: owned(m.get("currentLimit")),
                    },
                );
            }
            return Some(RestStep::Respond(RestResponse::json(self.state_to_json(true))));
        }
        assert(level < req.parts.len());
        match self.channel_by_id(req.part(level)) {
            Some(chan) => self.channel_rest(chan, req, level + 1),
            None => None,
        }
    }
}

// ---- numbers of requests ----

/// What was read from the field of a form.
#[derive(Clone, Copy, Debug, PartialEq, Eq, Structural)]
pub enum Field {
    /// The form has no such field.
    Absent,
    /// It is no number.
    Fault,
    Value(Double),
}

impl Field {
    /// Its number, or the complaint about it.
    pub open spec fn number(self, key: Seq<char>, def: Double) -> Result<Double, Seq<char>> {
        match self {
            Field::Absent => Ok(def),
            Field::Fault => Err(number_fault(key)),
            Field::Value(d) => Ok(d),
        }
    }

    fn read(self, key: &str, def: Double) -> (r: Result<Double, Error>)
        ensures
            match r {
                Ok(d) => self.number(key@, def) == Ok::<Double, Seq<char>>(d),
                Err(e) => self.number(key@, def) == Err::<Double, Seq<char>>(e@),
            },
    {
        match self {
            Field::Absent => Ok(def),
            Field::Fault => map_get_num(key, None),
            Field::Value(d) => Ok(d),
        }
    }
}

/// The time of a sample that counts: not one that is not positive, and not more
/// than a thousandth of a second.
pub open spec fn sample_time_taken(wanted: Double, present: Double) -> Double {
    let t = if !wanted.nan() && !wanted.above(Double { bits: 0 }) {
        present
    } else {
        wanted
    };
    if t.above(Double { bits: MILLI_BITS }) {
        Double { bits: MILLI_BITS }
    } else {
        t
    }
}

/// The configuration and the current limit that a form asks for.
pub open spec fn configuration_posted(d: DeviceView, samples: Field, time: Field, limit: Field) -> Result<
    (ConfigRequest, u32),
    Seq<char>,
> {
    match samples.number("samples"@, Double { bits: 0 }) {
        Err(m) => Err(m),
        Ok(n) => match time.number("sampleTime"@, d.sample_time) {
            Err(m) => Err(m),
            Ok(t) => match limit.number("currentLimit"@, Double { bits: 0 }) {
                Err(m) => Err(m),
                Ok(current) => Ok(
                    (
                        ConfigRequest {
                            mode: d.dev_mode as i32,
                            sample_time: sample_time_taken(t, d.sample_time),
                            samples: if samples is Absent {
                                d.capture_samples
                            } else {
                                count_of(n)
                            },
                            continuous: d.capture_continuous,
                            raw: d.raw_mode,
                        },
                        count_of(current),
                    ),
                ),
            },
        },
    }
}

/// What was read from the field with the gain of a stream: the gain, and the whole
/// number that is nearest to the gain times that which counts as one.
#[derive(Clone, Copy, Debug, PartialEq, Eq, Structural)]
pub struct GainField {
    pub gain: Field,
    pub internal: i32,
}

/// Whether a number is not zero.
pub open spec fn not_zero(d: Double) -> bool {
    d.nan() || d.place() != 0
}

impl GainField {
    /// The gain that is asked for.
    pub open spec fn wish(self) -> Option<i32> {
        match self.gain {
            Field::Value(d) => if not_zero(d) {
                Some(self.internal)
            } else {
                None
            },
            _ => None,
        }
    }
}

/// After the first `n` of the gains were set.
pub open spec fn gains_set(d: DeviceView, chan: int, wishes: Seq<GainField>, n: int) -> DeviceView
    decreases n,
{
    if n <= 0 {
        d
    } else {
        let e = gains_set(d, chan, wishes, n - 1);
        match wishes[n - 1].wish() {
            Some(internal) => e.gained(chan, n - 1, internal),
            None => e,
        }
    }
}

/// The gains of the first `n` streams, each as it was when the one after it was
/// not yet set.
pub open spec fn gain_members(d: DeviceView, chan: int, wishes: Seq<GainField>, n: int) -> Seq<
    (Seq<char>, JsonTree),
>
    decreases n,
{
    if n <= 0 {
        Seq::empty()
    } else {
        let s = gains_set(d, chan, wishes, n).channels[chan].streams[n - 1];
        with_member(
            gain_members(d, chan, wishes, n - 1),
            s.id,
            JsonTree::Number(Number::Ratio(s.gain, s.normal_gain)),
        )
    }
}

/// The place of the first field that is no number; their number where there is
/// none.
pub open spec fn first_fault(v: Seq<GainField>) -> int
    decreases v.len(),
{
    if v.len() == 0 || v[0].gain is Fault {
        0
    } else {
        1 + first_fault(v.drop_first())
    }
}

proof fn lemma_first_fault(v: Seq<GainField>, i: int)
    requires
        0 <= i <= v.len(),
        forall|j: int| 0 <= j < i ==> !((#[trigger] v[j]).gain is Fault),
        i == v.len() || v[i].gain is Fault,
    ensures
        first_fault(v) == i,
    decreases v.len(),
{
    if i > 0 {
        let w = v.drop_first();
        assert(!(v[0].gain is Fault));
        assert forall|j: int| 0 <= j < i - 1 implies !((#[trigger] w[j]).gain is Fault) by {
            assert(w[j] == v[j + 1]);
        }
        lemma_first_fault(w, i - 1);
    }
}

/// The response to a form with gains.
pub open spec fn gains_response(d: DeviceView, chan: int, wishes: Seq<GainField>) -> ResponseView {
    let n = first_fault(wishes);
    if n < wishes.len() {
        complaint(number_fault("gain_"@ + d.channels[chan].streams[n].id))
    } else {
        document(
            JsonTree::Object(
                seq![("gain"@, JsonTree::Object(gain_members(d, chan, wishes, n)))],
            ),
        )
    }
}

/// The heading of the streams of a channel.
pub open spec fn headings(v: Seq<StreamView>) -> Seq<char>
    decreases v.len(),
{
    if v.len() == 0 {
        Seq::empty()
    } else {
        let h = v.last().display_name + " ("@ + v.last().units + ")"@;
        if v.len() == 1 {
            h
        } else {
            headings(v.drop_last()) + ","@ + h
        }
    }
}

/// What a request for samples asks for: of how many samples to make one, the start
/// and the number, and whether it asks for a heading. `decimate` is what was read
/// from the time that it gives.
pub open spec fn input_wanted(m: Map<Seq<char>, Seq<char>>, decimate: Option<i64>) -> Result<
    (u64, i64, i64, bool),
    Seq<char>,
> {
    match (
        decimate,
        integer(field_at(m, "start"@).unwrap_or("-1"@)),
        integer(field_at(m, "count"@).unwrap_or("1"@)),
    ) {
        (None, _, _) => Err("Invalid resample parameter"@),
        (_, None, _) => Err("Invalid start parameter"@),
        (_, _, None) => Err("Invalid count parameter"@),
        (Some(d), Some(start), Some(count)) => if count < 0 {
            Err("Invalid count parameter"@)
        } else {
            Ok(
                (
                    if d < 1 {
                        1u64
                    } else {
                        d as u64
                    },
                    start,
                    count,
                    field_at(m, "header"@).unwrap_or("1"@) == "1"@,
                ),
            )
        },
    }
}

fn read_input(req: &RestRequest, decimate: Option<i64>) -> (r: Result<(u64, i64, i64, bool), Error>)
    ensures
        match r {
            Ok(x) => input_wanted(req@.params, decimate) == Ok::<_, Seq<char>>(x),
            Err(e) => input_wanted(req@.params, decimate) == Err::<(u64, i64, i64, bool), _>(e@),
        },
{
    let d: i64 = match decimate {
        Some(d) => d,
        None => return Err(Error::new("Invalid resample parameter")),
    };
    let start: i64 = match parse_integer(req.param("start", "-1").as_str()) {
        Some(i) => i,
        None => return Err(Error::new("Invalid start parameter")),
    };
    let count: i64 = match parse_integer(req.param("count", "1").as_str()) {
        Some(i) => i,
        None => return Err(Error::new("Invalid count parameter")),
    };
    if count < 0 {
        return Err(Error::new("Invalid count parameter"));
    }
    let factor: u64 = if d < 1 {
        1
    } else {
        d as u64
    };
    let header = req.param("header", "1");
    Ok((factor, start, count, same(header.as_str(), "1")))
}

fn heading(streams: &Vec<Stream>) -> (r: String)
    ensures
        r@ == headings(crate::streaming::stream_views(streams@)) + "\n"@,
{
    let ghost v = crate::streaming::stream_views(streams@);
    let mut o = String::new();
    let mut i: usize = 0;
    while i < streams.len()
        invariant
            i <= streams.len(),
            v == crate::streaming::stream_views(streams@),
            o@ == headings(v.take(i as int)),
        decreases streams.len() - i,
    {
        let s = &streams[i];
        let name = joined(s.display_name.as_str(), " (");
        let units = joined(name.as_str(), s.units.as_str());
        let h = joined(units.as_str(), ")");
        proof {
            let w = v.take(i + 1);
            assert(w.drop_last() =~= v.take(i as int));
            assert(w.last() == streams@[i as int]@);
        }
        if i == 0 {
            o = h;
        } else {
            let before = joined(o.as_str(), ",");
            o = joined(before.as_str(), h.as_str());
        }
        i += 1;
    }
    assert(v.take(i as int) =~= v);
    joined(o.as_str(), "\n")
}

/// With its gains set, a device has the streams that it had.
proof fn lemma_gained(d: DeviceView, chan: int, stream: int, internal: i32)
    requires
        has_stream(d.channels, chan, stream),
    ensures
        d.gained(chan, stream, internal).channels.len() == d.channels.len(),
        d.gained(chan, stream, internal).channels[chan].streams.len()
            == d.channels[chan].streams.len(),
        forall|s: int|
            0 <= s < d.channels[chan].streams.len() ==> (#[trigger] d.gained(
                chan,
                stream,
                internal,
            ).channels[chan].streams[s]).id == d.channels[chan].streams[s].id,
{
}

impl StreamingDevice {
    /// Prepares the configuration that a form asks for. On success the current
    /// limit is set, and the device is to be configured.
    pub fn rest_configure(&mut self, samples: Field, sample_time: Field, current_limit: Field) -> (r:
        Result<ConfigRequest, Error>)
        requires
            old(self).wf(),
        ensures
            match (r, configuration_posted(old(self)@, samples, sample_time, current_limit)) {
                (Ok(c), Ok((meant, limit))) => c == meant && final(self)@ == old(self)@.limited(
                    limit,
                ),
                (Err(e), Err(m)) => e@ == m && final(self)@ == old(self)@,
                _ => false,
            },
            final(self).wf(),
    {
        let zero = Double { bits: 0 };
        let most = Double { bits: MILLI_BITS };
        let n: u32 = match samples.read("samples", zero) {
            Ok(d) => if let Field::Absent = samples {
                self.capture_samples
            } else {
                to_count(d)
            },
            Err(e) => return Err(e),
        };
        let mut t = match sample_time.read("sampleTime", self.sample_time) {
            Ok(d) => d,
            Err(e) => return Err(e),
        };
        if !t.is_nan() && !t.gt(zero) {
            t = self.sample_time;
        }
        if t.gt(most) {
            t = most;
        }
        let current: u32 = match current_limit.read("currentLimit", zero) {
            Ok(d) => to_count(d),
            Err(e) => return Err(e),
        };
        let mode: i32 = #[verifier::truncate]
        (self.dev_mode as i32);
        let c = ConfigRequest {
            mode,
            sample_time: t,
            samples: n,
            continuous: self.capture_continuous,
            raw: self.raw_mode,
        };
        self.set_current_limit(current);
        Ok(c)
    }

    /// Configures the device as a form asks for.
    pub fn rest_configuration_post(&mut self, c: ConfigRequest, t: Timing) -> (r: RestResponse)
        requires
            old(self).wf(),
        ensures
            final(self)@ == old(self)@.configured(c, t),
            r@ == document(final(self)@.state(true)),
            final(self).wf(),
    {
        self.configure(c, t);
        RestResponse::json(self.state_to_json(true))
    }

    /// Puts a source in place that was posted. `reply` answers `phase_request`.
    pub fn rest_output_post(&mut self, chan: usize, source: OutputSource, reply: PhaseReply) -> (r:
        RestResponse)
        requires
            old(self).wf(),
            source.wf(),
            chan < old(self)@.channels.len(),
            old(self)@.capture_o <= i64::MAX,
        ensures
            final(self)@ == old(self)@.with_output(chan as int, source@, reply),
            r@ == document(
                JsonTree::Object(
                    described(final(self)@.channels[chan as int].source->Some_0),
                ),
            ),
            final(self).wf(),
    {
        self.set_output(chan, source, reply);
        match self.rest_described(chan) {
            Some(r) => r,
            None => RestResponse::full(404, "REST object not found"),
        }
    }

    /// Sets the gains of the streams of a channel, up to the first field that is no
    /// number.
    pub fn rest_input_post(&mut self, chan: usize, wishes: &Vec<GainField>) -> (r: RestResponse)
        requires
            old(self).wf(),
            chan < old(self)@.channels.len(),
            wishes.len() == old(self)@.channels[chan as int].streams.len(),
        ensures
            final(self)@ == gains_set(old(self)@, chan as int, wishes@, first_fault(wishes@)),
            r@ == gains_response(old(self)@, chan as int, wishes@),
            final(self).wf(),
    {
        let ghost before = self@;
        let ghost streams = before.channels[chan as int].streams;
        let mut g: Vec<(String, Json)> = Vec::new();
        assert(members(g@) =~= Seq::empty());
        let mut i: usize = 0;
        while i < wishes.len()
            invariant
                i <= wishes.len(),
                before == old(self)@,
                self.wf(),
                self@ == gains_set(before, chan as int, wishes@, i as int),
                chan < before.channels.len(),
                self@.channels.len() == before.channels.len(),
                streams == before.channels[chan as int].streams,
                wishes.len() == streams.len(),
                self@.channels[chan as int].streams.len() == streams.len(),
                forall|s: int|
                    0 <= s < streams.len() ==> (
                    #[trigger] self@.channels[chan as int].streams[s]).id == streams[s].id,
                forall|j: int| 0 <= j < i ==> !((#[trigger] wishes@[j]).gain is Fault),
                members(g@) == gain_members(before, chan as int, wishes@, i as int),
            decreases wishes.len() - i,
        {
            let ghost present = self@;
            assert(self@.channels[chan as int] == self.channels@[chan as int]@);
            assert(self@.channels[chan as int].streams[i as int]
                == self.channels@[chan as int].streams@[i as int]@);
            let sid = self.channels[chan].streams[i].id.clone();
            let key = joined("gain_", sid.as_str());
            let zero = Double { bits: 0 };
            match wishes[i].gain.read(key.as_str(), zero) {
                Err(e) => {
                    proof {
                        lemma_first_fault(wishes@, i as int);
                    }
                    return RestResponse::error(&e);
                },
                Ok(d) => {
                    if d.is_nan() || d.gt(zero) || zero.gt(d) {
                        proof {
                            lemma_gained(present, chan as int, i as int, wishes@[i as int].internal);
                        }
                        self.set_gain(chan, i, wishes[i].internal);
                    }
                },
            }
            assert(self@ == gains_set(before, chan as int, wishes@, i + 1));
            assert(self@.channels[chan as int] == self.channels@[chan as int]@);
            assert(self@.channels[chan as int].streams[i as int]
                == self.channels@[chan as int].streams@[i as int]@);
            let gain = self.channels[chan].streams[i].get_gain();
            set_member(&mut g, sid.as_str(), Json::Number(gain));
            i += 1;
        }
        proof {
            lemma_first_fault(wishes@, i as int);
        }
        let mut n: Vec<(String, Json)> = Vec::new();
        put(&mut n, "gain", Json::Object(g));
        assert(members(n@) =~= seq![
            (
                "gain"@,
                JsonTree::Object(gain_members(before, chan as int, wishes@, i as int)),
            ),
        ]);
        RestResponse::json(Json::Object(n))
    }

    /// Starts a listener that writes into the stream with this number. `decimate` is
    /// what was read from the time that the request gives, rounded to samples. The
    /// heading, if one is returned, comes first into the stream.
    pub fn rest_input(&mut self, chan: usize, req: &RestRequest, decimate: Option<i64>, stream: u64) -> (r:
        (RestResponse, Option<String>))
        requires
            old(self).wf(),
            chan < old(self)@.channels.len(),
        ensures
            match input_wanted(req@.params, decimate) {
                Ok((factor, start, count, header)) => {
                    &&& final(self)@ == old(self)@.listened(
                        rest_listener(old(self)@, chan as int, stream, factor, start, count),
                    )
                    &&& r.0@ == (ResponseView { status: 200, body: BodyView::Stream(stream) })
                    &&& opt_text(r.1) == (if header {
                        Some(headings(old(self)@.channels[chan as int].streams) + "\n"@)
                    } else {
                        None
                    })
                },
                Err(m) => r.0@ == complaint(m) && r.1 is None && final(self)@ == old(self)@,
            },
            final(self).wf(),
    {
        match read_input(req, decimate) {
            Err(e) => (RestResponse::error(&e), None),
            Ok((factor, start, count, header)) => {
                assert(self@.channels[chan as int] == self.channels@[chan as int]@);
                let text = if header {
                    Some(heading(&self.channels[chan].streams))
                } else {
                    None
                };
                let l = make_rest_listener(self, chan, stream, factor, start, count);
                self.add_listener(l);
                (RestResponse { status: 200, body: RestBody::Stream(stream) }, text)
            },
        }
    }
}

// ---- the server ----

/// What a request leads to: the state of the server, the key of the device that it
/// is for, and the next step.
pub open spec fn request_step(s: ServerView, req: RequestView) -> (
    ServerView,
    Option<u64>,
    StepView,
) {
    let lost = StepView::Respond(full(404, "REST object not found"@));
    if req.leaf(2) {
        (s, None, StepView::Respond(full(404, "No API version selected."@)))
    } else if req.at(2) != "v1"@ {
        (s, None, StepView::Respond(full(404, "API version not supported"@)))
    } else if req.leaf(3) {
        (s, None, StepView::Respond(document(JsonTree::Object(greeting(s.git_version)))))
    } else if req.at(3) == "devices"@ {
        if req.leaf(4) {
            (
                s,
                None,
                StepView::Respond(
                    document(JsonTree::Object(crate::device::entries(s.devices))),
                ),
            )
        } else {
            match s.named(req.at(4)) {
                Some(key) => match s.at(key) {
                    Some(i) => match s.devices[i].dev {
                        AnyView::Streaming(d) => {
                            let (e, step) = device_step(d, req, 5);
                            (
                                s.with_device(i, AnyView::Streaming(e)),
                                Some(key),
                                step.unwrap_or(lost),
                            )
                        },
                        _ => (s, None, lost),
                    },
                    None => (s, None, lost),
                },
                None => (s, None, lost),
            }
        }
    } else {
        (s, None, lost)
    }
}

/// What holds of a step that is for the device with this key.
pub open spec fn request_fits(s: ServerView, key: Option<u64>, step: RestStep) -> bool {
    match key {
        Some(k) => s.at(k) is Some && (s.devices[s.at(k)->Some_0].dev matches AnyView::Streaming(d)
            && step_fits(Some(step), d)),
        None => step is Respond,
    }
}

/// Handles a request whose path starts with `rest`. A step that is not a response
/// is for the device with the key that is returned.
pub fn handle_json_request(state: &mut ServerState, req: &RestRequest) -> (r: (
    Option<u64>,
    RestStep,
))
    requires
        old(state).wf(),
    ensures
        (final(state)@, r.0, r.1@) == request_step(old(state)@, req@),
        request_fits(final(state)@, r.0, r.1),
        final(state).wf(),
{
    let ghost before = state@;
    if req.leaf(2) {
        return (None, RestStep::Respond(RestResponse::full(404, "No API version selected.")));
    }
    if !same(req.part(2), "v1") {
        return (None, RestStep::Respond(RestResponse::full(404, "API version not supported")));
    }
    if req.leaf(3) {
        let mut n: Vec<(String, Json)> = Vec::new();
        put_greeting(&mut n, state.git_version.as_str());
        assert(members(n@) =~= greeting(before.git_version));
        return (None, RestStep::Respond(RestResponse::json(Json::Object(n))));
    }
    let lost = RestStep::Respond(RestResponse::full(404, "REST object not found"));
    if !same(req.part(3), "devices") {
        return (None, lost);
    }
    if req.leaf(4) {
        return (None, RestStep::Respond(RestResponse::json(state.devices_json())));
    }
    let key = match state.device_by_id(req.part(4)) {
        Some(key) => key,
        None => return (None, lost),
    };
    let i = match state.find(key) {
        Some(i) => i,
        None => return (None, lost),
    };
    assert(before.devices[i as int] == state.devices@[i as int]@);
    assert(before.devices[i as int].dev.wf());
    let streaming = match &state.devices[i].dev {
        AnyDevice::Streaming(_) => true,
        _ => false,
    };
    if !streaming {
        return (None, lost);
    }
    let step = match &mut state.devices[i].dev {
        AnyDevice::Streaming(d) => d.device_rest(req, 5),
        _ => None,
    };
    proof {
        let d = before.devices[i as int].dev->Streaming_0;
        let e = AnyView::Streaming(device_step(d, req@, 5).0);
        assert(state@.devices =~= before.with_device(i as int, e).devices);
        crate::device::lemma_update_keeps(before, state@, i as int);
        crate::device::lemma_same_place(before.devices, state@.devices, key);
    }
    match step {
        Some(s) => (Some(key), s),
        None => (Some(key), lost),
    }
}

} // verus!
