//! What a command of a client leads to.

use crate::config::ConfigRequest;
use crate::effect::{ControlRequest, ControlView};
use crate::float::Double;
use crate::jsonutil::{
    add_element, members, put, put_number, put_text, string_at, trees, Json, JsonTree, Number,
};
use crate::source::{OutputSource, SourceView};
use crate::state::text;
use vstd::prelude::*;
use vstd::string::*;

verus! {

/// The form of the answer to a command that goes to the hardware.
#[derive(Clone, Copy, Debug, PartialEq, Eq, Structural)]
pub enum Answer {
    /// That it is done.
    Done,
    /// The status of the transfer.
    Status,
    /// The bytes that came, and the status.
    Transfer,
    /// What the power supply says. The bit tells of too much current.
    Power { alert_bit: u8 },
    /// A temperature for either channel.
    Temperature,
    /// A check sum.
    Crc,
    /// What came of a bulk transfer.
    Result,
}

/// Control transfers whose outcome makes the answer to a command.
#[derive(Debug)]
pub struct Ask {
    pub client: u64,
    pub id: i64,
    pub answer: Answer,
    pub requests: Vec<ControlRequest>,
    /// What is to be written in bulk after the control transfers, if anything.
    pub bulk: Option<Vec<u8>>,
}

#[verifier::ext_equal]
pub ghost struct AskView {
    pub client: u64,
    pub id: i64,
    pub answer: Answer,
    pub requests: Seq<ControlView>,
    pub bulk: Option<Seq<u8>>,
}

pub open spec fn request_views(v: Seq<ControlRequest>) -> Seq<ControlView> {
    v.map_values(|r: ControlRequest| r@)
}

impl View for Ask {
    type V = AskView;

    open spec fn view(&self) -> AskView {
        AskView {
            client: self.client,
            id: self.id,
            answer: self.answer,
            requests: request_views(self.requests@),
            bulk: match self.bulk {
                Some(b) => Some(b@),
                None => None,
            },
        }
    }
}

/// What a command leads to.
#[derive(Debug)]
pub enum Outcome {
    /// There is no such command.
    Unknown,
    /// All is done.
    Handled,
    /// The last listener is new and has to be polled.
    Listening,
    /// `configure` is to be called.
    Configure(ConfigRequest),
    /// `set_output` is to be called.
    Output { chan: usize, source: OutputSource },
    /// `set_gain` is to be called, with `gain` in terms of the device.
    Gain { chan: usize, stream: usize, gain: Double },
    /// The hardware is to be asked.
    Ask(Ask),
}

pub ghost enum OutcomeView {
    Unknown,
    Handled,
    Listening,
    Configure(ConfigRequest),
    Output { chan: int, source: SourceView },
    Gain { chan: int, stream: int, gain: Double },
    Ask(AskView),
}

impl View for Outcome {
    type V = OutcomeView;

    open spec fn view(&self) -> OutcomeView {
        match *self {
            Outcome::Unknown => OutcomeView::Unknown,
            Outcome::Handled => OutcomeView::Handled,
            Outcome::Listening => OutcomeView::Listening,
            Outcome::Configure(r) => OutcomeView::Configure(r),
            Outcome::Output { chan, source } => OutcomeView::Output {
                chan: chan as int,
                source: source@,
            },
            Outcome::Gain { chan, stream, gain } => OutcomeView::Gain {
                chan: chan as int,
                stream: stream as int,
                gain,
            },
            Outcome::Ask(a) => OutcomeView::Ask(a@),
        }
    }
}

/// Whether an outcome is done or asks the hardware at least one thing.
pub open spec fn done_or_asking(r: Result<Outcome, crate::jsonutil::Error>) -> bool {
    match r {
        Ok(Outcome::Unknown) => true,
        Ok(Outcome::Handled) => true,
        Ok(Outcome::Ask(a)) => a.requests.len() >= 1,
        Ok(_) => false,
        Err(_) => true,
    }
}

/// The string `prop`, or the complaint that there is none.
pub open spec fn string_needed(n: JsonTree, prop: Seq<char>) -> Result<Seq<char>, Seq<char>> {
    match string_at(n, prop) {
        Some(s) => Ok(s),
        None => Err("JSON missing string property: "@ + prop),
    }
}

/// The members of an answer.
pub open spec fn answer_members(id: i64, extra: Seq<(Seq<char>, JsonTree)>) -> Seq<
    (Seq<char>, JsonTree),
> {
    seq![text("_action"@, "return"@), ("id"@, JsonTree::Number(Number::Signed(id)))] + extra
}

/// An answer.
pub open spec fn returned(id: i64, extra: Seq<(Seq<char>, JsonTree)>) -> JsonTree {
    JsonTree::Object(answer_members(id, extra))
}

/// The start of an answer.
pub fn answer_to(id: i64) -> (r: Vec<(String, Json)>)
    ensures
        members(r@) == answer_members(id, seq![]),
{
    let mut n: Vec<(String, Json)> = Vec::new();
    put_text(&mut n, "_action", "return");
    put_number(&mut n, "id", Number::Signed(id));
    assert(members(n@) =~= answer_members(id, seq![]));
    n
}

/// An answer with one member.
pub fn answer_with(id: i64, key: &str, value: Json) -> (r: Json)
    ensures
        r@ == returned(id, seq![(key@, value@)]),
{
    let mut n = answer_to(id);
    put(&mut n, key, value);
    assert(members(n@) =~= answer_members(id, seq![(key@, value@)]));
    Json::Object(n)
}

/// Bytes as numbers.
pub open spec fn byte_trees(b: Seq<u8>) -> Seq<JsonTree> {
    b.map_values(|x: u8| JsonTree::Number(Number::Unsigned(x as u64)))
}

pub fn bytes_json(b: &Vec<u8>) -> (r: Json)
    ensures
        r@ == JsonTree::Array(byte_trees(b@)),
{
    let mut a: Vec<Json> = Vec::new();
    let mut i: usize = 0;
    assert(trees(a@) =~= byte_trees(b@.take(0)));
    while i < b.len()
        invariant
            i <= b.len(),
            trees(a@) == byte_trees(b@.take(i as int)),
        decreases b.len() - i,
    {
        add_element(&mut a, Json::Number(Number::Unsigned(b[i] as u64)));
        assert(trees(a@) =~= byte_trees(b@.take(i + 1)));
        i += 1;
    }
    assert(b@.take(i as int) =~= b@);
    Json::Array(a)
}

} // verus!
