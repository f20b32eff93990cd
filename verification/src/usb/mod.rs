//! The USB devices.

pub mod bootloader;
pub mod cee;
pub mod discovery;
pub mod m1k;
pub mod transfer;

use crate::command::{
    answer_to, answer_with, byte_trees, bytes_json, done_or_asking, request_views, returned, Answer,
    Ask, AskView, Outcome, OutcomeView,
};
use crate::effect::{
    ask, asked, effects, enqueue, reply_views, ControlReply, ControlRequest, ControlView, Effect,
    EffectView, ReplyView,
};
use crate::jsonutil::{
    field, int_at, json_int_prop, json_int_prop_def, lemma_trees_at, members, number_of, put,
    put_bool, put_number, tree, trees, Error, Json, JsonTree, Number,
};
use crate::source::int_needed;
use crate::state::{natural, truth};
use crate::text::{characters, chars_of, lossy, plain, same, text_of, text_of_bytes};
use vstd::prelude::*;
use vstd::string::*;
use vstd::utf8::encode_utf8;

verus! {

/// How many bytes come before the first zero.
pub open spec fn until_zero(b: Seq<u8>) -> int
    decreases b.len(),
{
    if b.len() == 0 || b[0] == 0 {
        0
    } else {
        1 + until_zero(b.drop_first())
    }
}

/// The text in front of the first zero byte: ASCII bytes are their own characters.
pub open spec fn terminated(b: Seq<u8>) -> Seq<char> {
    let t = b.take(until_zero(b));
    if plain(t) {
        characters(t)
    } else {
        lossy(t)
    }
}

/// Whether `s` is the text in front of the first zero byte as far as that is known
/// without a replacement: ASCII bytes are their own characters, and UTF-8 is the text
/// that it encodes.
pub open spec fn reads(b: Seq<u8>, s: Seq<char>) -> bool {
    let t = b.take(until_zero(b));
    &&& plain(t) ==> s == characters(t)
    &&& forall|u: Seq<char>| #[trigger] encode_utf8(u) == t ==> s == u
}

proof fn lemma_until_zero(b: Seq<u8>, n: int)
    requires
        0 <= n <= b.len(),
        forall|i: int| 0 <= i < n ==> b[i] != 0,
        n == b.len() || b[n] == 0,
    ensures
        until_zero(b) == n,
    decreases b.len(),
{
    if n > 0 {
        assert(b[0] != 0);
        lemma_until_zero(b.drop_first(), n - 1);
    }
}

/// The text in `b[from..to]` in front of the first zero byte.
pub fn text_until_zero(b: &[u8], from: usize, to: usize) -> (r: String)
    requires
        from <= to <= b.len(),
    ensures
        r@ == terminated(b@.subrange(from as int, to as int)),
        reads(b@.subrange(from as int, to as int), r@),
{
    let mut text: Vec<u8> = Vec::new();
    let mut i: usize = from;
    let ghost d = b@.subrange(from as int, to as int);
    while i < to && b[i] != 0
        invariant
            from <= i <= to <= b.len(),
            d == b@.subrange(from as int, to as int),
            text@ == d.take(i - from),
            forall|j: int| 0 <= j < i - from ==> d[j] != 0,
        decreases to - i,
    {
        text.push(b[i]);
        i += 1;
        assert(text@ =~= d.take(i - from));
    }
    proof {
        lemma_until_zero(d, i - from);
    }
    text_of_bytes(text.as_slice())
}

/// The text that a device answered with: nothing where the transfer failed.
pub open spec fn text_told(r: ReplyView) -> Seq<char> {
    if r.status < 0 {
        Seq::empty()
    } else {
        terminated(r.data)
    }
}

/// Reads the text that a device answered with.
pub fn read_string(reply: &ControlReply) -> (r: String)
    ensures
        r@ == text_told(reply@),
        reply.status >= 0 ==> reads(reply.data@, r@),
{
    if reply.status < 0 {
        return String::new();
    }
    assert(reply.data@.subrange(0, reply.data@.len() as int) =~= reply.data@);
    text_until_zero(reply.data.as_slice(), 0, reply.data.len())
}

// ---- telling devices apart ----

/// The devices that are served.
#[derive(Clone, Copy, Debug, PartialEq, Eq, Structural)]
pub enum Kind {
    Cee,
    M1k,
    Bootloader,
}

/// What the device with this vendor and product id is.
pub open spec fn kind_of_ids(vid: u16, pid: u16) -> Option<Kind> {
    if (vid == 0x59e3 || vid == 0x9999) && pid == 0xCEE1 {
        Some(Kind::Cee)
    } else if vid == 0x59e3 && (pid == 0xBBBB || pid == 0xb003) {
        Some(Kind::Bootloader)
    } else if (vid == 0x0456 && pid == 0xCEE2) || (vid == 0x064B && pid == 0x784C) {
        Some(Kind::M1k)
    } else {
        None
    }
}

pub fn device_kind(vid: u16, pid: u16) -> (r: Option<Kind>)
    ensures
        r == kind_of_ids(vid, pid),
{
    if (vid == 0x59e3 || vid == 0x9999) && pid == 0xCEE1 {
        Some(Kind::Cee)
    } else if vid == 0x59e3 && (pid == 0xBBBB || pid == 0xb003) {
        Some(Kind::Bootloader)
    } else if (vid == 0x0456 && pid == 0xCEE2) || (vid == 0x064B && pid == 0x784C) {
        Some(Kind::M1k)
    } else {
        None
    }
}

/// A text without zero characters at its end.
pub open spec fn trimmed(s: Seq<char>) -> Seq<char>
    decreases s.len(),
{
    if s.len() > 0 && s.last() == '\0' {
        trimmed(s.drop_last())
    } else {
        s
    }
}

/// The serial number of a device, from its descriptor.
pub fn serial_text(descriptor: Option<&str>) -> (r: String)
    ensures
        r@ == (match descriptor {
            Some(s) => trimmed(s@),
            None => "0"@,
        }),
{
    match descriptor {
        None => "0".to_owned(),
        Some(s) => {
            let chars = chars_of(s);
            let mut n: usize = chars.len();
            assert(s@.take(n as int) =~= s@);
            while n > 0 && chars[n - 1] == '\0'
                invariant
                    n <= chars.len(),
                    chars@ == s@,
                    trimmed(s@.take(n as int)) == trimmed(s@),
                decreases n,
            {
                assert(s@.take(n as int).drop_last() =~= s@.take(n - 1));
                n -= 1;
            }
            assert(s@.take(n as int) =~= s@.subrange(0, n as int));
            text_of(&chars, 0, n)
        },
    }
}

/// Whose request a control transfer is.
#[derive(Clone, Copy, Debug, PartialEq, Eq, Structural)]
pub enum ControlType {
    Standard,
    Class,
    Vendor,
}

/// What of a device a control transfer is for.
#[derive(Clone, Copy, Debug, PartialEq, Eq, Structural)]
pub enum Recipient {
    Device,
    Interface,
    Endpoint,
    Other,
}

/// Takes the type of a request apart: two bits from the fifth on say whose it
/// is, the five below what it is for.
pub fn decompose(bm_request_type: u8) -> (r: (ControlType, Recipient))
    ensures
        r.0 == (if (bm_request_type / 32) % 4 == 0 {
            ControlType::Standard
        } else if (bm_request_type / 32) % 4 == 1 {
            ControlType::Class
        } else {
            ControlType::Vendor
        }),
        r.1 == (if bm_request_type % 32 == 0 {
            Recipient::Device
        } else if bm_request_type % 32 == 1 {
            Recipient::Interface
        } else if bm_request_type % 32 == 2 {
            Recipient::Endpoint
        } else {
            Recipient::Other
        }),
{
    let ct = match (bm_request_type / 32) % 4 {
        0 => ControlType::Standard,
        1 => ControlType::Class,
        _ => ControlType::Vendor,
    };
    let rc = match bm_request_type % 32 {
        0 => Recipient::Device,
        1 => Recipient::Interface,
        2 => Recipient::Endpoint,
        _ => Recipient::Other,
    };
    (ct, rc)
}

// ---- commands of all devices ----

/// The bytes that a document names: the numbers of an array, or the characters
/// of a string.
pub open spec fn payload(t: JsonTree) -> Seq<u8> {
    match t {
        JsonTree::Array(a) => a.map_values(
            |x: JsonTree|
                match number_of(x) {
                    Some(d) => d.integer() as u8,
                    None => 0u8,
                },
        ),
        JsonTree::Str(s) => encode_utf8(s),
        _ => Seq::empty(),
    }
}

fn payload_of(j: &Json) -> (r: Vec<u8>)
    ensures
        r@ == payload(j@),
{
    let mut r: Vec<u8> = Vec::new();
    match j {
        Json::Array(a) => {
            let mut i: usize = 0;
            proof {
                lemma_trees_at(a@);
            }
            while i < a.len()
                invariant
                    i <= a.len(),
                    trees(a@).len() == a.len(),
                    j@ == JsonTree::Array(trees(a@)),
                    forall|k: int| 0 <= k < a.len() ==> #[trigger] trees(a@)[k] == tree(a@[k]),
                    r@ == payload(j@).take(i as int),
                decreases a.len() - i,
            {
                let x: u8 = match a[i].number() {
                    Some(d) => #[verifier::truncate]
                    (d.to_int() as u8),
                    None => 0,
                };
                r.push(x);
                assert(trees(a@)[i as int] == a@[i as int]@);
                i += 1;
                assert(r@ =~= payload(j@).take(i as int));
            }
            assert(r@ =~= payload(j@));
        },
        Json::Str(s) => {
            let b = s.as_str().as_bytes();
            let mut i: usize = 0;
            while i < b.len()
                invariant
                    i <= b.len(),
                    r@ == b@.take(i as int),
                decreases b.len() - i,
            {
                r.push(b[i]);
                i += 1;
                assert(r@ =~= b@.take(i as int));
            }
            assert(r@ =~= b@);
        },
        _ => {},
    }
    r
}

/// `x` between `a` and `b`.
pub open spec fn clamped(x: i64, a: i64, b: i64) -> i64 {
    if x < a {
        a
    } else if x > b {
        b
    } else {
        x
    }
}

/// The transfer that `controlTransfer` asks for, or what is wrong.
pub open spec fn transfer_wanted(n: JsonTree) -> Result<ControlView, Seq<char>> {
    let request_type = int_at(n, "bmRequestType"@).unwrap_or(0xC0) as u8;
    let value = int_at(n, "wValue"@).unwrap_or(0) as u16;
    let index = int_at(n, "wIndex"@).unwrap_or(0) as u16;
    match int_needed(n, "bRequest"@) {
        Err(m) => Err(m),
        Ok(request) => if request_type >= 0x80 {
            Ok(
                ControlView {
                    request_type,
                    request: request as u8,
                    value,
                    index,
                    length: clamped(int_at(n, "wLength"@).unwrap_or(64), 0, 64) as u16,
                    data: Seq::empty(),
                },
            )
        } else {
            match field(n, "data"@) {
                None => Err("JSON missing property: data"@),
                Some(t) => Ok(
                    ControlView {
                        request_type,
                        request: request as u8,
                        value,
                        index,
                        length: 0,
                        data: payload(t),
                    },
                ),
            }
        },
    }
}

/// What the commands that every USB device knows lead to: effects, and an
/// outcome or what is wrong.
pub open spec fn usb_command(client: u64, cmd: Seq<char>, n: JsonTree) -> (
    Seq<EffectView>,
    Result<OutcomeView, Seq<char>>,
) {
    if cmd == "controlTransfer"@ {
        match transfer_wanted(n) {
            Err(m) => (seq![], Err(m)),
            Ok(c) => (
                seq![],
                Ok(
                    OutcomeView::Ask(
                        AskView {
                            client,
                            id: int_at(n, "id"@).unwrap_or(0),
                            answer: Answer::Transfer,
                            requests: seq![c],
                            bulk: None,
                        },
                    ),
                ),
            ),
        }
    } else if cmd == "enterBootloader"@ {
        (seq![EffectView::Control(asked(0xBB, 0, 0, 100))], Ok(OutcomeView::Handled))
    } else {
        (seq![], Ok(OutcomeView::Unknown))
    }
}

/// An `Ask` of one transfer.
pub fn ask_one(client: u64, id: i64, answer: Answer, request: ControlRequest) -> (r: Ask)
    ensures
        r@ == (AskView { client, id, answer, requests: seq![request@], bulk: None }),
        r.requests.len() == 1,
{
    let mut requests: Vec<ControlRequest> = Vec::new();
    requests.push(request);
    assert(request_views(requests@) =~= seq![request@]);
    Ask { client, id, answer, requests, bulk: None }
}

fn wanted_transfer(n: &Json) -> (r: Result<ControlRequest, Error>)
    ensures
        match r {
            Ok(c) => transfer_wanted(n@) == Ok::<ControlView, Seq<char>>(c@),
            Err(e) => transfer_wanted(n@) == Err::<ControlView, Seq<char>>(e@),
        },
{
    let request_type: u8 = #[verifier::truncate]
    (json_int_prop_def(n, "bmRequestType", 0xC0) as u8);
    let request: u8 = match json_int_prop(n, "bRequest") {
        Ok(i) => #[verifier::truncate]
        (i as u8),
        Err(e) => return Err(e),
    };
    let value: u16 = #[verifier::truncate]
    (json_int_prop_def(n, "wValue", 0) as u16);
    let index: u16 = #[verifier::truncate]
    (json_int_prop_def(n, "wIndex", 0) as u16);
    if request_type >= 0x80 {
        let wanted = json_int_prop_def(n, "wLength", 64);
        let length: u16 = if wanted < 0 {
            0
        } else if wanted > 64 {
            64
        } else {
            wanted as u16
        };
        let data: Vec<u8> = Vec::new();
        assert(data@ =~= Seq::empty());
        Ok(ControlRequest { request_type, request, value, index, length, data })
    } else {
        match n.get("data") {
            None => Err(Error::new("JSON missing property: data")),
            Some(j) => Ok(
                ControlRequest { request_type, request, value, index, length: 0, data: payload_of(j) },
            ),
        }
    }
}

/// Handles the commands that every USB device knows.
pub fn handle_usb_message(out: &mut Vec<Effect>, client: u64, cmd: &str, n: &Json) -> (r: Result<
    Outcome,
    Error,
>)
    ensures
        effects(final(out)@) == effects(old(out)@) + usb_command(client, cmd@, n@).0,
        match r {
            Ok(o) => usb_command(client, cmd@, n@).1 == Ok::<OutcomeView, Seq<char>>(o@),
            Err(e) => usb_command(client, cmd@, n@).1 == Err::<OutcomeView, Seq<char>>(e@),
        },
        done_or_asking(r),
{
    assert(effects(out@) =~= effects(out@) + seq![]);
    if same(cmd, "controlTransfer") {
        match wanted_transfer(n) {
            Err(e) => Err(e),
            Ok(c) => {
                let id = json_int_prop_def(n, "id", 0);
                Ok(Outcome::Ask(ask_one(client, id, Answer::Transfer, c)))
            },
        }
    } else if same(cmd, "enterBootloader") {
        enqueue(out, Effect::Control(ask(0xBB, 0, 0, 100)));
        assert(effects(out@) =~= effects(old(out)@) + seq![
            EffectView::Control(asked(0xBB, 0, 0, 100)),
        ]);
        Ok(Outcome::Handled)
    } else {
        Ok(Outcome::Unknown)
    }
}

// ---- answers ----

/// The reply at `i`; a failed one where there is none.
pub open spec fn reply_at(v: Seq<ReplyView>, i: int) -> ReplyView {
    if 0 <= i < v.len() {
        v[i]
    } else {
        ReplyView { status: (-1) as i32, data: Seq::empty() }
    }
}

/// The byte at `i`, or zero.
pub open spec fn byte_at(b: Seq<u8>, i: int) -> u8 {
    if 0 <= i < b.len() {
        b[i]
    } else {
        0
    }
}

/// A member that is a number with sign.
pub open spec fn signed(key: Seq<char>, value: i64) -> (Seq<char>, JsonTree) {
    (key, JsonTree::Number(Number::Signed(value)))
}

/// What the power supply says.
pub open spec fn power_tree(r: ReplyView, alert_bit: u8) -> JsonTree {
    if r.status >= 1 {
        JsonTree::Object(
            seq![
                natural("status_raw"@, byte_at(r.data, 0) as u64),
                natural("alert_bit"@, alert_bit as u64),
                truth("overcurrent"@, byte_at(r.data, 0) & alert_bit != 0),
            ],
        )
    } else {
        JsonTree::Object(
            seq![
                natural("status_raw"@, 0),
                natural("alert_bit"@, 0),
                truth("overcurrent"@, false),
                signed("error"@, r.status as i64),
            ],
        )
    }
}

/// A temperature, high byte first.
pub open spec fn temperature_of(r: ReplyView) -> u64 {
    if r.status >= 2 {
        (byte_at(r.data, 0) * 256 + byte_at(r.data, 1)) as u64
    } else {
        0
    }
}

pub open spec fn temperature_tree(v: Seq<ReplyView>) -> JsonTree {
    JsonTree::Object(
        seq![
            natural("a"@, temperature_of(reply_at(v, 0))),
            natural("b"@, temperature_of(reply_at(v, 1))),
        ],
    )
}

/// The levels of the pins.
pub open spec fn pins_tree(r: ReplyView) -> JsonTree {
    JsonTree::Object(
        seq![
            signed("status"@, r.status as i64),
            natural("in"@, byte_at(r.data, 0) as u64),
            natural("dir"@, byte_at(r.data, 1) as u64),
            natural("out"@, byte_at(r.data, 2) as u64),
        ],
    )
}

/// A check sum, low byte first.
pub open spec fn crc_of(r: ReplyView) -> u32 {
    if r.status >= 4 {
        (byte_at(r.data, 0) + 256 * byte_at(r.data, 1) + 0x1_0000 * byte_at(r.data, 2) + 0x100_0000
            * byte_at(r.data, 3)) as u32
    } else {
        0
    }
}

/// The answer to a command, from what came of its transfers. `bulk` is what came
/// of the bulk transfer.
pub open spec fn answer_of(a: AskView, v: Seq<ReplyView>, bulk: i32) -> JsonTree {
    let r = reply_at(v, 0);
    match a.answer {
        Answer::Done => returned(a.id, seq![]),
        Answer::Status => returned(a.id, seq![signed("status"@, r.status as i64)]),
        Answer::Transfer => returned(
            a.id,
            (if a.requests[0].request_type >= 0x80 && r.status >= 0 {
                seq![("data"@, JsonTree::Array(byte_trees(r.data)))]
            } else {
                seq![]
            }) + seq![signed("status"@, r.status as i64)],
        ),
        Answer::Power { alert_bit } => returned(a.id, seq![("power"@, power_tree(r, alert_bit))]),
        Answer::Temperature => returned(a.id, seq![("temperature"@, temperature_tree(v))]),
        Answer::Crc => returned(a.id, seq![natural("crc"@, crc_of(r) as u64)]),
        Answer::Result => returned(a.id, seq![signed("result"@, bulk as i64)]),
    }
}

fn byte_or_zero(b: &Vec<u8>, i: usize) -> (r: u8)
    ensures
        r == byte_at(b@, i as int),
{
    if i < b.len() {
        b[i]
    } else {
        0
    }
}

pub fn power_json(reply: &ControlReply, alert_bit: u8) -> (r: Json)
    ensures
        r@ == power_tree(reply@, alert_bit),
{
    let mut n: Vec<(String, Json)> = Vec::new();
    if reply.status >= 1 {
        let raw: u8 = byte_or_zero(&reply.data, 0);
        put_number(&mut n, "status_raw", Number::Unsigned(raw as u64));
        put_number(&mut n, "alert_bit", Number::Unsigned(alert_bit as u64));
        put_bool(&mut n, "overcurrent", raw & alert_bit != 0);
    } else {
        put_number(&mut n, "status_raw", Number::Unsigned(0));
        put_number(&mut n, "alert_bit", Number::Unsigned(0));
        put_bool(&mut n, "overcurrent", false);
        put_number(&mut n, "error", Number::Signed(reply.status as i64));
    }
    assert(members(n@) =~= power_tree(reply@, alert_bit)->Object_0);
    Json::Object(n)
}

fn temperature_at(replies: &Vec<ControlReply>, i: usize) -> (r: u64)
    ensures
        r == temperature_of(reply_at(reply_views(replies@), i as int)),
{
    if i < replies.len() {
        assert(reply_views(replies@)[i as int] == replies@[i as int]@);
        if replies[i].status >= 2 {
            return byte_or_zero(&replies[i].data, 0) as u64 * 256 + byte_or_zero(
                &replies[i].data,
                1,
            ) as u64;
        }
    }
    0
}

pub fn temperature_json(replies: &Vec<ControlReply>) -> (r: Json)
    ensures
        r@ == temperature_tree(reply_views(replies@)),
{
    let mut n: Vec<(String, Json)> = Vec::new();
    put_number(&mut n, "a", Number::Unsigned(temperature_at(replies, 0)));
    put_number(&mut n, "b", Number::Unsigned(temperature_at(replies, 1)));
    assert(members(n@) =~= temperature_tree(reply_views(replies@))->Object_0);
    Json::Object(n)
}

pub fn pins_json(reply: &ControlReply) -> (r: Json)
    ensures
        r@ == pins_tree(reply@),
{
    let mut n: Vec<(String, Json)> = Vec::new();
    put_number(&mut n, "status", Number::Signed(reply.status as i64));
    put_number(&mut n, "in", Number::Unsigned(byte_or_zero(&reply.data, 0) as u64));
    put_number(&mut n, "dir", Number::Unsigned(byte_or_zero(&reply.data, 1) as u64));
    put_number(&mut n, "out", Number::Unsigned(byte_or_zero(&reply.data, 2) as u64));
    assert(members(n@) =~= pins_tree(reply@)->Object_0);
    Json::Object(n)
}

fn crc_from(reply: &ControlReply) -> (r: u32)
    ensures
        r == crc_of(reply@),
{
    if reply.status >= 4 {
        byte_or_zero(&reply.data, 0) as u32 + 256 * byte_or_zero(&reply.data, 1) as u32 + 0x1_0000
            * byte_or_zero(&reply.data, 2) as u32 + 0x100_0000 * byte_or_zero(
            &reply.data,
            3,
        ) as u32
    } else {
        0
    }
}

/// Makes the answer to a command. There is one reply for each request.
pub fn answer(a: &Ask, replies: &Vec<ControlReply>, bulk: i32) -> (r: Json)
    requires
        a.requests.len() >= 1,
    ensures
        r@ == answer_of(a@, reply_views(replies@), bulk),
{
    let none = ControlReply { status: -1, data: Vec::new() };
    assert(none.data@ =~= Seq::empty());
    let first = if replies.len() > 0 {
        &replies[0]
    } else {
        &none
    };
    assert(first@ == reply_at(reply_views(replies@), 0));
    assert(a@.requests[0] == a.requests@[0]@);
    match a.answer {
        Answer::Done => Json::Object(answer_to(a.id)),
        Answer::Status => answer_with(
            a.id,
            "status",
            Json::Number(Number::Signed(first.status as i64)),
        ),
        Answer::Transfer => {
            let mut n = answer_to(a.id);
            if a.requests[0].request_type >= 0x80 && first.status >= 0 {
                put(&mut n, "data", bytes_json(&first.data));
            }
            put_number(&mut n, "status", Number::Signed(first.status as i64));
            assert(members(n@) =~= answer_of(a@, reply_views(replies@), bulk)->Object_0);
            Json::Object(n)
        },
        Answer::Power { alert_bit } => answer_with(a.id, "power", power_json(first, alert_bit)),
        Answer::Temperature => answer_with(a.id, "temperature", temperature_json(replies)),
        Answer::Crc => answer_with(a.id, "crc", Json::Number(Number::Unsigned(crc_from(first) as u64))),
        Answer::Result => answer_with(a.id, "result", Json::Number(Number::Signed(bulk as i64))),
    }
}

} // verus!
