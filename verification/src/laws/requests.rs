//! What holds of requests over plain HTTP: who may make them, where they lead, and what
//! forms and documents in them ask for.

use crate::config::ConfigRequest;
use crate::device::{AnyView, ServerView};
use crate::effect::ControlView;
use crate::float::Double;
use crate::form::plan_of;
use crate::jsonutil::{bool_at, parsed, JsonTree, Number};
use crate::laws::listening::{has, law_channel_has_the_name};
use crate::laws::numbers::law_low_bits_are_kept;
use crate::laws::settings::{vendor_in, vendor_out};
use crate::laws::texts::free_of;
use crate::net::{
    first_segment, home_host, host_char, local_host, of_host, service_of, trusted, Service,
};
use crate::rest::{
    capture_posted, complaint, configuration_posted, device_step, document, field_at, fields,
    first_fault, form_change, form_lights, gain_members, gains_response, gains_set, headings,
    input_wanted, m1k_rest, posted_calibration, request_step, rest_answer_of, sample_time_taken,
    BodyView, Field, GainField, RequestView, ResponseView, RestAnswerView, RestAskView, StepView,
};
use crate::source::{described, source_from};
use crate::streaming::{BackendView, DeviceView, StreamView};
use crate::text::{integer, is_digit};
use crate::usb::m1k::{
    alert_bit_of, calibration_from, channel_named, lights, lights_tree, number_members, M1kView,
};
use crate::ws::greeting;
use vstd::prelude::*;
use vstd::utf8::encode_utf8;

verus! {

// ---- who may ask ----

/// Pages of the local machine, at any port, and of hosts whose name ends in that of the
/// makers are trusted, by either protocol, and so is what has no origin.
pub proof fn law_trusted_pages(port: Seq<char>, prefix: Seq<char>)
    requires
        port.len() > 0,
        forall|i: int| 0 <= i < port.len() ==> '0' <= #[trigger] port[i] <= '9',
        forall|i: int| 0 <= i < prefix.len() ==> host_char(#[trigger] prefix[i]),
    ensures
        trusted(Seq::empty()),
        trusted("null"@),
        trusted("http://"@ + "localhost"@),
        trusted("https://"@ + "localhost"@),
        trusted("http://"@ + ("localhost:"@ + port)),
        trusted("https://"@ + ("localhost:"@ + port)),
        trusted("http://"@ + (prefix + "nonolithlabs.com"@)),
        trusted("https://"@ + (prefix + "nonolithlabs.com"@)),
{
    let a = "localhost:"@ + port;
    let b = prefix + "nonolithlabs.com"@;
    assert forall|i: int| 0 <= i < port.len() implies is_digit(#[trigger] port[i]) by {}
    assert(local_host(a));
    assert(home_host(b));
    assert(of_host("http://"@ + "localhost"@, "localhost"@));
    assert(of_host("https://"@ + "localhost"@, "localhost"@));
    assert(of_host("http://"@ + a, a));
    assert(of_host("https://"@ + a, a));
    assert(of_host("http://"@ + b, b));
    assert(of_host("https://"@ + b, b));
}

/// Whether a text ends in another.
pub open spec fn ends_in(s: Seq<char>, end: Seq<char>) -> bool {
    s.len() >= end.len() && s.skip(s.len() - end.len()) == end
}

/// No other pages are trusted: an origin that is has a protocol of the web, then
/// nothing but what a name of a host and a port are made of, and it ends in the name of
/// the makers or, as a name of the local machine does, in its name or a digit.
pub proof fn law_other_pages_are_not_trusted(origin: Seq<char>)
    requires
        trusted(origin),
        origin.len() > 0,
        origin != "null"@,
    ensures
        ({
            let k = if origin[4] == 's' {
                8int
            } else {
                7
            };
            &&& origin.len() > k
            &&& k == 7 ==> origin.take(7) == "http://"@
            &&& k == 8 ==> origin.take(8) == "https://"@
            &&& forall|i: int| k <= i < origin.len() ==> host_char(#[trigger] origin[i]) || origin[i]
                == ':'
            &&& ends_in(origin, "nonolithlabs.com"@) || (origin.subrange(k, k + 9) == "localhost"@
                && (origin.len() == k + 9 || (origin[k + 9] == ':' && origin.len() > k + 10 && (
            forall|i: int| k + 10 <= i < origin.len() ==> '0' <= #[trigger] origin[i] <= '9'))))
        }),
{
    reveal_strlit("http://");
    reveal_strlit("https://");
    reveal_strlit("localhost");
    reveal_strlit("localhost:");
    reveal_strlit("nonolithlabs.com");
    let host = choose|host: Seq<char>| #[trigger]
        of_host(origin, host) && (local_host(host) || home_host(host));
    let k = if origin == "https://"@ + host {
        8int
    } else {
        7
    };
    let scheme = if k == 8 {
        "https://"@
    } else {
        "http://"@
    };
    assert(origin == scheme + host);
    assert(origin.take(k) =~= scheme);
    assert(origin[4] == scheme[4]);
    assert(origin.skip(k) =~= host);
    if local_host(host) {
        lemma_local(host);
        assert(origin.subrange(k, k + 9) =~= host.take(9));
        assert forall|i: int| k <= i < origin.len() implies host_char(#[trigger] origin[i])
            || origin[i] == ':' by {
            assert(origin[i] == host[i - k]);
        }
        if host.len() > 9 {
            assert(origin[k + 9] == host[9]);
            assert forall|i: int| k + 10 <= i < origin.len() implies '0' <= #[trigger] origin[i]
                <= '9' by {
                assert(origin[i] == host[i - k]);
            }
        }
    } else {
        let prefix = choose|prefix: Seq<char>|
            {
                &&& #[trigger] (prefix + "nonolithlabs.com"@) == host
                &&& forall|i: int| 0 <= i < prefix.len() ==> host_char(#[trigger] prefix[i])
            };
        assert(prefix + "nonolithlabs.com"@ == host);
        assert(origin.skip(origin.len() - 16) =~= "nonolithlabs.com"@);
        assert forall|i: int| k <= i < origin.len() implies host_char(#[trigger] origin[i])
            || origin[i] == ':' by {
            assert(origin[i] == host[i - k]);
            if i - k < prefix.len() {
                assert(host[i - k] == prefix[i - k]);
            } else {
                assert(host[i - k] == "nonolithlabs.com"@[i - k - prefix.len()]);
            }
        }
    }
}

proof fn lemma_local(host: Seq<char>)
    requires
        local_host(host),
    ensures
        host.len() >= 9,
        host.take(9) == "localhost"@,
        host.len() > 9 ==> host[9] == ':' && host.len() > 10,
        forall|i: int| 10 <= i < host.len() ==> '0' <= #[trigger] host[i] <= '9',
        forall|i: int| 0 <= i < host.len() ==> host_char(#[trigger] host[i]) || host[i] == ':',
{
    reveal_strlit("localhost");
    reveal_strlit("localhost:");
    if host == "localhost"@ {
        assert(host.take(9) =~= "localhost"@);
    } else {
        let port = choose|port: Seq<char>|
            {
                &&& #[trigger] ("localhost:"@ + port) == host
                &&& port.len() > 0
                &&& forall|i: int| 0 <= i < port.len() ==> is_digit(#[trigger] port[i])
            };
        assert("localhost:"@ + port == host);
        assert(host.take(9) =~= "localhost"@);
        assert forall|i: int| 10 <= i < host.len() implies '0' <= #[trigger] host[i] <= '9' by {
            assert(host[i] == port[i - 10]);
            assert(is_digit(port[i - 10]));
        }
        assert forall|i: int| 0 <= i < host.len() implies host_char(#[trigger] host[i]) || host[i]
            == ':' by {
            if i < 10 {
                assert(host[i] == "localhost:"@[i]);
            }
        }
    }
}

/// The first part of a path is what stands after its slashes and before the next slash
/// or the query.
pub proof fn law_first_part_of_a_path(slashes: nat, word: Seq<char>, rest: Seq<char>)
    requires
        word.len() > 0,
        free_of(word, '/'),
        free_of(word, '?'),
        rest.len() > 0 ==> rest[0] == '/' || rest[0] == '?',
    ensures
        first_segment(Seq::new(slashes, |i: int| '/') + word + rest) == word,
    decreases slashes,
{
    let s = Seq::new(slashes, |i: int| '/') + word + rest;
    if slashes > 0 {
        law_first_part_of_a_path((slashes - 1) as nat, word, rest);
        assert(s.drop_first() =~= Seq::new((slashes - 1) as nat, |i: int| '/') + word + rest);
        assert(s[0] == '/');
    } else {
        assert(s =~= word + rest);
        assert(s[0] == word[0]);
        lemma_before_mark(word, rest);
    }
}

proof fn lemma_before_mark(word: Seq<char>, rest: Seq<char>)
    requires
        free_of(word, '/'),
        free_of(word, '?'),
        rest.len() > 0 ==> rest[0] == '/' || rest[0] == '?',
    ensures
        crate::net::before_mark(word + rest) == word,
    decreases word.len(),
{
    let s = word + rest;
    if word.len() > 0 {
        let w = word.drop_first();
        assert forall|i: int| 0 <= i < w.len() implies #[trigger] w[i] != '/' && w[i] != '?' by {
            assert(w[i] == word[i + 1]);
        }
        lemma_before_mark(w, rest);
        assert(s.drop_first() =~= w + rest);
        assert(s[0] == word[0]);
        assert(seq![word[0]] + w =~= word);
    } else {
        assert(s =~= rest);
        assert(crate::net::before_mark(s) =~= word);
    }
}

/// A request that is not refused for its origin is for the interface if its path starts
/// so, is sent on if it has no path, and is for nothing otherwise; and with every origin
/// allowed none is refused.
pub proof fn law_service_by_path(allow: bool, origin: Seq<char>, target: Seq<char>)
    requires
        allow || trusted(origin),
    ensures
        service_of(allow, origin, target) == Service::Redirect <==> first_segment(target).len()
            == 0,
        service_of(allow, origin, target) == Service::Rest <==> first_segment(target) == "rest"@,
        service_of(allow, origin, target) != Service::Refuse,
{
    reveal_strlit("rest");
}

// ---- where requests lead ----

/// What stands at the head of the interface: a request without a version, or with
/// another one than the first, is not found; the version alone greets; and the list has
/// the devices.
pub proof fn law_head_of_the_interface(s: ServerView, req: RequestView)
    ensures
        ({
            let (t, key, step) = request_step(s, req);
            let r = step->Respond_0;
            &&& req.parts.len() <= 2 ==> t == s && step is Respond && r.status == 404 && r.body
                == BodyView::Full("No API version selected."@)
            &&& req.parts.len() > 2 && req.parts[2] != "v1"@ ==> t == s && step is Respond
                && r.status == 404 && r.body == BodyView::Full("API version not supported"@)
            &&& req.parts.len() == 3 && req.parts[2] == "v1"@ ==> t == s && step is Respond
                && r.status == 200 && r.body == BodyView::Document(
                JsonTree::Object(greeting(s.git_version)),
            )
            &&& req.parts.len() == 4 && req.parts[2] == "v1"@ && req.parts[3] == "devices"@ ==> t
                == s && step is Respond && r.status == 200 && r.body == BodyView::Document(
                JsonTree::Object(crate::device::entries(s.devices)),
            )
            &&& req.parts.len() > 3 && req.parts[2] == "v1"@ && req.parts[3] != "devices"@ ==> t
                == s && step is Respond && r.status == 404 && r.body == BodyView::Full(
                "REST object not found"@,
            )
        }),
{
}

/// A request for a device goes to the device that its path names, and what it does not
/// have is not found.
pub proof fn law_requests_reach_their_device(
    s: ServerView,
    req: RequestView,
    key: u64,
    i: int,
    d: DeviceView,
)
    requires
        req.parts.len() > 4,
        req.parts[2] == "v1"@,
        req.parts[3] == "devices"@,
        s.named(req.parts[4]) == Some(key),
        s.at(key) == Some(i),
        0 <= i < s.devices.len(),
        s.devices[i].dev == AnyView::Streaming(d),
    ensures
        ({
            let (t, to, step) = request_step(s, req);
            let (e, found) = device_step(d, req, 5);
            &&& to == Some(key)
            &&& t.devices[i].dev == AnyView::Streaming(e)
            &&& found matches Some(f) ==> step == f
            &&& found is None ==> step is Respond && step->Respond_0 == (ResponseView {
                status: 404,
                body: BodyView::Full("REST object not found"@),
            })
        }),
{
}

/// Lengths and first letters of the parts of paths.
proof fn lemma_part_words()
    ensures
        "frontend"@.len() == 8,
        "power"@.len() == 5,
        "temperature"@.len() == 11 && "temperature"@[0] == 't',
        "leds"@.len() == 4,
        "calibration"@.len() == 11 && "calibration"@[0] == 'c',
        "serial"@.len() == 6,
        "gpio"@.len() == 4 && "gpio"@[0] == 'g',
        "configuration"@.len() == 13,
        "output"@.len() == 6 && "output"@[0] == 'o',
        "input"@.len() == 5 && "input"@[0] == 'i',
        "a"@.len() == 1 && "a"@[0] == 'a',
        "b"@.len() == 1 && "b"@[0] == 'b',
{
    reveal_strlit("frontend");
    reveal_strlit("power");
    reveal_strlit("temperature");
    reveal_strlit("leds");
    reveal_strlit("calibration");
    reveal_strlit("serial");
    reveal_strlit("gpio");
    reveal_strlit("configuration");
    reveal_strlit("output");
    reveal_strlit("input");
    reveal_strlit("a");
    reveal_strlit("b");
}

/// Where a path names nothing of the hardware, it names what all devices have.
proof fn lemma_not_hardware(d: DeviceView, req: RequestView)
    requires
        req.parts.len() <= 5 || req.parts[5] == "configuration"@ || req.parts[5] == "a"@
            || req.parts[5] == "b"@,
    ensures
        device_step(d, req, 5) == crate::rest::common_step(d, req, 5),
{
    lemma_part_words();
    reveal(m1k_rest);
}

/// A request for a device itself answers its state; a form in it starts or pauses the
/// capture first.
pub proof fn law_request_for_a_device(d: DeviceView, req: RequestView)
    requires
        req.parts.len() == 5,
    ensures
        ({
            let (e, step) = device_step(d, req, 5);
            &&& step == Some(
                StepView::Respond(
                    ResponseView { status: 200, body: BodyView::Document(e.state(false)) },
                ),
            )
            &&& req.method != "POST"@ ==> e == d
            &&& req.method == "POST"@ ==> e == capture_posted(d, req.body)
        }),
{
    lemma_not_hardware(d, req);
}

/// The words that start and pause a capture; others, and documents, do neither.
pub proof fn law_words_that_switch_captures(d: DeviceView, body: Seq<char>)
    requires
        body.len() > 0 ==> body[0] != '{',
    ensures
        ({
            let word = field_at(fields(body), "capture"@);
            let on = word == Some("true"@) || word == Some("on"@) || word == Some("1"@);
            let off = word == Some("false"@) || word == Some("off"@) || word == Some("0"@);
            &&& on ==> capture_posted(d, body) == d.started()
            &&& off ==> capture_posted(d, body) == d.paused()
            &&& !on && !off ==> capture_posted(d, body) == d
        }),
{
    reveal_strlit("true");
    reveal_strlit("on");
    reveal_strlit("1");
    reveal_strlit("false");
    reveal_strlit("off");
    reveal_strlit("0");
    assert("0"@[0] != "1"@[0]);
    assert("true"@.len() == 4 && "on"@.len() == 2 && "1"@.len() == 1);
    assert("false"@.len() == 5 && "off"@.len() == 3 && "0"@.len() == 1);
}

/// A request for the configuration answers it; a form in it asks for the numbers in its
/// fields.
pub proof fn law_request_for_the_configuration(d: DeviceView, req: RequestView)
    requires
        req.parts.len() > 5,
        req.parts[5] == "configuration"@,
    ensures
        ({
            let (e, step) = device_step(d, req, 5);
            let form = req.method == "POST"@ && !(req.body.len() > 0 && req.body[0] == '{');
            let m = fields(req.body);
            &&& e == d
            &&& form ==> step == Some(
                StepView::Configure {
                    samples: field_at(m, "samples"@),
                    sample_time: field_at(m, "sampleTime"@),
                    current_limit: field_at(m, "currentLimit"@),
                },
            )
            &&& !form ==> step == Some(
                StepView::Respond(
                    ResponseView { status: 200, body: BodyView::Document(d.state(true)) },
                ),
            )
        }),
{
    lemma_not_hardware(d, req);
}

/// A request for a channel answers what it is; below it stand its output, which a form
/// or a document sets, and its input, whose gains a form sets.
pub proof fn law_requests_for_a_channel(d: DeviceView, req: RequestView, c: int)
    requires
        req.parts.len() > 5,
        req.parts[5] == "a"@ || req.parts[5] == "b"@,
        d.channel(req.parts[5]) == Some(c),
    ensures
        ({
            let (e, step) = device_step(d, req, 5);
            let post = req.method == "POST"@;
            let braced = req.body.len() > 0 && req.body[0] == '{';
            &&& e == d
            &&& d.channels[c].id == req.parts[5]
            &&& req.parts.len() == 6 ==> step == Some(
                StepView::Respond(
                    ResponseView {
                        status: 200,
                        body: BodyView::Document(d.channels[c].document()),
                    },
                ),
            )
            &&& req.parts.len() > 6 && req.parts[6] == "output"@ ==> {
                &&& post && !braced ==> step == Some(
                    StepView::Form { chan: c, plan: plan_of(req.body) },
                )
                &&& post && braced ==> match parsed(req.body) {
                    Ok(n) => match source_from(n) {
                        Ok(source) => step == Some(StepView::Output { chan: c, source }),
                        Err(m) => step == Some(StepView::Respond(complaint(m))),
                    },
                    Err(m) => step == Some(
                        StepView::Respond(complaint("JSON parse error: "@ + m)),
                    ),
                }
                &&& !post ==> match d.channels[c].source {
                    Some(s) => step == Some(
                        StepView::Respond(
                            ResponseView {
                                status: 200,
                                body: BodyView::Document(JsonTree::Object(described(s))),
                            },
                        ),
                    ),
                    None => step is None,
                }
            }
            &&& req.parts.len() > 6 && req.parts[6] == "input"@ ==> {
                &&& !post ==> step == Some(
                    StepView::Input {
                        chan: c,
                        resample: field_at(req.params, "resample"@).unwrap_or("0.01"@),
                    },
                )
                &&& post ==> (step matches Some(StepView::Gains { chan, texts }) && chan == c
                    && texts.len() == d.channels[c].streams.len() && (forall|s: int|
                    0 <= s < texts.len() ==> #[trigger] texts[s] == field_at(
                        fields(req.body),
                        "gain_"@ + d.channels[c].streams[s].id,
                    )))
            }
            &&& req.parts.len() > 6 && req.parts[6] != "output"@ && req.parts[6] != "input"@ ==> step
                is None
        }),
{
    lemma_part_words();
    lemma_not_hardware(d, req);
    law_channel_has_the_name(d, req.parts[5]);
}

/// What something wrong is answered with.
pub proof fn law_complaints(message: Seq<char>)
    ensures
        complaint(message).status == 402,
        complaint(message).body matches BodyView::Document(JsonTree::Object(m)) && m.len() == 1
            && has(m, "error"@, JsonTree::Str(message)),
{
    let m = seq![("error"@, JsonTree::Str(message))];
    assert(m[0] == ("error"@, JsonTree::Str(message)));
    assert(complaint(message).body == BodyView::Document(JsonTree::Object(m)));
    assert(has(m, "error"@, JsonTree::Str(message)));
}

// ---- configurations and gains ----

/// The time of a sample that a form asks for is taken if it is positive, and the one
/// that the device has otherwise, but never more than a thousandth of a second.
pub proof fn law_time_of_a_sample(wanted: Double, present: Double)
    ensures
        ({
            let zero = Double { bits: 0 };
            let most = Double { bits: 0x3f50_624d_d2f1_a9fc };
            let t = sample_time_taken(wanted, present);
            &&& wanted.above(zero) && !wanted.above(most) ==> t == wanted
            &&& wanted.above(most) ==> t == most
            &&& !wanted.nan() && !wanted.above(zero) && !present.above(most) ==> t == present
            &&& !wanted.nan() && !wanted.above(zero) && present.above(most) ==> t == most
            &&& !t.above(most)
        }),
{
}

/// A form configures what it has fields for and leaves the rest as it is; and the first
/// of its fields that is no number is complained of.
pub proof fn law_form_configures(d: DeviceView, samples: Field, time: Field, limit: Field)
    ensures
        ({
            let r = configuration_posted(d, samples, time, limit);
            let fault = "Invalid number for parameter "@;
            &&& samples is Fault ==> r == Err::<(ConfigRequest, u32), Seq<char>>(
                fault + "samples"@,
            )
            &&& !(samples is Fault) && time is Fault ==> r == Err::<(ConfigRequest, u32), Seq<char>>(
                fault + "sampleTime"@,
            )
            &&& !(samples is Fault) && !(time is Fault) && limit is Fault ==> r == Err::<
                (ConfigRequest, u32),
                Seq<char>,
            >(fault + "currentLimit"@)
            &&& !(samples is Fault) && !(time is Fault) && !(limit is Fault) ==> {
                &&& r matches Ok((c, current))
                &&& c.mode == d.dev_mode as i32
                &&& c.continuous == d.capture_continuous
                &&& c.raw == d.raw_mode
                &&& samples is Absent ==> c.samples == d.capture_samples
                &&& samples matches Field::Value(x) ==> 0 <= x.integer() <= u32::MAX ==> c.samples
                    == x.integer()
                &&& time is Absent ==> c.sample_time == sample_time_taken(
                    d.sample_time,
                    d.sample_time,
                )
                &&& time matches Field::Value(x) ==> c.sample_time == sample_time_taken(
                    x,
                    d.sample_time,
                )
                &&& limit matches Field::Value(x) ==> 0 <= x.integer() <= u32::MAX ==> current
                    == x.integer()
            }
        }),
{
}

/// The gains of a form are set stream after stream. A field that is absent, zero or no
/// number sets none.
pub proof fn law_gains_of_a_form(d: DeviceView, chan: int, wishes: Seq<GainField>, n: int)
    requires
        0 <= n < wishes.len(),
    ensures
        ({
            let before = gains_set(d, chan, wishes, n);
            let after = gains_set(d, chan, wishes, n + 1);
            let w = wishes[n];
            let asked = w.gain matches Field::Value(x) && x.bits != 0 && x.bits
                != 0x8000_0000_0000_0000;
            &&& gains_set(d, chan, wishes, 0) == d
            &&& asked ==> after == before.gained(chan, n, w.internal)
            &&& !asked ==> after == before
        }),
{
}

proof fn lemma_first_fault_is(v: Seq<GainField>, n: int)
    requires
        0 <= n <= v.len(),
        forall|i: int| 0 <= i < n ==> !((#[trigger] v[i]).gain is Fault),
        n < v.len() ==> v[n].gain is Fault,
    ensures
        first_fault(v) == n,
    decreases v.len(),
{
    if n > 0 {
        let w = v.drop_first();
        assert(!(v[0].gain is Fault));
        assert forall|i: int| 0 <= i < n - 1 implies !((#[trigger] w[i]).gain is Fault) by {
            assert(w[i] == v[i + 1]);
        }
        if n < v.len() {
            assert(w[n - 1] == v[n]);
        }
        lemma_first_fault_is(w, n - 1);
    }
}

/// Gains are answered with the gains of all streams, each a multiple of the one that is
/// normal for it; and of gains that are no numbers the first is complained of by the
/// name of its field.
pub proof fn law_answer_to_gains(d: DeviceView, chan: int, wishes: Seq<GainField>, n: int)
    requires
        0 <= n <= wishes.len(),
        forall|i: int| 0 <= i < n ==> !((#[trigger] wishes[i]).gain is Fault),
        n < wishes.len() ==> wishes[n].gain is Fault,
    ensures
        n < wishes.len() ==> gains_response(d, chan, wishes) == complaint(
            "Invalid number for parameter "@ + ("gain_"@ + d.channels[chan].streams[n].id),
        ),
        n == wishes.len() ==> gains_response(d, chan, wishes) == (ResponseView {
            status: 200,
            body: BodyView::Document(
                JsonTree::Object(
                    seq![("gain"@, JsonTree::Object(gain_members(d, chan, wishes, n)))],
                ),
            ),
        }),
        n > 0 ==> crate::jsonutil::member(
            gain_members(d, chan, wishes, n),
            gains_set(d, chan, wishes, n).channels[chan].streams[n - 1].id,
        ) == Some(
            JsonTree::Number(
                Number::Ratio(
                    gains_set(d, chan, wishes, n).channels[chan].streams[n - 1].gain,
                    gains_set(d, chan, wishes, n).channels[chan].streams[n - 1].normal_gain,
                ),
            ),
        ),
{
    lemma_first_fault_is(wishes, n);
    if n > 0 {
        let s = gains_set(d, chan, wishes, n).channels[chan].streams[n - 1];
        let v = JsonTree::Number(Number::Ratio(s.gain, s.normal_gain));
        crate::laws::documents::lemma_put(gain_members(d, chan, wishes, n - 1), s.id, v, s.id);
    }
}

// ---- samples ----

/// A request for samples: what it does not say is that it wants one sample, the next
/// one, with a heading; what is no number, and a negative number of samples, is
/// complained of.
pub proof fn law_samples_wanted(m: Map<Seq<char>, Seq<char>>, decimate: Option<i64>)
    ensures
        ({
            let start = field_at(m, "start"@);
            let count = field_at(m, "count"@);
            let r = input_wanted(m, decimate);
            let s = match start {
                Some(t) => integer(t),
                None => Some((-1) as i64),
            };
            let n = match count {
                Some(t) => integer(t),
                None => Some(1i64),
            };
            &&& decimate is None ==> r == Err::<(u64, i64, i64, bool), Seq<char>>(
                "Invalid resample parameter"@,
            )
            &&& decimate is Some && s is None ==> r == Err::<(u64, i64, i64, bool), Seq<char>>(
                "Invalid start parameter"@,
            )
            &&& decimate is Some && s is Some && (n is None || n->Some_0 < 0) ==> r == Err::<
                (u64, i64, i64, bool),
                Seq<char>,
            >("Invalid count parameter"@)
            &&& decimate is Some && s is Some && n is Some && n->Some_0 >= 0 ==> {
                &&& r matches Ok((factor, from, many, header))
                &&& decimate->Some_0 >= 1 ==> factor == decimate->Some_0
                &&& decimate->Some_0 < 1 ==> factor == 1
                &&& from == s->Some_0
                &&& many == n->Some_0
                &&& header <==> (field_at(m, "header"@) is None || field_at(m, "header"@) == Some(
                    "1"@,
                ))
            }
        }),
{
    reveal_strlit("-1");
    reveal_strlit("1");
    assert("-1"@ =~= seq!['-'] + crate::digits::digits_of(1));
    assert("1"@ =~= crate::digits::digits_of(1));
    crate::laws::texts::law_integers_read_back(1);
}

/// The heading of a response has the name and the unit of every stream, in their order,
/// with commas between them.
pub proof fn law_headings(v: Seq<StreamView>)
    requires
        v.len() > 0,
    ensures
        ({
            let s = v[v.len() - 1];
            let last = s.display_name + seq![' ', '('] + s.units + seq![')'];
            headings(v) == (if v.len() == 1 {
                last
            } else {
                headings(v.drop_last()) + seq![','] + last
            })
        }),
{
    reveal_strlit(" (");
    reveal_strlit(")");
    reveal_strlit(",");
    assert(" ("@ =~= seq![' ', '(']);
    assert(")"@ =~= seq![')']);
    assert(","@ =~= seq![',']);
}

// ---- hardware ----

/// What a field of a form says of a switch.
pub open spec fn switch_said(m: Map<Seq<char>, Seq<char>>, key: Seq<char>, v: Option<bool>) -> bool {
    match field_at(m, key) {
        None => v is None,
        Some(t) => (t.len() == 0 ==> v is None) && (t == "true"@ || t == "1"@ ==> v == Some(true))
            && (t.len() > 0 && t != "true"@ && t != "1"@ ==> v == Some(false)),
    }
}

/// What a field of a form says of a potentiometer.
pub open spec fn pot_said(m: Map<Seq<char>, Seq<char>>, key: Seq<char>, v: Option<u8>) -> bool {
    match field_at(m, key) {
        None => v is None,
        Some(t) => (t.len() == 0 ==> v is None) && (integer(t) matches Some(i) ==> t.len() > 0
            ==> (v matches Some(p) && p == i as int % 128)) && (integer(t) is None ==> v is None),
    }
}

/// A form wishes for the switches and potentiometers that it has something in the
/// fields for, and for the lights likewise.
pub proof fn law_wishes_of_a_form(m: Map<Seq<char>, Seq<char>>, state: u8)
    ensures
        ({
            let c = form_change(m);
            &&& switch_said(m, "r50_2v5"@, c.r50_2v5)
            &&& switch_said(m, "r50_gnd"@, c.r50_gnd)
            &&& switch_said(m, "feedback"@, c.feedback)
            &&& switch_said(m, "output_en"@, c.output_en)
            &&& switch_said(m, "split"@, c.split)
            &&& pot_said(m, "pot_r1"@, c.pot_r1)
            &&& pot_said(m, "pot_r2"@, c.pot_r2)
            &&& c.pots <==> (field_at(m, "pot_r1"@) matches Some(t) && t.len() > 0) || (field_at(
                m,
                "pot_r2"@,
            ) matches Some(t) && t.len() > 0)
        }),
        field_at(m, "leds"@) matches Some(t) ==> t.len() > 0 ==> form_lights(state, m) == (match integer(
            t,
        ) {
            Some(i) => i as int % 8,
            None => 0,
        }),
        field_at(m, "leds"@) is None ==> exists|red: Option<bool>, green: Option<bool>, blue: Option<
            bool,
        >|
            switch_said(m, "red"@, red) && switch_said(m, "green"@, green) && switch_said(
                m,
                "blue"@,
                blue,
            ) && form_lights(state, m) == #[trigger] lights(state, red, green, blue),
{
    reveal_strlit("true");
    reveal_strlit("1");
    if field_at(m, "leds"@) is None {
        let red = crate::rest::switch_field(m, "red"@);
        let green = crate::rest::switch_field(m, "green"@);
        let blue = crate::rest::switch_field(m, "blue"@);
        assert(switch_said(m, "red"@, red));
        assert(switch_said(m, "green"@, green));
        assert(switch_said(m, "blue"@, blue));
        assert(form_lights(state, m) == lights(state, red, green, blue));
    }
}

/// What the hardware of an M1K answers to requests: front end, lights, calibration and
/// serial number as the server knows them; power and temperatures as the device tells
/// them. A request that posts nothing changes nothing.
pub proof fn law_reading_hardware(d: DeviceView, req: RequestView)
    requires
        d.backend is M1k,
        req.parts.len() > 5,
        req.method != "POST"@,
    ensures
        ({
            let b = d.backend->M1k_0;
            let (e, step) = device_step(d, req, 5);
            let w = req.parts[5];
            &&& w == "frontend"@ ==> step == Some(StepView::Respond(document(b.frontend_document())))
            &&& w == "leds"@ ==> step == Some(StepView::Respond(document(lights_tree(b.led_state))))
            &&& w == "calibration"@ ==> step == Some(
                StepView::Respond(
                    document(
                        JsonTree::Object(
                            seq![("valid"@, JsonTree::Bool(b.cal.valid))] + number_members(b.cal),
                        ),
                    ),
                ),
            )
            &&& w == "serial"@ ==> step == Some(
                StepView::Respond(
                    document(JsonTree::Object(seq![("serial"@, JsonTree::Str(d.serial))])),
                ),
            )
            &&& w == "power"@ ==> step == Some(
                StepView::Ask(
                    RestAskView {
                        answer: RestAnswerView::Power { alert_bit: alert_bit_of(d.fw_version) },
                        requests: seq![vendor_in(0x17, 0, 3, 3)],
                    },
                ),
            )
            &&& w == "temperature"@ ==> step == Some(
                StepView::Ask(
                    RestAskView {
                        answer: RestAnswerView::Temperature,
                        requests: seq![vendor_in(0x19, 0, 0, 2), vendor_in(0x19, 1, 0, 2)],
                    },
                ),
            )
        }),
{
    lemma_part_words();
    reveal(m1k_rest);
    let b = d.backend->M1k_0;
    assert(seq![("valid"@, JsonTree::Bool(b.cal.valid))] + number_members(b.cal) =~= seq![
        crate::state::truth("valid"@, b.cal.valid),
    ] + number_members(b.cal));
}

/// A form changes the front end of the channel that it names, or of the first, and the
/// lights, at once; a document writes the calibration, and a form the serial number, if
/// it fits.
pub proof fn law_posting_to_hardware(d: DeviceView, req: RequestView)
    requires
        d.backend is M1k,
        req.parts.len() > 5,
        req.method == "POST"@,
    ensures
        ({
            let b = d.backend->M1k_0;
            let (e, step) = device_step(d, req, 5);
            let w = req.parts[5];
            let m = fields(req.body);
            &&& w == "frontend"@ ==> {
                let c = channel_named(field_at(m, "channel"@).unwrap_or("a"@));
                let a = b.with_frontend(c, form_change(m));
                &&& e.backend == BackendView::M1k(a)
                &&& e.out == d.out + form_change(m).requests(c, b.frontend[c])
                &&& step == Some(StepView::Respond(document(a.frontend_document())))
            }
            &&& w == "leds"@ ==> {
                let state = form_lights(b.led_state, m);
                &&& e.backend matches BackendView::M1k(a) && a == (M1kView { led_state: state, ..b })
                &&& e.out == d.out + seq![vendor_out(0x03, state as int, 0)]
                &&& step == Some(StepView::Respond(document(lights_tree(state))))
            }
            &&& w == "calibration"@ ==> match posted_calibration(req.body) {
                Err(message) => e.backend == d.backend && step == Some(
                    StepView::Respond(complaint(message)),
                ),
                Ok(cal) => e.backend == BackendView::M1k(M1kView { cal, ..b }) && step == Some(
                    StepView::Ask(
                        RestAskView {
                            answer: RestAnswerView::Calibration,
                            requests: seq![
                                ControlView {
                                    request_type: 0x40,
                                    request: 0x02,
                                    value: 0,
                                    index: 0,
                                    length: 0,
                                    data: cal.stored(),
                                },
                            ],
                        },
                    ),
                ),
            }
            &&& w == "serial"@ ==> {
                let serial = field_at(m, "serial"@).unwrap_or(""@);
                let n = encode_utf8(serial).len();
                &&& 1 <= n <= 32 ==> step == Some(
                    StepView::Ask(
                        RestAskView {
                            answer: RestAnswerView::Serial(serial),
                            requests: seq![
                                ControlView {
                                    request_type: 0x40,
                                    request: 0x05,
                                    value: 0,
                                    index: 0,
                                    length: 0,
                                    data: encode_utf8(serial),
                                },
                            ],
                        },
                    ),
                )
                &&& n == 0 || n > 32 ==> step == Some(
                    StepView::Respond(
                        document(
                            JsonTree::Object(
                                seq![
                                    (
                                        "status"@,
                                        JsonTree::Number(Number::Signed((-1) as i64)),
                                    ),
                                    ("serial"@, JsonTree::Str(serial)),
                                ],
                            ),
                        ),
                    ),
                )
            }
        }),
{
    lemma_part_words();
    reveal(m1k_rest);
}

/// A posted calibration is that of the document, or one without offsets and with gains
/// of one, if the document says so.
pub proof fn law_posted_calibration(body: Seq<char>, n: JsonTree, i: int)
    requires
        parsed(body) == Ok::<JsonTree, Seq<char>>(n),
        0 <= i < 8,
    ensures
        bool_at(n, "reset"@) == Some(true) ==> (posted_calibration(body) matches Ok(c) && c.valid
            && c.offset[i].bits == 0 && c.gain_p[i].bits == 0x3f80_0000 && c.gain_n[i].bits
            == 0x3f80_0000),
        bool_at(n, "reset"@) != Some(true) ==> posted_calibration(body) == calibration_from(n),
{
}

/// The pins of a CEE are read by one request, and set by another that has what the form
/// says in its fields.
pub proof fn law_pins_of_a_cee(d: DeviceView, req: RequestView)
    requires
        d.backend is Cee,
        req.parts.len() > 5,
        req.parts[5] == "gpio"@,
    ensures
        ({
            let (e, step) = device_step(d, req, 5);
            let m = fields(req.body);
            &&& e == d
            &&& step matches Some(StepView::Ask(a)) && a.answer == RestAnswerView::Pins
                && a.requests.len() == 1 && (req.method != "POST"@ ==> a.requests[0] == vendor_in(
                0x20,
                0,
                0,
                4,
            )) && (req.method == "POST"@ ==> a.requests[0].request == 0x21
                && a.requests[0].request_type == 0xC0 && a.requests[0].length == 4 && pin_said(
                m,
                "out"@,
                a.requests[0].value,
            ) && pin_said(m, "dir"@, a.requests[0].index))
        }),
{
    lemma_part_words();
    let m = fields(req.body);
    if let Some(t) = field_at(m, "out"@) {
        law_low_bits_are_kept(integer(t).unwrap_or(0));
    }
    if let Some(t) = field_at(m, "dir"@) {
        law_low_bits_are_kept(integer(t).unwrap_or(0));
    }
}

/// What a field of a form says of pins.
pub open spec fn pin_said(m: Map<Seq<char>, Seq<char>>, key: Seq<char>, v: u16) -> bool {
    match field_at(m, key) {
        None => v == 0,
        Some(t) => match integer(t) {
            None => v == 0,
            Some(i) => v == i as int % 0x100,
        },
    }
}

/// What the hardware told is answered as a document.
pub proof fn law_answers_of_hardware(v: Seq<crate::effect::ReplyView>, bit: u8, serial: Seq<char>)
    requires
        v.len() > 0,
    ensures
        ({
            let status = ("status"@, JsonTree::Number(Number::Signed(v[0].status as i64)));
            let answers = |t: JsonTree| ResponseView { status: 200, body: BodyView::Document(t) };
            &&& rest_answer_of(RestAnswerView::Power { alert_bit: bit }, v) == answers(
                crate::usb::power_tree(v[0], bit),
            )
            &&& rest_answer_of(RestAnswerView::Temperature, v) == answers(
                crate::usb::temperature_tree(v),
            )
            &&& rest_answer_of(RestAnswerView::Pins, v) == answers(crate::usb::pins_tree(v[0]))
            &&& rest_answer_of(RestAnswerView::Calibration, v) == answers(
                JsonTree::Object(seq![status, ("valid"@, JsonTree::Bool(true))]),
            )
            &&& rest_answer_of(RestAnswerView::Serial(serial), v) == answers(
                JsonTree::Object(seq![status, ("serial"@, JsonTree::Str(serial))]),
            )
        }),
{
}

} // verus!
