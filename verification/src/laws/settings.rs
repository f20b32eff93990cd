//! What holds of the settings of a device: channels, gains, limits and outputs, and
//! what goes to the hardware when they change.

use crate::config::{
    gain_code, gain_line, lemma_channel_place, lemma_stream_place, test_device, ConfigRequest,
    Timing,
};
use crate::effect::{ControlView, EffectView};
use crate::float::Single;
use crate::jsonutil::{JsonTree, Number};
use crate::laws::listening::has;
use crate::source::{described, started, KindView, PhaseReply, SourceView};
use crate::streaming::{has_stream, BackendView, DeviceView};
use vstd::arithmetic::power2::pow2;
use vstd::prelude::*;

verus! {

/// A vendor request to the hardware without data.
pub open spec fn vendor_out(request: u8, value: int, index: int) -> EffectView {
    EffectView::Control(
        ControlView {
            request_type: 0x40,
            request,
            value: value as u16,
            index: index as u16,
            length: 0,
            data: Seq::empty(),
        },
    )
}

/// A vendor request for some bytes from the hardware.
pub open spec fn vendor_in(request: u8, value: int, index: int, length: int) -> ControlView {
    ControlView {
        request_type: 0xC0,
        request,
        value: value as u16,
        index: index as u16,
        length: length as u16,
        data: Seq::empty(),
    }
}

// ---- configuration ----

/// A configured device has the channels a and b, unless it is a CEE in another mode
/// than the first, and each has a voltage and a current that are found by their names,
/// with room for as many samples as were asked for, and a source that drives nothing.
pub proof fn law_configured_channels(d: DeviceView, r: ConfigRequest, t: Timing, c: int, s: int)
    requires
        !(d.backend is Cee) || r.mode <= 0,
        0 <= c < 2,
        0 <= s < 2,
    ensures
        ({
            let e = d.configured(r, t);
            let stream = e.channels[c].streams[s];
            &&& e.channels.len() == 2
            &&& e.channels[c].streams.len() == 2
            &&& e.channel("a"@) == Some(0int)
            &&& e.channel("b"@) == Some(1int)
            &&& e.stream("a"@, "v"@) == Ok::<(int, int), Seq<char>>((0int, 0int))
            &&& e.stream("a"@, "i"@) == Ok::<(int, int), Seq<char>>((0int, 1int))
            &&& e.stream("b"@, "v"@) == Ok::<(int, int), Seq<char>>((1int, 0int))
            &&& e.stream("b"@, "i"@) == Ok::<(int, int), Seq<char>>((1int, 1int))
            &&& e.channels[0].display_name == "A"@
            &&& e.channels[1].display_name == "B"@
            &&& s == 0 ==> stream.display_name == "Voltage "@ + e.channels[c].display_name
            &&& s == 1 ==> stream.display_name == "Current "@ + e.channels[c].display_name
            &&& stream.output_mode == s + 1
            &&& stream.data.len() == r.samples
            &&& r.raw && !(d.backend is Test) ==> stream.units == "LSB"@
            &&& !r.raw || d.backend is Test ==> stream.units == (if s == 0 {
                "V"@
            } else {
                "mA"@
            })
            &&& e.channels[c].source == Some(
                SourceView {
                    mode: 0,
                    start_sample: 0,
                    effective: false,
                    hint: Seq::empty(),
                    kind: KindView::Constant { value: Single { bits: 0 } },
                },
            )
        }),
{
    let e = d.configured(r, t);
    reveal_strlit("a");
    reveal_strlit("b");
    reveal_strlit("v");
    reveal_strlit("i");
    assert("a"@[0] != "b"@[0]);
    assert("v"@[0] != "i"@[0]);
    assert(e.channels[0].id == "a"@);
    assert(e.channels[1].id == "b"@);
    lemma_channel_place(e.channels, "a"@, 0);
    lemma_channel_place(e.channels, "b"@, 1);
    lemma_stream_place(e.channels[0].streams, "v"@, 0);
    lemma_stream_place(e.channels[0].streams, "i"@, 1);
    lemma_stream_place(e.channels[1].streams, "v"@, 0);
    lemma_stream_place(e.channels[1].streams, "i"@, 1);
}

/// The ranges of the streams: 0 to 5 volts, and 200 milliamperes either way but for a
/// CEE, whose currents have the ranges that their gains give. Bare numbers have the
/// range of the converters: 16 bits of an M1K, and 12 bits with sign of a CEE.
pub proof fn law_ranges_of_streams(d: DeviceView, r: ConfigRequest, t: Timing, c: int)
    requires
        !(d.backend is Cee) || r.mode <= 0,
        0 <= c < 2,
    ensures
        ({
            let e = d.configured(r, t);
            let v = e.channels[c].streams[0];
            let i = e.channels[c].streams[1];
            let bare = r.raw && !(d.backend is Test);
            &&& !bare ==> v.min.bits == 0 && v.max.bits == 0x40a0_0000
            &&& !bare && !(d.backend is Cee) ==> i.min.bits == 0xc348_0000 && i.max.bits
                == 0x4348_0000
            &&& !bare && d.backend is Cee ==> i.min == (if c == 0 {
                t.range_a
            } else {
                t.range_b
            }).min && i.max == (if c == 0 {
                t.range_a
            } else {
                t.range_b
            }).max
            &&& bare && d.backend is M1k ==> v.min.bits == 0 && v.max.bits == 0x477f_ff00
                && i.min.bits == 0 && i.max.bits == 0x477f_ff00
            &&& bare && d.backend is Cee ==> v.min.bits == 0xc2c8_0000 && v.max.bits == 0x44ff_e000
                && i.min.bits == 0xc500_0000 && i.max.bits == 0x44ff_e000
            &&& d.backend is Cee ==> v.uncertainty.bits == 0x3b20_0000 && i.uncertainty.bits
                == 0x3f80_0000
            &&& !(d.backend is Cee) ==> v.uncertainty.bits == 0x38a0_0000 && i.uncertainty.bits
                == 0x3bc8_0000
        }),
{
}

/// A configuration does not touch the gains of a CEE that has its channels; all other
/// streams get the gain that is normal for them, which is two for the currents of a
/// CEE and one for all else.
pub proof fn law_gains_outlast_configuration(
    d: DeviceView,
    r: ConfigRequest,
    t: Timing,
    c: int,
    s: int,
)
    requires
        !(d.backend is Cee) || r.mode <= 0,
        0 <= c < 2,
        0 <= s < 2,
    ensures
        ({
            let e = d.configured(r, t);
            let stream = e.channels[c].streams[s];
            &&& stream.normal_gain == (if d.backend is Cee && s == 1 {
                2int
            } else {
                1int
            })
            &&& d.backend is Cee && has_stream(d.channels, c, s) ==> stream.gain
                == d.channels[c].streams[s].gain
            &&& !(d.backend is Cee && has_stream(d.channels, c, s)) ==> stream.gain
                == stream.normal_gain
        }),
{
}

/// A configuration takes over what was asked for and what the timing makes of it, tells
/// every client, and leaves alone what it is not about. An M1K has one mode only, and
/// a CEE has no channels in other modes than the first.
pub proof fn law_configuration_is_as_asked(d: DeviceView, r: ConfigRequest, t: Timing)
    ensures
        ({
            let e = d.configured(r, t);
            &&& e.sample_time == t.sample_time
            &&& e.capture_length == t.length
            &&& e.raw_mode == r.raw
            &&& e.dev_mode == (if d.backend is M1k || r.mode < 0 {
                0
            } else {
                r.mode as int
            })
            &&& d.backend is Cee && r.mode > 0 ==> e.channels.len() == 0
            &&& e.model == d.model
            &&& e.serial == d.serial
            &&& e.hw_version == d.hw_version
            &&& e.fw_version == d.fw_version
            &&& e.min_sample_time == d.min_sample_time
            &&& e.current_limit == d.current_limit
            &&& e.capture_done == d.capture_done
            &&& e.out.last() matches EffectView::Send { clients, message } && clients
                == d.connections && (message matches JsonTree::Object(m) && has(
                m,
                "_action"@,
                JsonTree::Str("deviceConfig"@),
            ) && has(
                m,
                "device"@,
                (DeviceView { out: d.paused().out, ..e }).state(false),
            ))
            &&& e.backend matches BackendView::M1k(b) ==> b.m1k_per == t.per
                && b.packets_per_transfer >= 1 && (t.packets > 0 ==> b.packets_per_transfer
                == t.packets)
            &&& e.backend matches BackendView::Cee(b) ==> b.xmega_per == t.per
                && b.packets_per_transfer >= 1 && (t.packets > 0 ==> b.packets_per_transfer
                == t.packets)
        }),
{
    let e = d.configured(r, t);
    let a = d.paused().arranged(r, t);
    let m = a.config_message()->Object_0;
    assert(m[0] == ("_action"@, JsonTree::Str("deviceConfig"@)));
    assert(m[1] == ("device"@, a.state(false)));
    assert((DeviceView { out: d.paused().out, ..e }).state(false) == a.state(false));
}

// ---- gains and limits ----

/// The gains of a CEE are the powers of two up to 64, and it knows each by four times
/// its exponent.
pub proof fn law_gains_are_powers_of_two(gain: i32)
    ensures
        gain_code(gain) matches Some(code) ==> code % 4 == 0 && code <= 24 && gain == pow2(
            (code / 4) as nat,
        ),
        gain_code(gain) is Some <==> gain == 1 || gain == 2 || gain == 4 || gain == 8 || gain == 16
            || gain == 32 || gain == 64,
{
    vstd::arithmetic::power2::lemma2_to64();
}

/// The lines of a CEE: the current of a, the voltages of a and b, the current of b.
pub proof fn law_lines_of_streams(c: int, s: int)
    ensures
        gain_line(c, s) is Some <==> 0 <= c < 2 && 0 <= s < 2,
        gain_line(c, s) matches Some(line) ==> line < 4 && (c == 1 <==> line >= 2) && (s == 1
            <==> line == 0 || line == 3),
{
}

/// A gain that is set is the gain of that stream, and of no other, from then on; every
/// client is told; and the hardware gets the one request that sets it. The transfers of
/// a CEE rest while it does, if they run. What is no gain of a CEE changes nothing, and
/// an M1K has none.
pub proof fn law_gain_is_set(d: DeviceView, c: int, s: int, internal: i32, c2: int, s2: int)
    requires
        has_stream(d.channels, c, s),
        has_stream(d.channels, c2, s2),
        0 <= c < 2,
        0 <= s < 2,
    ensures
        ({
            let e = d.gained(c, s, internal);
            let told = EffectView::Send {
                clients: d.connections,
                message: JsonTree::Object(
                    seq![
                        ("_action"@, JsonTree::Str("gainChanged"@)),
                        ("channel"@, JsonTree::Str(d.channels[c].id)),
                        ("stream"@, JsonTree::Str(d.channels[c].streams[s].id)),
                        (
                            "gain"@,
                            JsonTree::Number(
                                Number::Ratio(
                                    internal as u32,
                                    d.channels[c].streams[s].normal_gain,
                                ),
                            ),
                        ),
                    ],
                ),
            };
            let known = internal == 1 || internal == 2 || internal == 4 || internal == 8 || internal
                == 16 || internal == 32 || internal == 64;
            let code = if internal == 1 {
                0int
            } else if internal == 2 {
                4
            } else if internal == 4 {
                8
            } else if internal == 8 {
                12
            } else if internal == 16 {
                16
            } else if internal == 32 {
                20
            } else {
                24
            };
            let line = if c == 0 {
                1 - s
            } else {
                2 + s
            };
            &&& d.backend is M1k || (d.backend is Cee && !known) ==> e == d
            &&& d.backend is Cee && known ==> {
                &&& e.channels[c].streams[s].gain == internal
                &&& !d.capture_state ==> e.out == d.out.push(vendor_out(0x65, code, line)).push(told)
                &&& d.capture_state ==> e.out == d.out + seq![
                    vendor_out(0x80, 0, 0),
                    EffectView::Stop,
                    vendor_out(0x65, code, line),
                    EffectView::Start,
                    told,
                ]
                &&& (c2, s2) != (c, s) ==> e.channels[c2].streams[s2] == d.channels[c2].streams[s2]
            }
            &&& d.backend is Test && internal >= 1 ==> {
                &&& e.channels[c].streams[s].gain == internal
                &&& e.out == d.out.push(told)
                &&& (c2, s2) != (c, s) ==> e.channels[c2].streams[s2] == d.channels[c2].streams[s2]
            }
            &&& d.backend matches BackendView::Test(t) ==> (e.backend matches BackendView::Test(u)
                && u.gain_sets == t.gain_sets.push(
                (d.channels[c].id, d.channels[c].streams[s].id, internal),
            ))
            &&& e.capture_state == d.capture_state
            &&& e.listeners == d.listeners
        }),
{
    let e = d.gained(c, s, internal);
    if d.backend is Cee && d.capture_state && gain_code(internal) is Some {
        assert(e.out =~= d.out + seq![
            vendor_out(0x80, 0, 0),
            EffectView::Stop,
            vendor_out(0x65, gain_code(internal)->Some_0 as int, gain_line(c, s)->Some_0 as int),
            EffectView::Start,
            e.out.last(),
        ]);
    }
}

/// The current limits that a CEE knows are 200, 400 and 2000 milliamperes; for the
/// first two it is sent what its calibration says, for the last one zeros. No other
/// limit changes anything, and an M1K has none.
pub proof fn law_limit_is_set(d: DeviceView, limit: u32)
    ensures
        ({
            let e = d.limited(limit);
            &&& d.backend is M1k ==> e == d
            &&& d.backend matches BackendView::Test(t) ==> (e.backend matches BackendView::Test(u)
                && u.current_limits == t.current_limits.push(limit)) && e.out == d.out
            &&& d.backend matches BackendView::Cee(b) ==> {
                &&& limit != 200 && limit != 400 && limit != 2000 ==> e == d
                &&& limit == 200 ==> e.current_limit == 200 && e.out == d.out.push(
                    EffectView::Control(
                        vendor_in(
                            0x15,
                            (b.cal.dac200_a as u16) as int,
                            (b.cal.dac200_b as u16) as int,
                            0,
                        ),
                    ),
                )
                &&& limit == 400 ==> e.current_limit == 400 && e.out == d.out.push(
                    EffectView::Control(
                        vendor_in(
                            0x15,
                            (b.cal.dac400_a as u16) as int,
                            (b.cal.dac400_b as u16) as int,
                            0,
                        ),
                    ),
                )
                &&& limit == 2000 ==> e.current_limit == 2000 && e.out == d.out.push(
                    EffectView::Control(vendor_in(0x15, 0, 0, 0)),
                )
                &&& e == (DeviceView { current_limit: e.current_limit, out: e.out, ..d })
            }
        }),
{
}

// ---- outputs ----

/// A new source is told to every client, and what is told is the source that is then in
/// place. The other channels keep theirs.
pub proof fn law_new_source_is_told(
    d: DeviceView,
    c: int,
    source: SourceView,
    reply: PhaseReply,
    c2: int,
)
    requires
        0 <= c < d.channels.len(),
        0 <= c2 < d.channels.len(),
    ensures
        ({
            let e = d.with_output(c, source, reply);
            &&& e.channels[c].source matches Some(s)
            &&& s.kind == started(
                source.kind,
                d.capture_o,
                match d.channels[c].source {
                    Some(x) => Some(x.kind),
                    None => None,
                },
                reply,
            )
            &&& s.effective == source.effective
            &&& s.hint == source.hint
            &&& e.out.last() matches EffectView::Send { clients, message } && clients
                == d.connections && (message matches JsonTree::Object(m) && m.len() >= 7 && m[0] == (
                "_action"@,
                JsonTree::Str("outputChanged"@),
            ) && m[1] == ("channel"@, JsonTree::Str(d.channels[c].id)) && m.skip(2) == described(s))
            &&& e.channels[c].streams == d.channels[c].streams
            &&& c2 != c ==> e.channels[c2] == d.channels[c2]
            &&& e.capture_o == d.capture_o
            &&& e.capture_i == d.capture_i
        }),
{
    let e = d.with_output(c, source, reply);
    let s = e.channels[c].source->Some_0;
    let m = seq![
        ("_action"@, JsonTree::Str("outputChanged"@)),
        ("channel"@, JsonTree::Str(d.channels[c].id)),
    ] + described(s);
    assert(m.skip(2) =~= described(s));
}

/// The mode of a new source is the mode of its channel from then on. An M1K that runs
/// gets the requests for it at once; one that rests, at its start. A mode that the
/// channel has already takes none.
pub proof fn law_mode_follows_the_source(
    d: DeviceView,
    c: int,
    source: SourceView,
    reply: PhaseReply,
)
    requires
        0 <= c < d.channels.len(),
        c < 2,
        d.backend matches BackendView::M1k(b) && b.m_mode.len() == 2 && b.frontend.len() == 2,
    ensures
        ({
            let e = d.with_output(c, source, reply);
            let b = d.backend->M1k_0;
            &&& e.backend matches BackendView::M1k(a) && a.m_mode[c] == source.mode && a.m_mode[1
                - c] == b.m_mode[1 - c]
            &&& b.m_mode[c] == source.mode || !d.capture_state ==> e.out.len() == d.out.len() + 1
            &&& b.m_mode[c] != source.mode && d.capture_state ==> e.out.len() == d.out.len() + (
            if source.mode == 3 || source.mode == 4 || source.mode == 5 {
                4int
            } else {
                3
            }) && e.out[d.out.len() as int + 1] == vendor_out(0x53, c, (source.mode % 3) as int)
        }),
{
}

// ---- starting and stopping ----

/// The hardware is started once when a capture starts, and the clients are told after
/// it; a test device only counts.
pub proof fn law_start_reaches_the_hardware(d: DeviceView)
    requires
        !d.capture_state,
        !d.capture_done,
    ensures
        ({
            let e = d.started();
            let told = EffectView::Send { clients: d.connections, message: e.capture_message() };
            &&& !(d.backend is Test) ==> e.out == d.out.push(EffectView::Start).push(told)
                && e.backend == d.backend
            &&& d.backend is Test ==> e.out == d.out.push(told)
            &&& d.backend matches BackendView::Test(t) ==> t.starts < u32::MAX ==> (e.backend
                matches BackendView::Test(u) && u.starts == t.starts + 1 && u.pauses == t.pauses
                && u.resets == t.resets)
        }),
{
}

/// What clients are told of a capture is whether it runs and whether it is over.
pub proof fn law_capture_message_says(d: DeviceView)
    ensures
        d.capture_message() matches JsonTree::Object(m) && m.len() == 3 && has(
            m,
            "_action"@,
            JsonTree::Str("captureState"@),
        ) && has(m, "state"@, JsonTree::Bool(d.capture_state)) && has(
            m,
            "done"@,
            JsonTree::Bool(d.capture_done),
        ),
{
    let m = d.capture_message()->Object_0;
    assert(m[0] == ("_action"@, JsonTree::Str("captureState"@)));
    assert(m[1] == ("state"@, JsonTree::Bool(d.capture_state)));
    assert(m[2] == ("done"@, JsonTree::Bool(d.capture_done)));
}

/// A capture that is paused stops the hardware, and its output is counted on from the
/// input. A CEE stops sampling. An M1K stops sampling, and both of its channels drive
/// nothing from then on.
pub proof fn law_pause_reaches_the_hardware(d: DeviceView)
    requires
        d.capture_state,
        d.backend matches BackendView::M1k(b) ==> b.m_mode.len() == 2 && b.frontend.len() == 2,
    ensures
        ({
            let e = d.paused();
            let told = EffectView::Send { clients: d.connections, message: e.capture_message() };
            &&& d.backend is Cee ==> e.capture_o == d.capture_i && e.out == d.out + seq![
                vendor_out(0x80, 0, 0),
                EffectView::Stop,
                told,
            ]
            &&& d.backend is M1k ==> e.capture_o == d.capture_i && e.out == d.out + seq![
                vendor_out(0xC5, 0, 0),
                vendor_out(0x59, 0, 0x3000),
                vendor_out(0x53, 0, 0),
                vendor_out(0x59, 1, 0x3000),
                vendor_out(0x53, 1, 0),
                EffectView::Stop,
                told,
            ]
            &&& e.backend matches BackendView::M1k(a) ==> a.m_mode == seq![0u32, 0u32]
                && !a.frontend[0].output_en && !a.frontend[1].output_en
            &&& d.backend is Test ==> e.capture_o == d.capture_o && e.out == d.out.push(told)
            &&& d.backend matches BackendView::Test(t) ==> t.pauses < u32::MAX ==> (e.backend
                matches BackendView::Test(u) && u.pauses == t.pauses + 1 && u.starts == t.starts
                && u.resets == t.resets)
            &&& e.capture_i == d.capture_i
            &&& e.capture_done == d.capture_done
        }),
{
    let e = d.paused();
    if let BackendView::M1k(b) = d.backend {
        assert(e.out =~= d.out + seq![
            vendor_out(0xC5, 0, 0),
            vendor_out(0x59, 0, 0x3000),
            vendor_out(0x53, 0, 0),
            vendor_out(0x59, 1, 0x3000),
            vendor_out(0x53, 1, 0),
            EffectView::Stop,
            e.out.last(),
        ]);
        assert(e.backend->M1k_0.m_mode =~= seq![0u32, 0u32]);
    }
}

/// A capture that begins anew tells every client so before the hardware is started; the
/// sources of the hardware start with the first sample, and an M1K finds its lead anew.
pub proof fn law_reset_comes_first(d: DeviceView, c: int)
    requires
        d.capture_done,
        !d.capture_state,
        0 <= c < d.channels.len(),
    ensures
        ({
            let e = d.started();
            let reset = EffectView::Send {
                clients: d.connections,
                message: JsonTree::Object(seq![("_action"@, JsonTree::Str("captureReset"@))]),
            };
            let told = EffectView::Send { clients: d.connections, message: e.capture_message() };
            &&& e.out == (if d.backend is Test {
                d.out.push(reset).push(told)
            } else {
                d.out.push(reset).push(EffectView::Start).push(told)
            })
            &&& d.channels[c].source is None ==> e.channels[c].source is None
            &&& d.channels[c].source matches Some(s) ==> e.channels[c].source == Some(
                SourceView {
                    start_sample: if d.backend is Test {
                        s.start_sample
                    } else {
                        0
                    },
                    ..s
                },
            )
            &&& e.channels[c].streams == d.channels[c].streams
            &&& d.backend matches BackendView::Test(t) ==> t.resets < u32::MAX ==> (e.backend
                matches BackendView::Test(u) && u.resets == t.resets + 1)
            &&& e.backend matches BackendView::M1k(b) ==> b.lead_baseline is None && b.lead_count
                == 0 && b.lead_settle == 16 && b.lead_min == i64::MAX
        }),
{
}

/// A capture that comes to its end stops the hardware if it runs, and is over.
pub proof fn law_end_stops_the_hardware(d: DeviceView)
    requires
        !d.capture_continuous,
        d.capture_i >= d.capture_samples,
    ensures
        ({
            let e = d.packet_done();
            &&& e.capture_done
            &&& !e.capture_state
            &&& !d.capture_state ==> e.out.len() == d.out.len() + 1 && e.backend == d.backend
            &&& d.capture_state ==> e.backend == d.paused().backend && e.capture_o
                == d.paused().capture_o && e.out.drop_last() == d.paused().out.drop_last()
        }),
{
    assert(d.packet_done().out.drop_last() =~= d.paused().out.drop_last() || !d.capture_state);
}

// ---- clients of a device ----

/// A device that was taken away says so to every client, and has no listeners; a client
/// that attaches is told the device as it is.
pub proof fn law_clients_are_told(d: DeviceView, client: u64)
    ensures
        ({
            let e = d.disconnected();
            &&& e.out == d.out.push(
                EffectView::Send {
                    clients: d.connections,
                    message: JsonTree::Object(
                        seq![("_action"@, JsonTree::Str("deviceDisconnected"@))],
                    ),
                },
            )
            &&& e.listeners.len() == 0
        }),
        ({
            let e = d.attached(client);
            &&& e.connections == d.connections.push(client)
            &&& e.out == d.out.push(
                EffectView::Send {
                    clients: seq![client],
                    message: JsonTree::Object(
                        seq![
                            ("_action"@, JsonTree::Str("deviceConfig"@)),
                            ("device"@, d.state(false)),
                        ],
                    ),
                },
            )
            &&& e.listeners == d.listeners
        }),
{
}

/// A test device has the channels of every device and a small buffer that fills once.
pub proof fn law_test_device(serial: Seq<char>)
    ensures
        ({
            let d = test_device(serial);
            &&& d.serial == serial
            &&& d.model == "com.nonolithlabs.test"@
            &&& d.hw_version == "T1"@
            &&& d.fw_version == "1.0"@
            &&& d.capture_samples == 1000
            &&& !d.capture_continuous
            &&& !d.capture_state
            &&& !d.capture_done
            &&& !d.raw_mode
            &&& d.capture_i == 0
            &&& d.capture_o == 0
            &&& d.current_limit == 200
            &&& d.sample_time.bits == 0x3f1a_36e2_eb1c_432d
            &&& d.min_sample_time.bits == 0x3ee4_f8b5_88e3_68f1
            &&& d.channels.len() == 2
            &&& d.channels[0].id == "a"@
            &&& d.channels[1].id == "b"@
            &&& d.channels[0].streams[0].data.len() == 1000
            &&& d.connections.len() == 0
            &&& d.listeners.len() == 0
            &&& d.out.len() == 0
            &&& d.backend matches BackendView::Test(t) && t.resets == 0 && t.starts == 0 && t.pauses
                == 0 && t.gain_sets.len() == 0 && t.current_limits.len() == 0
        }),
{
}

} // verus!
