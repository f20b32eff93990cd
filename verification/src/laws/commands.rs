//! What holds of the commands of clients: which command does what.

use crate::command::{returned, Answer, AskView, OutcomeView};
use crate::device::ServerView;
use crate::effect::{ControlView, EffectView};
use crate::jsonutil::{bool_at, int_at, number_at, string_at, JsonTree, Number};
use crate::laws::listening::{law_channel_has_the_name, law_stream_has_the_name};
use crate::laws::numbers::{law_low_bits_are_kept, law_low_bits_with_sign_are_kept};
use crate::laws::settings::{vendor_in, vendor_out};
use crate::listener::listener_from;
use crate::source::source_from;
use crate::streaming::{BackendView, DeviceView};
use crate::usb::bootloader::{base64_bytes, BootView};
use crate::usb::cee::{calibration_members, cee_command, CeeBackend};
use crate::usb::m1k::{
    alert_bit_of, change_from, channel_named, lights_from, lights_tree, m1k_command,
    number_members,
};
use crate::usb::transfer_wanted;
use crate::ws::{reaction_to, ReactionView};
use vstd::prelude::*;
use vstd::utf8::encode_utf8;

verus! {

/// Lengths and first letters of the commands: no two commands share both.
proof fn lemma_command_words()
    ensures
        "listen"@.len() == 6 && "listen"@[0] == 'l',
        "cancelListen"@.len() == 12 && "cancelListen"@[0] == 'c',
        "configure"@.len() == 9 && "configure"@[0] == 'c',
        "startCapture"@.len() == 12 && "startCapture"@[0] == 's',
        "pauseCapture"@.len() == 12 && "pauseCapture"@[0] == 'p',
        "set"@.len() == 3 && "set"@[0] == 's',
        "setGain"@.len() == 7 && "setGain"@[0] == 's',
        "setCurrentLimit"@.len() == 15 && "setCurrentLimit"@[0] == 's',
        "controlTransfer"@.len() == 15 && "controlTransfer"@[0] == 'c',
        "enterBootloader"@.len() == 15 && "enterBootloader"@[0] == 'e',
        "readCalibration"@.len() == 15 && "readCalibration"@[0] == 'r',
        "writeCalibration"@.len() == 16 && "writeCalibration"@[0] == 'w',
        "tempCalibration"@.len() == 15 && "tempCalibration"@[0] == 't',
        "getFrontend"@.len() == 11 && "getFrontend"@[0] == 'g',
        "setFrontend"@.len() == 11 && "setFrontend"@[0] == 's',
        "getPower"@.len() == 8 && "getPower"@[0] == 'g',
        "getTemperature"@.len() == 14 && "getTemperature"@[0] == 'g',
        "getLED"@.len() == 6 && "getLED"@[0] == 'g',
        "setLED"@.len() == 6 && "setLED"@[0] == 's',
        "setSerial"@.len() == 9 && "setSerial"@[0] == 's',
        "erase"@.len() == 5 && "erase"@[0] == 'e',
        "write"@.len() == 5 && "write"@[0] == 'w',
        "crc_app"@.len() == 7 && "crc_app"@[0] == 'c',
        "crc_boot"@.len() == 8 && "crc_boot"@[0] == 'c',
        "reset"@.len() == 5 && "reset"@[0] == 'r',
        "selectDevice"@.len() == 12 && "selectDevice"@[0] == 's' && "selectDevice"@[1] == 'e',
{
    reveal_strlit("listen");
    reveal_strlit("cancelListen");
    reveal_strlit("configure");
    reveal_strlit("startCapture");
    reveal_strlit("pauseCapture");
    reveal_strlit("set");
    reveal_strlit("setGain");
    reveal_strlit("setCurrentLimit");
    reveal_strlit("controlTransfer");
    reveal_strlit("enterBootloader");
    reveal_strlit("readCalibration");
    reveal_strlit("writeCalibration");
    reveal_strlit("tempCalibration");
    reveal_strlit("getFrontend");
    reveal_strlit("setFrontend");
    reveal_strlit("getPower");
    reveal_strlit("getTemperature");
    reveal_strlit("getLED");
    reveal_strlit("setLED");
    reveal_strlit("setSerial");
    reveal_strlit("erase");
    reveal_strlit("write");
    reveal_strlit("crc_app");
    reveal_strlit("crc_boot");
    reveal_strlit("reset");
    reveal_strlit("selectDevice");
}

/// A command that neither the hardware nor the bus knows is one of those that all
/// devices have in common.
proof fn lemma_common(d: DeviceView, client: u64, cmd: Seq<char>, n: JsonTree)
    requires
        cmd == "listen"@ || cmd == "cancelListen"@ || cmd == "configure"@ || cmd
            == "startCapture"@ || cmd == "pauseCapture"@ || cmd == "set"@ || cmd == "setGain"@ || cmd
            == "setCurrentLimit"@,
    ensures
        d.command(client, cmd, n) == d.common_command(client, cmd, n),
{
    lemma_command_words();
    reveal(m1k_command);
    reveal(cee_command);
    assert(d.out + Seq::empty() =~= d.out);
    assert(d.hardware_command(client, cmd, n) == (
        d,
        Ok::<OutcomeView, Seq<char>>(OutcomeView::Unknown),
    ));
    assert(d.bus_command(client, cmd, n) == (
        d,
        Ok::<OutcomeView, Seq<char>>(OutcomeView::Unknown),
    ));
}

// ---- commands of every device ----

/// A capture is started and paused by the commands of these names.
pub proof fn law_commands_for_captures(d: DeviceView, client: u64, n: JsonTree)
    ensures
        d.command(client, "startCapture"@, n) == (
            d.started(),
            Ok::<OutcomeView, Seq<char>>(OutcomeView::Handled),
        ),
        d.command(client, "pauseCapture"@, n) == (
            d.paused(),
            Ok::<OutcomeView, Seq<char>>(OutcomeView::Handled),
        ),
{
    lemma_command_words();
    lemma_common(d, client, "startCapture"@, n);
    lemma_common(d, client, "pauseCapture"@, n);
}

/// A configuration has the numbers of the command, and takes place if and only if the
/// command has mode, samples and time; what is missing first is told. The device does
/// not change before.
pub proof fn law_command_to_configure(d: DeviceView, client: u64, n: JsonTree)
    ensures
        ({
            let (e, r) = d.command(client, "configure"@, n);
            let mode = int_at(n, "mode"@);
            let samples = int_at(n, "samples"@);
            let time = number_at(n, "sampleTime"@);
            &&& e == d
            &&& mode is None ==> r == Err::<OutcomeView, Seq<char>>(
                "JSON missing int property: "@ + "mode"@,
            )
            &&& mode is Some && samples is None ==> r == Err::<OutcomeView, Seq<char>>(
                "JSON missing int property: "@ + "samples"@,
            )
            &&& mode is Some && samples is Some && time is None ==> r == Err::<
                OutcomeView,
                Seq<char>,
            >("JSON missing float property: "@ + "sampleTime"@)
            &&& mode is Some && samples is Some && time is Some ==> {
                &&& r matches Ok(OutcomeView::Configure(c))
                &&& (c.mode - mode->Some_0) % 0x1_0000_0000 == 0
                &&& c.samples == samples->Some_0 as int % 0x1_0000_0000
                &&& c.sample_time == time->Some_0
                &&& c.continuous <==> bool_at(n, "continuous"@) == Some(true)
                &&& c.raw <==> bool_at(n, "raw"@) == Some(true)
            }
        }),
{
    lemma_command_words();
    lemma_common(d, client, "configure"@, n);
    law_low_bits_with_sign_are_kept(int_at(n, "mode"@).unwrap_or(0));
    law_low_bits_are_kept(int_at(n, "samples"@).unwrap_or(0));
}

/// A source is set for the channel that the command names and is the one that it
/// describes; where there is no such channel or no such source, that is told.
pub proof fn law_command_to_set(d: DeviceView, client: u64, n: JsonTree)
    ensures
        ({
            let (e, r) = d.command(client, "set"@, n);
            let name = string_at(n, "channel"@);
            &&& e == d
            &&& r matches Ok(o) ==> (o matches OutcomeView::Output { chan, source } && 0 <= chan
                < d.channels.len() && name == Some(d.channels[chan].id) && source_from(n) == Ok::<
                crate::source::SourceView,
                Seq<char>,
            >(source))
            &&& name is None ==> r == Err::<OutcomeView, Seq<char>>(
                "JSON missing string property: "@ + "channel"@,
            )
            &&& name matches Some(c) ==> {
                &&& d.channel(c) is None ==> r == Err::<OutcomeView, Seq<char>>(
                    "Channel not found"@,
                )
                &&& d.channel(c) is Some && source_from(n) is Err ==> r == Err::<
                    OutcomeView,
                    Seq<char>,
                >(source_from(n)->Err_0)
                &&& d.channel(c) is Some && source_from(n) is Ok ==> r is Ok
            }
        }),
{
    lemma_command_words();
    lemma_common(d, client, "set"@, n);
    if let Some(c) = string_at(n, "channel"@) {
        law_channel_has_the_name(d, c);
    }
}

/// A gain is set for the stream that the command names, and is one where the command
/// has none; where there is no such stream, that is told.
pub proof fn law_command_to_set_gain(d: DeviceView, client: u64, n: JsonTree)
    ensures
        ({
            let (e, r) = d.command(client, "setGain"@, n);
            &&& e == d
            &&& r matches Ok(o) ==> (o matches OutcomeView::Gain { chan, stream, gain } && 0 <= chan
                < d.channels.len() && 0 <= stream < d.channels[chan].streams.len() && string_at(
                n,
                "channel"@,
            ) == Some(d.channels[chan].id) && string_at(n, "stream"@) == Some(
                d.channels[chan].streams[stream].id,
            ) && (number_at(n, "gain"@) matches Some(g) ==> gain == g) && (number_at(n, "gain"@)
                is None ==> gain.bits == 0x3ff0_0000_0000_0000))
            &&& r is Ok <==> (string_at(n, "channel"@) matches Some(c) && (string_at(n, "stream"@)
                matches Some(s) && d.stream(c, s) is Ok))
            &&& string_at(n, "channel"@) is None ==> r == Err::<OutcomeView, Seq<char>>(
                "JSON missing string property: "@ + "channel"@,
            )
            &&& string_at(n, "channel"@) matches Some(c) ==> {
                &&& d.channel(c) is None ==> r == Err::<OutcomeView, Seq<char>>(
                    "Channel not found"@,
                )
                &&& d.channel(c) is Some && string_at(n, "stream"@) is None ==> r == Err::<
                    OutcomeView,
                    Seq<char>,
                >("JSON missing string property: "@ + "stream"@)
            }
        }),
{
    lemma_command_words();
    lemma_common(d, client, "setGain"@, n);
    if let Some(c) = string_at(n, "channel"@) {
        law_channel_has_the_name(d, c);
        if let Some(s) = string_at(n, "stream"@) {
            law_stream_has_the_name(d, c, s);
        }
    }
}

/// A current limit is the number that the command has, without what is behind its
/// point.
pub proof fn law_command_to_limit(d: DeviceView, client: u64, n: JsonTree)
    ensures
        ({
            let (e, r) = d.command(client, "setCurrentLimit"@, n);
            &&& number_at(n, "currentLimit"@) is None ==> e == d && r == Err::<
                OutcomeView,
                Seq<char>,
            >("JSON missing float property: "@ + "currentLimit"@)
            &&& int_at(n, "currentLimit"@) matches Some(x) ==> {
                &&& r == Ok::<OutcomeView, Seq<char>>(OutcomeView::Handled)
                &&& 0 <= x <= u32::MAX ==> e == d.limited(x as u32)
                &&& x < 0 ==> e == d.limited(0)
                &&& x > u32::MAX ==> e == d.limited(u32::MAX)
            }
        }),
{
    lemma_command_words();
    lemma_common(d, client, "setCurrentLimit"@, n);
}

/// A command to listen puts the listener that it asks for behind those that are there,
/// in place of one with its id; a command to stop ends the one with its id.
pub proof fn law_commands_to_listen(d: DeviceView, client: u64, n: JsonTree, id: i64)
    requires
        int_at(n, "id"@) == Some(id),
    ensures
        ({
            let (e, r) = d.command(client, "listen"@, n);
            let without = d.unlistened(client, id);
            match listener_from(without, client, n) {
                Ok(l) => e.listeners == without.listeners.push(l) && r == Ok::<
                    OutcomeView,
                    Seq<char>,
                >(OutcomeView::Listening) && l.id == id,
                Err(m) => e == without && r == Err::<OutcomeView, Seq<char>>(m),
            }
        }),
        d.command(client, "cancelListen"@, n) == (
            d.unlistened(client, id),
            Ok::<OutcomeView, Seq<char>>(OutcomeView::Handled),
        ),
{
    lemma_command_words();
    lemma_common(d, client, "listen"@, n);
    lemma_common(d, client, "cancelListen"@, n);
}

// ---- commands of hardware on a bus ----

/// A transfer that a client asks for is done as asked, and answered with its id; a
/// device is sent to its boot loader by one request. Neither touches what the device
/// has, and a test device knows neither.
pub proof fn law_commands_of_the_bus(d: DeviceView, client: u64, n: JsonTree)
    ensures
        !(d.backend is Test) ==> ({
            let (e, r) = d.command(client, "controlTransfer"@, n);
            &&& e == d
            &&& transfer_wanted(n) matches Err(m) ==> r == Err::<OutcomeView, Seq<char>>(m)
            &&& transfer_wanted(n) matches Ok(c) ==> r == Ok::<OutcomeView, Seq<char>>(
                OutcomeView::Ask(
                    AskView {
                        client,
                        id: int_at(n, "id"@).unwrap_or(0),
                        answer: Answer::Transfer,
                        requests: seq![c],
                        bulk: None,
                    },
                ),
            )
        }),
        !(d.backend is Test) ==> d.command(client, "enterBootloader"@, n) == (
            DeviceView {
                out: d.out.push(EffectView::Control(vendor_in(0xBB, 0, 0, 100))),
                ..d
            },
            Ok::<OutcomeView, Seq<char>>(OutcomeView::Handled),
        ),
        d.backend is Test ==> d.command(client, "controlTransfer"@, n) == (
            d,
            Ok::<OutcomeView, Seq<char>>(OutcomeView::Unknown),
        ),
{
    lemma_command_words();
    reveal(m1k_command);
    reveal(cee_command);
    assert(d.out + Seq::empty() =~= d.out);
    let a = "controlTransfer"@;
    let b = "enterBootloader"@;
    assert(d.hardware_command(client, a, n) == (
        d,
        Ok::<OutcomeView, Seq<char>>(OutcomeView::Unknown),
    ));
    assert(d.hardware_command(client, b, n) == (
        d,
        Ok::<OutcomeView, Seq<char>>(OutcomeView::Unknown),
    ));
    assert(d.out + seq![EffectView::Control(vendor_in(0xBB, 0, 0, 100))] =~= d.out.push(
        EffectView::Control(vendor_in(0xBB, 0, 0, 100)),
    ));
}

// ---- commands of an M1K ----

/// A message to the client that sent a command.
pub open spec fn answer(client: u64, id: i64, extra: Seq<(Seq<char>, JsonTree)>) -> EffectView {
    EffectView::Send { clients: seq![client], message: returned(id, extra) }
}

/// Reading from an M1K changes nothing. What the server knows is answered at once; the
/// power supply and the two temperatures are asked for.
pub proof fn law_reading_from_an_m1k(d: DeviceView, client: u64, n: JsonTree)
    requires
        d.backend is M1k,
    ensures
        ({
            let b = d.backend->M1k_0;
            let id = int_at(n, "id"@).unwrap_or(0);
            let handled = Ok::<OutcomeView, Seq<char>>(OutcomeView::Handled);
            &&& d.command(client, "readCalibration"@, n) == (
                DeviceView {
                    out: d.out.push(
                        answer(
                            client,
                            id,
                            number_members(b.cal).push(("valid"@, JsonTree::Bool(b.cal.valid))),
                        ),
                    ),
                    ..d
                },
                handled,
            )
            &&& d.command(client, "getFrontend"@, n) == (
                DeviceView {
                    out: d.out.push(answer(client, id, seq![("frontend"@, b.frontend_document())])),
                    ..d
                },
                handled,
            )
            &&& d.command(client, "getLED"@, n) == (
                DeviceView {
                    out: d.out.push(answer(client, id, seq![("leds"@, lights_tree(b.led_state))])),
                    ..d
                },
                handled,
            )
            &&& d.command(client, "getPower"@, n) == (
                d,
                Ok::<OutcomeView, Seq<char>>(
                    OutcomeView::Ask(
                        AskView {
                            client,
                            id,
                            answer: Answer::Power { alert_bit: alert_bit_of(d.fw_version) },
                            requests: seq![vendor_in(0x17, 0, 3, 3)],
                            bulk: None,
                        },
                    ),
                ),
            )
            &&& d.command(client, "getTemperature"@, n) == (
                d,
                Ok::<OutcomeView, Seq<char>>(
                    OutcomeView::Ask(
                        AskView {
                            client,
                            id,
                            answer: Answer::Temperature,
                            requests: seq![vendor_in(0x19, 0, 0, 2), vendor_in(0x19, 1, 0, 2)],
                            bulk: None,
                        },
                    ),
                ),
            )
        }),
{
    lemma_command_words();
    reveal(m1k_command);
    assert(d.out + Seq::empty() =~= d.out);
    let b = d.backend->M1k_0;
    let id = int_at(n, "id"@).unwrap_or(0);
    let valid = ("valid"@, JsonTree::Bool(b.cal.valid));
    assert(number_members(b.cal) + seq![valid] =~= number_members(b.cal).push(valid));
    let a1 = answer(client, id, number_members(b.cal).push(valid));
    let a2 = answer(client, id, seq![("frontend"@, b.frontend_document())]);
    let a3 = answer(client, id, seq![("leds"@, lights_tree(b.led_state))]);
    assert(d.out + seq![a1] =~= d.out.push(a1));
    assert(d.out + seq![a2] =~= d.out.push(a2));
    assert(d.out + seq![a3] =~= d.out.push(a3));
}

/// Lights that are set are sent to the device and told to the client, and are the
/// lights from then on.
pub proof fn law_setting_lights(d: DeviceView, client: u64, n: JsonTree)
    requires
        d.backend is M1k,
    ensures
        ({
            let (e, r) = d.command(client, "setLED"@, n);
            let id = int_at(n, "id"@).unwrap_or(0);
            let state = lights_from(d.backend->M1k_0.led_state, n);
            &&& r == Ok::<OutcomeView, Seq<char>>(OutcomeView::Handled)
            &&& e.backend matches BackendView::M1k(a) && a.led_state == state && a.frontend
                == d.backend->M1k_0.frontend && a.m_mode == d.backend->M1k_0.m_mode && a.cal
                == d.backend->M1k_0.cal
            &&& e.out == d.out + seq![
                vendor_out(0x03, state as int, 0),
                answer(client, id, seq![("leds"@, lights_tree(state))]),
            ]
            &&& e.channels == d.channels
        }),
{
    lemma_command_words();
    reveal(m1k_command);
}

/// A front end that is set is sent to the device, and the client is told the front end
/// as it then is.
pub proof fn law_setting_front_ends(d: DeviceView, client: u64, n: JsonTree)
    requires
        d.backend is M1k,
    ensures
        ({
            let (e, r) = d.command(client, "setFrontend"@, n);
            let id = int_at(n, "id"@).unwrap_or(0);
            let b = d.backend->M1k_0;
            &&& string_at(n, "channel"@) is None ==> e == d && r == Err::<OutcomeView, Seq<char>>(
                "JSON missing string property: "@ + "channel"@,
            )
            &&& string_at(n, "channel"@) matches Some(name) ==> {
                let c = channel_named(name);
                let a = b.with_frontend(c, change_from(n));
                &&& r == Ok::<OutcomeView, Seq<char>>(OutcomeView::Handled)
                &&& e.backend == BackendView::M1k(a)
                &&& e.out == (d.out + change_from(n).requests(c, b.frontend[c])).push(
                    answer(client, id, seq![("frontend"@, a.frontend_document())]),
                )
            }
        }),
{
    lemma_command_words();
    reveal(m1k_command);
    assert(d.out + Seq::empty() =~= d.out);
    let b = d.backend->M1k_0;
    let id = int_at(n, "id"@).unwrap_or(0);
    if let Some(name) = string_at(n, "channel"@) {
        let c = channel_named(name);
        let a = b.with_frontend(c, change_from(n));
        let told = answer(client, id, seq![("frontend"@, a.frontend_document())]);
        let todo = change_from(n).requests(c, b.frontend[c]);
        assert(d.out + todo.push(told) =~= (d.out + todo).push(told));
    }
}

/// A calibration and a serial number are written by one request each, and the client
/// is told its status. The calibration is in use at once. A serial number that is empty
/// or too long is refused.
pub proof fn law_writing_to_an_m1k(d: DeviceView, client: u64, n: JsonTree)
    requires
        d.backend is M1k,
    ensures
        ({
            let id = int_at(n, "id"@).unwrap_or(0);
            let (e, r) = d.command(client, "writeCalibration"@, n);
            let (f, s) = d.command(client, "setSerial"@, n);
            let serial = encode_utf8(string_at(n, "serial"@).unwrap_or(""@));
            &&& crate::usb::m1k::calibration_from(n) matches Err(m) ==> e == d && r == Err::<
                OutcomeView,
                Seq<char>,
            >(m)
            &&& crate::usb::m1k::calibration_from(n) matches Ok(cal) ==> {
                &&& e.backend matches BackendView::M1k(a) && a.cal == cal && a.frontend
                    == d.backend->M1k_0.frontend && a.led_state == d.backend->M1k_0.led_state
                &&& e.out == d.out
                &&& r == Ok::<OutcomeView, Seq<char>>(
                    OutcomeView::Ask(
                        AskView {
                            client,
                            id,
                            answer: Answer::Status,
                            requests: seq![
                                ControlView {
                                    request_type: 0x40,
                                    request: 0x02,
                                    value: 0,
                                    index: 0,
                                    length: 0,
                                    data: cal.stored(),
                                },
                            ],
                            bulk: None,
                        },
                    ),
                )
            }
            &&& 1 <= serial.len() <= 32 ==> f == d && s == Ok::<OutcomeView, Seq<char>>(
                OutcomeView::Ask(
                    AskView {
                        client,
                        id,
                        answer: Answer::Status,
                        requests: seq![
                            ControlView {
                                request_type: 0x40,
                                request: 0x05,
                                value: 0,
                                index: 0,
                                length: 0,
                                data: serial,
                            },
                        ],
                        bulk: None,
                    },
                ),
            )
            &&& serial.len() == 0 || serial.len() > 32 ==> s == Ok::<OutcomeView, Seq<char>>(
                OutcomeView::Handled,
            ) && f.out == d.out.push(
                answer(
                    client,
                    id,
                    seq![("status"@, JsonTree::Number(Number::Signed((-1) as i64)))],
                ),
            )
        }),
{
    lemma_command_words();
    reveal(m1k_command);
    assert(d.out + Seq::empty() =~= d.out);
    let id = int_at(n, "id"@).unwrap_or(0);
    let no = answer(
        client,
        id,
        seq![("status"@, JsonTree::Number(Number::Signed((-1) as i64)))],
    );
    assert(d.out + seq![no] =~= d.out.push(no));
}

// ---- commands of a CEE ----

/// A calibration of a CEE is told, written or set for the time being. One that is
/// written or set is in use at once; only one that is written goes to the device.
pub proof fn law_calibrating_a_cee(d: DeviceView, client: u64, n: JsonTree)
    requires
        d.backend is Cee,
    ensures
        ({
            let b = d.backend->Cee_0;
            let id = int_at(n, "id"@).unwrap_or(0);
            let (e, r) = d.command(client, "writeCalibration"@, n);
            &&& d.command(client, "readCalibration"@, n) == (
                DeviceView {
                    out: d.out.push(answer(client, id, calibration_members(b.cal))),
                    ..d
                },
                Ok::<OutcomeView, Seq<char>>(OutcomeView::Handled),
            )
            &&& d.command(client, "tempCalibration"@, n) == (
                DeviceView {
                    backend: BackendView::Cee(
                        CeeBackend { cal: crate::usb::cee::offsets_from(b.cal, n), ..b },
                    ),
                    ..d
                },
                Ok::<OutcomeView, Seq<char>>(OutcomeView::Handled),
            )
            &&& crate::usb::cee::calibration_from(n) matches Err(m) ==> e == d && r == Err::<
                OutcomeView,
                Seq<char>,
            >(m)
            &&& crate::usb::cee::calibration_from(n) matches Ok(cal) ==> {
                &&& e == (DeviceView { backend: BackendView::Cee(CeeBackend { cal, ..b }), ..d })
                &&& r == Ok::<OutcomeView, Seq<char>>(
                    OutcomeView::Ask(
                        AskView {
                            client,
                            id,
                            answer: Answer::Status,
                            requests: seq![
                                ControlView {
                                    request_type: 0x40,
                                    request: 0xE1,
                                    value: 0,
                                    index: 0,
                                    length: 0,
                                    data: cal.stored(),
                                },
                            ],
                            bulk: None,
                        },
                    ),
                )
            }
        }),
{
    lemma_command_words();
    reveal(cee_command);
    assert(d.out + Seq::empty() =~= d.out);
    let b = d.backend->Cee_0;
    let id = int_at(n, "id"@).unwrap_or(0);
    let told = answer(client, id, calibration_members(b.cal));
    assert(d.out + seq![told] =~= d.out.push(told));
}

// ---- commands of a boot loader ----

/// A boot loader is erased, written, checked and left by one request each; the bytes
/// that are written are those that the client sent as base64, and go in one bulk
/// transfer.
pub proof fn law_commands_of_a_boot_loader(b: BootView, client: u64, n: JsonTree)
    ensures
        ({
            let id = int_at(n, "id"@).unwrap_or(0);
            let plain = |answer: Answer, request: u8, length: int|
                Ok::<OutcomeView, Seq<char>>(
                    OutcomeView::Ask(
                        AskView {
                            client,
                            id,
                            answer,
                            requests: seq![vendor_in(request, 0, 0, length)],
                            bulk: None,
                        },
                    ),
                );
            &&& b.command(client, "erase"@, n) == (b, plain(Answer::Done, 0xB1, 0))
            &&& b.command(client, "crc_app"@, n) == (b, plain(Answer::Crc, 0xB3, 64))
            &&& b.command(client, "crc_boot"@, n) == (b, plain(Answer::Crc, 0xB4, 64))
            &&& b.command(client, "reset"@, n) == (
                BootView { out: b.out.push(EffectView::Control(vendor_in(0xBF, 0, 0, 0))), ..b },
                Ok::<OutcomeView, Seq<char>>(OutcomeView::Handled),
            )
            &&& b.command(client, "write"@, n).0 == b
            &&& string_at(n, "data"@) matches Some(s) ==> {
                &&& base64_bytes(s) is None ==> b.command(client, "write"@, n).1 == Err::<
                    OutcomeView,
                    Seq<char>,
                >("Invalid base64 data"@)
                &&& base64_bytes(s) matches Some(bytes) ==> b.command(client, "write"@, n).1
                    == Ok::<OutcomeView, Seq<char>>(
                    OutcomeView::Ask(
                        AskView {
                            client,
                            id,
                            answer: Answer::Result,
                            requests: seq![vendor_in(0xB2, 0, 0, 0)],
                            bulk: Some(bytes),
                        },
                    ),
                )
            }
            &&& string_at(n, "data"@) is None ==> b.command(client, "write"@, n).1 == Err::<
                OutcomeView,
                Seq<char>,
            >("JSON missing string property: "@ + "data"@)
        }),
{
    lemma_command_words();
}

// ---- selecting ----

/// A client that selects a device is attached to it and let go by the one that it had,
/// and from then on its commands go there; nothing is answered.
pub proof fn law_selecting_a_device(
    s: ServerView,
    client: u64,
    device: Option<u64>,
    n: JsonTree,
    key: u64,
)
    requires
        string_at(n, "_cmd"@) == Some("selectDevice"@),
        string_at(n, "id"@) matches Some(name) && s.named(name) == Some(key),
    ensures
        ({
            let (t, now, r) = reaction_to(s, client, device, n);
            &&& now == Some(key)
            &&& r is Nothing
            &&& device is None ==> t == s.attached(key, client)
            &&& device matches Some(before) ==> t == s.detached(before, client).attached(
                key,
                client,
            )
        }),
{
}

/// A command goes to the device that the client has selected and to no other, and what
/// it comes to is for that device.
pub proof fn law_commands_reach_the_selected_device(
    s: ServerView,
    client: u64,
    key: u64,
    n: JsonTree,
    cmd: Seq<char>,
    i: int,
    j: int,
)
    requires
        string_at(n, "_cmd"@) == Some(cmd),
        cmd != "selectDevice"@,
        s.at(key) == Some(i),
        0 <= i < s.devices.len(),
        0 <= j < s.devices.len(),
        j != i,
    ensures
        ({
            let (t, now, r) = reaction_to(s, client, Some(key), n);
            let (d, o) = s.devices[i].dev.command(client, cmd, n);
            &&& now == Some(key)
            &&& t.devices.len() == s.devices.len()
            &&& t.devices[i].dev == d
            &&& t.devices[i].key == s.devices[i].key
            &&& t.devices[i].listed == s.devices[i].listed
            &&& t.devices[j] == s.devices[j]
            &&& o matches Ok(outcome) ==> (outcome is Unknown ==> r is Nothing) && (!(outcome
                is Unknown) ==> r == (ReactionView::Outcome { key, outcome }))
        }),
{
}

/// A message without a command is answered with what it lacks.
pub proof fn law_messages_need_a_command(
    s: ServerView,
    client: u64,
    device: Option<u64>,
    n: JsonTree,
)
    requires
        string_at(n, "_cmd"@) is None,
    ensures
        ({
            let (t, now, r) = reaction_to(s, client, device, n);
            &&& t == s
            &&& now == device
            &&& r == ReactionView::Reply(
                crate::ws::error_message("JSON missing string property: "@ + "_cmd"@, 0),
            )
        }),
{
}

} // verus!
