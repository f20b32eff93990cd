//! What holds of the hardware: what it is asked and told, and what is made of its
//! answers.

use crate::command::{returned, Answer, AskView};
use crate::effect::{ControlView, EffectView, ReplyView};
use crate::float::Single;
use crate::jsonutil::{array_at, bool_at, field, int_at, number_of, JsonTree, Number};
use crate::laws::listening::has;
use crate::laws::numbers::{law_low_bits_are_kept, law_low_bits_with_sign_are_kept};
use crate::laws::settings::{vendor_in, vendor_out};
use crate::streaming::{BackendView, DeviceView};
use crate::usb::bootloader::{hex8, hex_digit, hex_weight, BootView, InfoView};
use crate::usb::cee::{cee_calibration, cee_reset, first_limit, full_version, least_period, CeeCal};
use crate::usb::discovery::{bare_device, first_configuration, questions};
use crate::usb::m1k::{
    alert_bit_of, change_from, channel_named, lights, lights_from, lights_tree, m1k_calibration,
    mode_requests, switch_request, turned, CalView, Frontend, FrontendChange, M1kView, Switch,
};
use crate::usb::{
    answer_of, crc_of, kind_of_ids, payload, pins_tree, power_tree, temperature_tree, text_told,
    transfer_wanted, Kind,
};
use crate::wire::{from_be16, from_be32, from_le16, from_le32, le16, le32};
use vstd::prelude::*;
use vstd::utf8::encode_utf8;

verus! {

// ---- numbers in bytes ----

/// A number that was written low byte first is read low byte first again, and the byte
/// that counts least is the first; of one that is read high byte first it is the last.
pub proof fn law_numbers_in_bytes(d: Seq<u8>, at: int, x: u16, y: u32)
    requires
        0 <= at,
        at + 4 <= d.len(),
    ensures
        le16(x).len() == 2,
        le16(x)[0] + 256 * le16(x)[1] == x,
        le32(y).len() == 4,
        le32(y)[0] + 256 * (le32(y)[1] + 256 * (le32(y)[2] + 256 * le32(y)[3])) == y,
        from_le16(d, at) == d[at] + 256 * d[at + 1],
        from_be16(d, at) == d[at + 1] + 256 * d[at],
        from_le32(d, at) == d[at] + 256 * (d[at + 1] + 256 * (d[at + 2] + 256 * d[at + 3])),
        from_be32(d, at) == d[at + 3] + 256 * (d[at + 2] + 256 * (d[at + 1] + 256 * d[at])),
{
}

// ---- modes of an M1K ----

/// The requests that set a mode: first the potentiometers, which are at their ends for
/// a mode that drives a voltage or a current, then the mode, of which the splitting
/// counts apart, and then, if the mode splits, the pin of the channel that splits.
pub proof fn law_mode_requests(channel: int, mode: u32)
    requires
        0 <= channel < 2,
        mode <= 5,
    ensures
        ({
            let pots: int = if mode % 3 == 0 {
                0x3000
            } else if mode % 3 == 1 {
                0
            } else {
                0x7f7f
            };
            let two = seq![
                vendor_out(0x59, channel, pots),
                vendor_out(0x53, channel, (mode % 3) as int),
            ];
            &&& mode < 3 ==> mode_requests(channel, mode) == two
            &&& mode >= 3 ==> mode_requests(channel, mode) == two.push(
                vendor_out(0x51, 34 + 5 * channel, 0),
            )
        }),
{
}

/// What the front end is said to be in a mode is what the requests for the mode make of
/// it: the output is on in the modes that drive something, the feedback is on, and the
/// potentiometers are where they were sent.
pub proof fn law_mode_and_front_end_agree(b: M1kView, channel: int, mode: u32)
    requires
        0 <= channel < 2,
        mode <= 5,
        b.m_mode.len() == 2,
        b.frontend.len() == 2,
    ensures
        ({
            let a = b.with_mode(channel, mode);
            let fe = a.frontend[channel];
            &&& a.m_mode[channel] == mode
            &&& fe.feedback
            &&& fe.output_en <==> mode == 1 || mode == 2 || mode == 4 || mode == 5
            &&& fe.split <==> mode >= 3
            &&& mode_requests(channel, mode)[0] == vendor_out(
                0x59,
                channel,
                fe.pot_r1 * 256 + fe.pot_r2,
            )
            &&& fe.r50_gnd == b.frontend[channel].r50_gnd
            &&& fe.r50_2v5 == b.frontend[channel].r50_2v5
            &&& a.m_mode[1 - channel] == b.m_mode[1 - channel]
            &&& a.frontend[1 - channel] == b.frontend[1 - channel]
            &&& a.led_state == b.led_state
            &&& a.cal == b.cal
        }),
{
}

/// An M1K that starts is set to the modes that its channels have, is stopped, and is
/// made ready; then it is told to sample, with the time of a sample, from a frame that
/// comes a little after the one that it told. A CEE is told to sample at once.
pub proof fn law_start_of_sampling(d: DeviceView, sof: ReplyView)
    requires
        d.backend matches BackendView::M1k(b) ==> b.m_mode.len() == 2 && b.frontend.len() == 2
            && b.m_mode[0] <= 5 && b.m_mode[1] <= 5,
    ensures
        d.backend matches BackendView::M1k(b) ==> {
            &&& d.m1k_prepared().out == d.out + mode_requests(0, b.m_mode[0]) + mode_requests(
                1,
                b.m_mode[1],
            ) + seq![vendor_out(0xC5, 0, 0), vendor_out(0xCC, 0, 0)]
            &&& d.m1k_prepared().backend matches BackendView::M1k(a) && a.m_mode == b.m_mode
            &&& d.m1k_begun(sof).capture_o == d.capture_i
            &&& sof.status >= 2 && sof.data.len() >= 2 ==> {
                let frame = (sof.data[0] + 256 * sof.data[1]) / 8;
                d.m1k_begun(sof).out == d.out.push(
                    vendor_out(0xC5, (b.m1k_per as u16) as int, 8 * ((frame + 31) % 2048)),
                )
            }
            &&& sof.status < 2 || sof.data.len() < 2 ==> d.m1k_begun(sof).out == d.out.push(
                vendor_out(0xC5, (b.m1k_per as u16) as int, 248),
            )
        },
        d.backend matches BackendView::Cee(b) ==> {
            let e = d.cee_begun();
            &&& e.capture_o == d.capture_i
            &&& e.out == d.out.push(vendor_out(0x80, (b.xmega_per as u16) as int, 1))
            &&& e.backend matches BackendView::Cee(a) && a.first_packet && a.cal == b.cal
                && a.xmega_per == b.xmega_per
        },
{
    if let BackendView::M1k(b) = d.backend {
        assert(b.with_mode(0, b.m_mode[0]).with_mode(1, b.m_mode[1]).m_mode =~= b.m_mode);
    }
}

// ---- front end ----

/// The switches of a channel have pins of their own, those of the second channel five
/// after those of the first. A pin goes low to turn a switch on, but for the one that
/// splits, which goes high.
pub proof fn law_switch_requests(channel: int, on: bool)
    requires
        0 <= channel < 2,
    ensures
        ({
            let low = if on {
                0x50u8
            } else {
                0x51u8
            };
            let high = if on {
                0x51u8
            } else {
                0x50u8
            };
            &&& switch_request(channel, Switch::R502v5, on) == vendor_out(low, 32 + 5 * channel, 0)
            &&& switch_request(channel, Switch::R50Gnd, on) == vendor_out(low, 33 + 5 * channel, 0)
            &&& switch_request(channel, Switch::Feedback, on) == vendor_out(
                low,
                34 + 5 * channel,
                0,
            )
            &&& switch_request(channel, Switch::OutputEn, on) == vendor_out(
                low,
                35 + 5 * channel,
                0,
            )
            &&& switch_request(channel, Switch::Split, on) == vendor_out(high, 34 + 5 * channel, 0)
        }),
{
}

/// A change of the front end makes of every switch what is wished for it and leaves the
/// others as they are, and the requests for it are those that turn these switches and,
/// if the potentiometers are to be set, the one that sets both.
pub proof fn law_front_end_is_as_wished(b: M1kView, channel: int, change: FrontendChange)
    requires
        0 <= channel < 2,
        b.frontend.len() == 2,
    ensures
        ({
            let a = b.with_frontend(channel, change);
            let was = b.frontend[channel];
            let is = a.frontend[channel];
            let todo = change.requests(channel, was);
            &&& is.r50_2v5 == change.r50_2v5.unwrap_or(was.r50_2v5)
            &&& is.r50_gnd == change.r50_gnd.unwrap_or(was.r50_gnd)
            &&& is.feedback == change.feedback.unwrap_or(was.feedback)
            &&& is.output_en == change.output_en.unwrap_or(was.output_en)
            &&& is.split == change.split.unwrap_or(was.split)
            &&& change.pots ==> is.pot_r1 == change.pot_r1.unwrap_or(was.pot_r1) && is.pot_r2
                == change.pot_r2.unwrap_or(was.pot_r2)
            &&& !change.pots ==> is.pot_r1 == was.pot_r1 && is.pot_r2 == was.pot_r2
            &&& a.frontend[1 - channel] == b.frontend[1 - channel]
            &&& a.m_mode == b.m_mode
            &&& a.led_state == b.led_state
            &&& a.cal == b.cal
            &&& change.r50_2v5 matches Some(on) ==> todo.contains(
                switch_request(channel, Switch::R502v5, on),
            )
            &&& change.r50_gnd matches Some(on) ==> todo.contains(
                switch_request(channel, Switch::R50Gnd, on),
            )
            &&& change.feedback matches Some(on) ==> todo.contains(
                switch_request(channel, Switch::Feedback, on),
            )
            &&& change.output_en matches Some(on) ==> todo.contains(
                switch_request(channel, Switch::OutputEn, on),
            )
            &&& change.split matches Some(on) ==> todo.contains(
                switch_request(channel, Switch::Split, on),
            )
            &&& change.pots ==> todo.contains(
                vendor_out(0x59, channel, is.pot_r1 * 256 + is.pot_r2),
            )
            &&& todo.len() == one(change.r50_2v5 is Some) + one(change.r50_gnd is Some) + one(
                change.feedback is Some,
            ) + one(change.output_en is Some) + one(change.split is Some) + one(change.pots)
        }),
{
    let was = b.frontend[channel];
    let todo = change.requests(channel, was);
    let n1 = one(change.r50_2v5 is Some);
    let n2 = n1 + one(change.r50_gnd is Some);
    let n3 = n2 + one(change.feedback is Some);
    let n4 = n3 + one(change.output_en is Some);
    let n5 = n4 + one(change.split is Some);
    assert(change.r50_2v5 matches Some(on) ==> todo[0] == switch_request(
        channel,
        Switch::R502v5,
        on,
    ));
    assert(change.r50_gnd matches Some(on) ==> todo[n1] == switch_request(
        channel,
        Switch::R50Gnd,
        on,
    ));
    assert(change.feedback matches Some(on) ==> todo[n2] == switch_request(
        channel,
        Switch::Feedback,
        on,
    ));
    assert(change.output_en matches Some(on) ==> todo[n3] == switch_request(
        channel,
        Switch::OutputEn,
        on,
    ));
    assert(change.split matches Some(on) ==> todo[n4] == switch_request(
        channel,
        Switch::Split,
        on,
    ));
    if change.pots {
        let is = change.applied(was);
        assert(todo[n5] == vendor_out(0x59, channel, is.pot_r1 * 256 + is.pot_r2));
    }
}

/// A switch that is turned is as it was turned, and everything else of the front end
/// stays as it is; potentiometers that are set are where they were set, and nothing
/// else moves.
pub proof fn law_one_switch_is_turned(fe: Frontend, on: bool, b: M1kView, c: int, r1: u8, r2: u8)
    requires
        0 <= c < b.frontend.len(),
    ensures
        turned(fe, Switch::R502v5, on) == (Frontend { r50_2v5: on, ..fe }),
        turned(fe, Switch::R50Gnd, on) == (Frontend { r50_gnd: on, ..fe }),
        turned(fe, Switch::Feedback, on) == (Frontend { feedback: on, ..fe }),
        turned(fe, Switch::OutputEn, on) == (Frontend { output_en: on, ..fe }),
        turned(fe, Switch::Split, on) == (Frontend { split: on, ..fe }),
        b.with_pots(c, r1, r2).frontend[c].pot_r1 == r1,
        b.with_pots(c, r1, r2).frontend[c].pot_r2 == r2,
        b.with_pots(c, r1, r2).with_pots(
            c,
            b.frontend[c].pot_r1,
            b.frontend[c].pot_r2,
        ).frontend[c] == b.frontend[c],
        b.with_pots(c, r1, r2).m_mode == b.m_mode,
{
}

/// One if so, zero if not.
pub open spec fn one(b: bool) -> int {
    if b {
        1
    } else {
        0
    }
}

/// A document wishes for the switches that it has as members, and for the
/// potentiometers that it has as numbers that are not negative, of which seven bits
/// count.
pub proof fn law_wishes_of_a_document(n: JsonTree)
    ensures
        ({
            let c = change_from(n);
            &&& c.r50_2v5 == bool_at(n, "r50_2v5"@)
            &&& c.r50_gnd == bool_at(n, "r50_gnd"@)
            &&& c.feedback == bool_at(n, "feedback"@)
            &&& c.output_en == bool_at(n, "output_en"@)
            &&& c.split == bool_at(n, "split"@)
            &&& c.pots <==> c.pot_r1 is Some || c.pot_r2 is Some
            &&& int_at(n, "pot_r1"@) is None ==> c.pot_r1 is None
            &&& int_at(n, "pot_r2"@) is None ==> c.pot_r2 is None
            &&& int_at(n, "pot_r1"@) matches Some(v) ==> (v < 0 ==> c.pot_r1 is None) && (v >= 0
                ==> (c.pot_r1 matches Some(p) && p == v % 128))
            &&& int_at(n, "pot_r2"@) matches Some(v) ==> (v < 0 ==> c.pot_r2 is None) && (v >= 0
                ==> (c.pot_r2 matches Some(p) && p == v % 128))
        }),
{
}

/// The second channel is meant by its name, in a small letter or a capital one, and the
/// first by any other.
pub proof fn law_channel_names(name: Seq<char>)
    ensures
        channel_named(name) == 1 <==> name == "b"@ || name == "B"@,
        channel_named(name) == 0 || channel_named(name) == 1,
{
}

/// Of the lights red is the bit that counts four, green the one that counts two, and
/// blue the one that counts one; a light that nothing is said of stays as it is; and
/// what is told of the lights are these bits.
pub proof fn law_lights_are_bits(
    state: u8,
    red: Option<bool>,
    green: Option<bool>,
    blue: Option<bool>,
    n: JsonTree,
)
    requires
        state < 8,
    ensures
        ({
            let s = lights(state, red, green, blue);
            &&& s < 8
            &&& s / 4 == 1 <==> red.unwrap_or(state / 4 == 1)
            &&& (s / 2) % 2 == 1 <==> green.unwrap_or((state / 2) % 2 == 1)
            &&& s % 2 == 1 <==> blue.unwrap_or(state % 2 == 1)
        }),
        int_at(n, "leds"@) matches Some(v) ==> v >= 0 ==> lights_from(state, n) == v % 8,
        !(int_at(n, "leds"@) matches Some(v) && v >= 0) ==> lights_from(state, n) == lights(
            state,
            bool_at(n, "red"@),
            bool_at(n, "green"@),
            bool_at(n, "blue"@),
        ),
        lights_tree(state) matches JsonTree::Object(m) && m.len() == 4 && has(
            m,
            "leds"@,
            JsonTree::Number(Number::Unsigned(state as u64)),
        ) && has(m, "red"@, JsonTree::Bool(state / 4 == 1)) && has(
            m,
            "green"@,
            JsonTree::Bool((state / 2) % 2 == 1),
        ) && has(m, "blue"@, JsonTree::Bool(state % 2 == 1)),
{
    let m = lights_tree(state)->Object_0;
    assert(m[0] == ("leds"@, JsonTree::Number(Number::Unsigned(state as u64))));
    assert(m[1] == ("red"@, JsonTree::Bool(state / 4 == 1)));
    assert(m[2] == ("green"@, JsonTree::Bool((state / 2) % 2 == 1)));
    assert(m[3] == ("blue"@, JsonTree::Bool(state % 2 == 1)));
}

// ---- calibration ----

/// The calibration of an M1K that a document asks for has the numbers of the document,
/// eight of each kind, in their order, and zeros where there are fewer.
pub proof fn law_m1k_calibration_is_as_asked(n: JsonTree, i: int)
    requires
        0 <= i < 8,
    ensures
        crate::usb::m1k::calibration_from(n) matches Ok(c) ==> {
            &&& c.valid
            &&& c.offset.len() == 8
            &&& c.gain_p.len() == 8
            &&& c.gain_n.len() == 8
            &&& array_at(n, "offset"@) matches Some(a) && c.offset[i] == number_or_zero(a, i)
            &&& array_at(n, "gain_p"@) matches Some(a) && c.gain_p[i] == number_or_zero(a, i)
            &&& array_at(n, "gain_n"@) matches Some(a) && c.gain_n[i] == number_or_zero(a, i)
        },
        crate::usb::m1k::calibration_from(n) is Ok <==> array_at(n, "offset"@) is Some && array_at(
            n,
            "gain_p"@,
        ) is Some && array_at(n, "gain_n"@) is Some,
{
}

/// The number at a place of a list, or zero.
pub open spec fn number_or_zero(a: Seq<JsonTree>, i: int) -> Single {
    if i < a.len() && number_of(a[i]) is Some {
        number_of(a[i])->Some_0.narrowed()
    } else {
        Single { bits: 0 }
    }
}

/// The record of an M1K: a mark that it was written, then offsets and gains of eight
/// numbers each, four bytes each with the low one first. A device whose record has not
/// that mark, or did not come whole, has no offsets and gains of one.
pub proof fn law_m1k_record(cal: CalView, eeprom: ReplyView, i: int)
    requires
        cal.offset.len() == 8,
        cal.gain_p.len() == 8,
        cal.gain_n.len() == 8,
        0 <= i < 8,
    ensures
        from_le32(cal.stored(), 0) == 0x01ee_02dd,
        from_le32(cal.stored(), 4 + 4 * i) == cal.offset[i].bits,
        from_le32(cal.stored(), 36 + 4 * i) == cal.gain_p[i].bits,
        from_le32(cal.stored(), 68 + 4 * i) == cal.gain_n[i].bits,
        ({
            let c = m1k_calibration(eeprom);
            let read = eeprom.status >= 100 && eeprom.data.len() >= 100 && from_le32(
                eeprom.data,
                0,
            ) == 0x01ee_02dd;
            &&& c.valid <==> read
            &&& read ==> c.offset[i].bits == from_le32(eeprom.data, 4 + 4 * i) && c.gain_p[i].bits
                == from_le32(eeprom.data, 36 + 4 * i) && c.gain_n[i].bits == from_le32(
                eeprom.data,
                68 + 4 * i,
            )
            &&& !read ==> c.offset[i].bits == 0 && c.gain_p[i].bits == 0x3f80_0000
                && c.gain_n[i].bits == 0x3f80_0000
        }),
{
    crate::usb::m1k::law_calibration_reads_back(cal);
    let d = cal.stored();
    let c = CalView::loaded(d);
    assert(from_le32(d, 0) == 0x01ee_02dd) by {
        if from_le32(d, 0) != 0x01ee_02dd {
            assert(!c.valid);
        }
    }
    assert(c.offset[i].bits == from_le32(d, 4 + 4 * i));
    assert(c.gain_p[i].bits == from_le32(d, 4 + 4 * (8 + i)));
    assert(c.gain_n[i].bits == from_le32(d, 4 + 4 * (16 + i)));
}

/// The record of a CEE: a mark that it was written; the offsets, one byte each; the
/// limits, two bytes each; the gains, four bytes each; and the flags.
pub proof fn law_cee_record(cal: CeeCal)
    ensures
        ({
            let d = cal.stored();
            &&& d.len() == 25
            &&& from_le32(d, 0) == cal.magic
            &&& d[4] == cal.offset_a_v as u8
            &&& d[5] == cal.offset_a_i as u8
            &&& d[6] == cal.offset_b_v as u8
            &&& d[7] == cal.offset_b_i as u8
            &&& from_le16(d, 8) == cal.dac200_a as u16
            &&& from_le16(d, 10) == cal.dac200_b as u16
            &&& from_le16(d, 12) == cal.dac400_a as u16
            &&& from_le16(d, 14) == cal.dac400_b as u16
            &&& from_le32(d, 16) == cal.current_gain_a
            &&& from_le32(d, 20) == cal.current_gain_b
            &&& d[24] == cal.flags
        }),
{
    let d = cal.stored();
    assert(d.subrange(0, 4) =~= le32(cal.magic));
    crate::wire::lemma_le32_back(d, 0, cal.magic);
    assert(d.subrange(8, 10) =~= le16(cal.dac200_a as u16));
    crate::wire::lemma_le16_back(d, 8, cal.dac200_a as u16);
    assert(d.subrange(10, 12) =~= le16(cal.dac200_b as u16));
    crate::wire::lemma_le16_back(d, 10, cal.dac200_b as u16);
    assert(d.subrange(12, 14) =~= le16(cal.dac400_a as u16));
    crate::wire::lemma_le16_back(d, 12, cal.dac400_a as u16);
    assert(d.subrange(14, 16) =~= le16(cal.dac400_b as u16));
    crate::wire::lemma_le16_back(d, 14, cal.dac400_b as u16);
    assert(d.subrange(16, 20) =~= le32(cal.current_gain_a));
    crate::wire::lemma_le32_back(d, 16, cal.current_gain_a);
    assert(d.subrange(20, 24) =~= le32(cal.current_gain_b));
    crate::wire::lemma_le32_back(d, 20, cal.current_gain_b);
}

/// A CEE has the calibration that was stored in it, if one was, with the default gain
/// in place of one that is missing; otherwise it has no offsets, and limits in the
/// middle. Its flags say which limit it starts with.
pub proof fn law_calibration_of_a_cee(cal: CeeCal, status: i32, other: ReplyView)
    requires
        status > 0,
        cal.magic == 0x90e2_6cee,
    ensures
        ({
            let c = cee_calibration(ReplyView { status, data: cal.stored() });
            &&& c == (CeeCal {
                current_gain_a: c.current_gain_a,
                current_gain_b: c.current_gain_b,
                ..cal
            })
            &&& cal.current_gain_a != u32::MAX ==> c.current_gain_a == cal.current_gain_a
            &&& cal.current_gain_a == u32::MAX ==> c.current_gain_a == 315000
            &&& cal.current_gain_b != u32::MAX ==> c.current_gain_b == cal.current_gain_b
            &&& cal.current_gain_b == u32::MAX ==> c.current_gain_b == 315000
            &&& first_limit(c) == (if cal.flags % 2 == 1 {
                200int
            } else {
                2000
            })
        }),
        other.status <= 0 || other.data.len() < 25 || from_le32(other.data, 0) != 0x90e2_6cee ==> {
            let c = cee_calibration(other);
            &&& c.offset_a_v == 0
            &&& c.offset_a_i == 0
            &&& c.offset_b_v == 0
            &&& c.offset_b_i == 0
            &&& c.dac200_a == 0x6b7
            &&& c.dac200_b == 0x6b7
            &&& c.dac400_a == 0x6b7
            &&& c.dac400_b == 0x6b7
            &&& c.current_gain_a == 315000
            &&& c.current_gain_b == 315000
            &&& first_limit(c) == 200
        },
{
    crate::usb::cee::law_calibration_reads_back(cal);
}

/// The calibration of a CEE that a document asks for has the numbers of the document,
/// as far as they have room, and the mark of one that was written; it is refused if and
/// only if an offset or a limit is missing; and what is told of a calibration are its
/// numbers under their names.
pub proof fn law_cee_calibration_is_as_asked(n: JsonTree, cal: CeeCal)
    ensures
        crate::usb::cee::calibration_from(n) is Ok <==> int_at(n, "offset_a_v"@) is Some && int_at(
            n,
            "offset_a_i"@,
        ) is Some && int_at(n, "offset_b_v"@) is Some && int_at(n, "offset_b_i"@) is Some && int_at(
            n,
            "dac200_a"@,
        ) is Some && int_at(n, "dac200_b"@) is Some && int_at(n, "dac400_a"@) is Some && int_at(
            n,
            "dac400_b"@,
        ) is Some,
        crate::usb::cee::calibration_from(n) matches Ok(c) ==> {
            &&& c.magic == 0x90e2_6cee
            &&& int_at(n, "offset_a_v"@) matches Some(x) && ((c.offset_a_v - x) % 0x100 == 0)
            &&& int_at(n, "offset_a_i"@) matches Some(x) && ((c.offset_a_i - x) % 0x100 == 0)
            &&& int_at(n, "offset_b_v"@) matches Some(x) && ((c.offset_b_v - x) % 0x100 == 0)
            &&& int_at(n, "offset_b_i"@) matches Some(x) && ((c.offset_b_i - x) % 0x100 == 0)
            &&& int_at(n, "dac200_a"@) matches Some(x) && ((c.dac200_a - x) % 0x1_0000 == 0)
            &&& int_at(n, "dac200_b"@) matches Some(x) && ((c.dac200_b - x) % 0x1_0000 == 0)
            &&& int_at(n, "dac400_a"@) matches Some(x) && ((c.dac400_a - x) % 0x1_0000 == 0)
            &&& int_at(n, "dac400_b"@) matches Some(x) && ((c.dac400_b - x) % 0x1_0000 == 0)
            &&& int_at(n, "current_gain_a"@) matches Some(x) ==> c.current_gain_a == x as int
                % 0x1_0000_0000
            &&& int_at(n, "current_gain_b"@) matches Some(x) ==> c.current_gain_b == x as int
                % 0x1_0000_0000
            &&& int_at(n, "current_gain_a"@) is None ==> c.current_gain_a == u32::MAX
            &&& int_at(n, "current_gain_b"@) is None ==> c.current_gain_b == u32::MAX
            &&& int_at(n, "flags"@) matches Some(x) ==> c.flags == x as int % 0x100
            &&& int_at(n, "flags"@) is None ==> c.flags == 0xff
        },
        ({
            let m = crate::usb::cee::calibration_members(cal);
            &&& m.len() == 11
            &&& has(m, "offset_a_v"@, JsonTree::Number(Number::Signed(cal.offset_a_v as i64)))
            &&& has(m, "offset_a_i"@, JsonTree::Number(Number::Signed(cal.offset_a_i as i64)))
            &&& has(m, "offset_b_v"@, JsonTree::Number(Number::Signed(cal.offset_b_v as i64)))
            &&& has(m, "offset_b_i"@, JsonTree::Number(Number::Signed(cal.offset_b_i as i64)))
            &&& has(m, "dac200_a"@, JsonTree::Number(Number::Signed(cal.dac200_a as i64)))
            &&& has(m, "dac200_b"@, JsonTree::Number(Number::Signed(cal.dac200_b as i64)))
            &&& has(m, "dac400_a"@, JsonTree::Number(Number::Signed(cal.dac400_a as i64)))
            &&& has(m, "dac400_b"@, JsonTree::Number(Number::Signed(cal.dac400_b as i64)))
            &&& has(
                m,
                "current_gain_a"@,
                JsonTree::Number(Number::Unsigned(cal.current_gain_a as u64)),
            )
            &&& has(
                m,
                "current_gain_b"@,
                JsonTree::Number(Number::Unsigned(cal.current_gain_b as u64)),
            )
            &&& has(m, "flags"@, JsonTree::Number(Number::Unsigned(cal.flags as u64)))
        }),
{
    assert((-1i64) as u32 == u32::MAX) by (bit_vector);
    law_low_bits_with_sign_are_kept(int_at(n, "offset_a_v"@).unwrap_or(0));
    law_low_bits_with_sign_are_kept(int_at(n, "offset_a_i"@).unwrap_or(0));
    law_low_bits_with_sign_are_kept(int_at(n, "offset_b_v"@).unwrap_or(0));
    law_low_bits_with_sign_are_kept(int_at(n, "offset_b_i"@).unwrap_or(0));
    law_low_bits_with_sign_are_kept(int_at(n, "dac200_a"@).unwrap_or(0));
    law_low_bits_with_sign_are_kept(int_at(n, "dac200_b"@).unwrap_or(0));
    law_low_bits_with_sign_are_kept(int_at(n, "dac400_a"@).unwrap_or(0));
    law_low_bits_with_sign_are_kept(int_at(n, "dac400_b"@).unwrap_or(0));
    law_low_bits_are_kept(int_at(n, "current_gain_a"@).unwrap_or(0));
    law_low_bits_are_kept(int_at(n, "current_gain_b"@).unwrap_or(0));
    law_low_bits_are_kept(int_at(n, "flags"@).unwrap_or(0));
    let m = crate::usb::cee::calibration_members(cal);
    assert(m[0].0 == "offset_a_v"@);
    assert(m[1].0 == "offset_a_i"@);
    assert(m[2].0 == "offset_b_v"@);
    assert(m[3].0 == "offset_b_i"@);
    assert(m[4].0 == "dac200_a"@);
    assert(m[5].0 == "dac200_b"@);
    assert(m[6].0 == "dac400_a"@);
    assert(m[7].0 == "dac400_b"@);
    assert(m[8].0 == "current_gain_a"@);
    assert(m[9].0 == "current_gain_b"@);
    assert(m[10].0 == "flags"@);
}

/// Offsets that are set for the time being replace the offsets and nothing else; one
/// that is not given is zero.
pub proof fn law_offsets_for_the_time_being(cal: CeeCal, n: JsonTree)
    ensures
        ({
            let c = crate::usb::cee::offsets_from(cal, n);
            let av = int_at(n, "offset_a_v"@).unwrap_or(0);
            let ai = int_at(n, "offset_a_i"@).unwrap_or(0);
            let bv = int_at(n, "offset_b_v"@).unwrap_or(0);
            let bi = int_at(n, "offset_b_i"@).unwrap_or(0);
            &&& (c.offset_a_v - av) % 0x100 == 0
            &&& (c.offset_a_i - ai) % 0x100 == 0
            &&& (c.offset_b_v - bv) % 0x100 == 0
            &&& (c.offset_b_i - bi) % 0x100 == 0
            &&& c.dac200_a == cal.dac200_a
            &&& c.dac200_b == cal.dac200_b
            &&& c.dac400_a == cal.dac400_a
            &&& c.dac400_b == cal.dac400_b
            &&& c.current_gain_a == cal.current_gain_a
            &&& c.current_gain_b == cal.current_gain_b
            &&& c.flags == cal.flags
            &&& c.magic == cal.magic
        }),
{
    law_low_bits_with_sign_are_kept(int_at(n, "offset_a_v"@).unwrap_or(0));
    law_low_bits_with_sign_are_kept(int_at(n, "offset_a_i"@).unwrap_or(0));
    law_low_bits_with_sign_are_kept(int_at(n, "offset_b_v"@).unwrap_or(0));
    law_low_bits_with_sign_are_kept(int_at(n, "offset_b_i"@).unwrap_or(0));
}

// ---- finding devices ----

/// Which devices are served, by vendor and product.
pub proof fn law_devices_that_are_served(vid: u16, pid: u16)
    ensures
        kind_of_ids(vid, pid) == Some(Kind::Cee) <==> pid == 0xCEE1 && (vid == 0x59e3 || vid
            == 0x9999),
        kind_of_ids(vid, pid) == Some(Kind::Bootloader) <==> vid == 0x59e3 && (pid == 0xBBBB || pid
            == 0xb003),
        kind_of_ids(vid, pid) == Some(Kind::M1k) <==> (vid == 0x0456 && pid == 0xCEE2) || (vid
            == 0x064B && pid == 0x784C),
{
}

/// What a device is asked when it is found: its versions; then, of a CEE that is new
/// enough, its timer and what it was built from; then it is brought into a known state,
/// in which it does not sample and has its normal gains; and last it is asked for its
/// calibration. A boot loader is asked what it is.
pub proof fn law_questions(fw: Seq<char>)
    ensures
        ({
            let q = questions(Kind::M1k, fw);
            &&& q == seq![
                vendor_in(0x00, 0, 0, 64),
                vendor_in(0x00, 0, 1, 64),
                vendor_out(0xC5, 0, 0)->Control_0,
                vendor_in(0x01, 0, 0, 100),
            ]
        }),
        ({
            let q = questions(Kind::Cee, fw);
            let more = crate::text::not_before(fw, "1.2"@);
            let k = if more {
                4int
            } else {
                2
            };
            &&& q.len() == k + 6
            &&& q[0] == vendor_in(0x00, 0, 0, 64)
            &&& q[1] == vendor_in(0x00, 0, 1, 64)
            &&& more ==> q[2] == vendor_in(0x00, 0, 0xff, 5) && q[3] == vendor_in(0x00, 0, 2, 64)
            &&& q[k] == vendor_out(0x80, 0, 0)->Control_0
            &&& q[k + 1] == vendor_out(0x65, 4, 0)->Control_0
            &&& q[k + 2] == vendor_out(0x65, 0, 1)->Control_0
            &&& q[k + 3] == vendor_out(0x65, 0, 2)->Control_0
            &&& q[k + 4] == vendor_out(0x65, 4, 3)->Control_0
            &&& q[k + 5] == vendor_in(0xE0, 0, 0, 64)
        }),
        questions(Kind::Bootloader, fw) == seq![vendor_in(0xB0, 0, 0, 51)],
{
}

/// The requests that bring a CEE into a known state set every stream to the gain that
/// is normal for it.
pub proof fn law_known_state_has_normal_gains(c: int, s: int, gain: i32)
    requires
        0 <= c < 2,
        0 <= s < 2,
        gain == (if s == 1 {
            2int
        } else {
            1
        }),
    ensures
        crate::config::gain_code(gain) matches Some(code) && crate::config::gain_line(c, s) matches Some(
            line,
        ) && cee_reset().contains(vendor_out(0x65, code as int, line as int)->Control_0),
{
    let r = cee_reset();
    assert(r[1] == vendor_out(0x65, 4, 0)->Control_0);
    assert(r[2] == vendor_out(0x65, 0, 1)->Control_0);
    assert(r[3] == vendor_out(0x65, 0, 2)->Control_0);
    assert(r[4] == vendor_out(0x65, 4, 3)->Control_0);
}

/// The least number of ticks is the fifth byte that a CEE tells, or 100 where it tells
/// none; the version of its firmware is followed by what it was built from, if it says
/// so; and the bit that tells of too much current depends on the version.
pub proof fn law_what_versions_tell(info: ReplyView, fw: Seq<char>, git: Seq<char>)
    ensures
        info.status >= 5 && info.data.len() >= 5 ==> least_period(info) == info.data[4],
        info.status < 5 || info.data.len() < 5 ==> least_period(info) == 100,
        git.len() == 0 ==> full_version(fw, git) == fw,
        git.len() > 0 ==> full_version(fw, git) == fw + seq!['/'] + git,
        alert_bit_of(fw) == 8 <==> crate::text::not_before(fw, "2.11"@),
        alert_bit_of(fw) == 8 || alert_bit_of(fw) == 4,
{
    reveal_strlit("/");
    assert("/"@ =~= seq!['/']);
}

/// A text that a device tells ends at the first zero byte.
pub proof fn law_told_texts_end_at_zero(text: Seq<u8>, rest: Seq<u8>, status: i32)
    requires
        forall|i: int| 0 <= i < text.len() ==> 0 < #[trigger] text[i] < 128,
        rest.len() > 0 ==> rest[0] == 0,
    ensures
        status >= 0 ==> text_told(ReplyView { status, data: text + rest }).len() == text.len()
            && forall|i: int|
            0 <= i < text.len() ==> (#[trigger] text_told(
                ReplyView { status, data: text + rest },
            )[i]) as int == text[i],
        status < 0 ==> text_told(ReplyView { status, data: text + rest }).len() == 0,
{
    let b = text + rest;
    lemma_until_zero(text, rest);
    assert(b.take(text.len() as int) =~= text);
    assert(crate::text::plain(text));
}

proof fn lemma_until_zero(text: Seq<u8>, rest: Seq<u8>)
    requires
        forall|i: int| 0 <= i < text.len() ==> 0 < #[trigger] text[i] < 128,
        rest.len() > 0 ==> rest[0] == 0,
    ensures
        crate::usb::until_zero(text + rest) == text.len(),
    decreases text.len(),
{
    if text.len() > 0 {
        let t = text.drop_first();
        assert forall|i: int| 0 <= i < t.len() implies 0 < #[trigger] t[i] < 128 by {
            assert(t[i] == text[i + 1]);
        }
        lemma_until_zero(t, rest);
        assert((text + rest).drop_first() =~= t + rest);
        assert((text + rest)[0] == text[0]);
    } else {
        assert(text + rest =~= rest);
    }
}

/// A device that was found is at rest, without samples, clients and listeners, and its
/// first configuration goes on for ever.
pub proof fn law_found_device_rests(
    model: Seq<char>,
    hw: Seq<char>,
    fw: Seq<char>,
    serial: Seq<char>,
    time: crate::float::Double,
    least: crate::float::Double,
    limit: u32,
    backend: BackendView,
    samples: u32,
)
    ensures
        ({
            let d = bare_device(model, hw, fw, serial, time, least, limit, backend);
            &&& d.model == model
            &&& d.hw_version == hw
            &&& d.fw_version == fw
            &&& d.serial == serial
            &&& d.sample_time == time
            &&& d.min_sample_time == least
            &&& d.current_limit == limit
            &&& d.backend == backend
            &&& !d.capture_state
            &&& !d.capture_done
            &&& d.capture_i == 0
            &&& d.capture_o == 0
            &&& d.channels.len() == 0
            &&& d.connections.len() == 0
            &&& d.listeners.len() == 0
            &&& d.out.len() == 0
            &&& d.id() == model + seq!['~'] + serial
        }),
        ({
            let r = first_configuration(time, samples);
            r.continuous && !r.raw && r.mode == 0 && r.samples == samples && r.sample_time == time
        }),
{
    reveal_strlit("~");
    assert("~"@ =~= seq!['~']);
}

// ---- answers ----

/// An answer is marked as one and has the id of its command.
pub proof fn law_answers_carry_the_id(id: i64, extra: Seq<(Seq<char>, JsonTree)>, i: int)
    requires
        0 <= i < extra.len(),
    ensures
        returned(id, extra) matches JsonTree::Object(m) && m.len() == extra.len() + 2 && has(
            m,
            "_action"@,
            JsonTree::Str("return"@),
        ) && has(m, "id"@, JsonTree::Number(Number::Signed(id))) && has(m, extra[i].0, extra[i].1),
{
    let m = returned(id, extra)->Object_0;
    assert(m[0] == ("_action"@, JsonTree::Str("return"@)));
    assert(m[1] == ("id"@, JsonTree::Number(Number::Signed(id))));
    assert(m[i + 2] == extra[i]);
}

/// What a command is answered with: the status of its transfer, the bytes that came,
/// what came of the bulk transfer, or what was made of the bytes, and in every answer
/// the id of the command.
pub proof fn law_answers_say(a: AskView, v: Seq<ReplyView>, bulk: i32)
    requires
        v.len() > 0,
        a.requests.len() > 0,
    ensures
        ({
            let r = v[0];
            let told = answer_of(a, v, bulk);
            let status = ("status"@, JsonTree::Number(Number::Signed(r.status as i64)));
            &&& a.answer == Answer::Done ==> told == returned(a.id, seq![])
            &&& a.answer == Answer::Status ==> told == returned(a.id, seq![status])
            &&& a.answer == Answer::Result ==> told == returned(
                a.id,
                seq![("result"@, JsonTree::Number(Number::Signed(bulk as i64)))],
            )
            &&& a.answer == Answer::Crc ==> told == returned(
                a.id,
                seq![("crc"@, JsonTree::Number(Number::Unsigned(crc_of(r) as u64)))],
            )
            &&& a.answer == Answer::Temperature ==> told == returned(
                a.id,
                seq![("temperature"@, temperature_tree(v))],
            )
            &&& a.answer matches Answer::Power { alert_bit } ==> told == returned(
                a.id,
                seq![("power"@, power_tree(r, alert_bit))],
            )
            &&& a.answer == Answer::Transfer && (a.requests[0].request_type < 0x80 || r.status < 0)
                ==> told == returned(a.id, seq![status])
            &&& a.answer == Answer::Transfer && a.requests[0].request_type >= 0x80 && r.status >= 0
                ==> (told matches JsonTree::Object(m) && m.len() == 4 && m[3] == status && m[2].0
                == "data"@ && (m[2].1 matches JsonTree::Array(b) && b.len() == r.data.len() && (
            forall|i: int|
                0 <= i < b.len() ==> #[trigger] b[i] == JsonTree::Number(
                    Number::Unsigned(r.data[i] as u64),
                ))))
        }),
{
    if a.answer == Answer::Transfer {
        let r = v[0];
        let m = answer_of(a, v, bulk)->Object_0;
        if a.requests[0].request_type >= 0x80 && r.status >= 0 {
            assert(m[2].0 == "data"@);
        } else {
            assert(m =~= returned(
                a.id,
                seq![("status"@, JsonTree::Number(Number::Signed(r.status as i64)))],
            )->Object_0);
        }
    }
}

/// A check sum comes low byte first, a temperature high byte first, and the levels of
/// pins one byte each: the inputs, the directions, the outputs.
pub proof fn law_bytes_of_answers(r: ReplyView, s: ReplyView)
    requires
        r.status >= 4,
        r.data.len() >= 4,
        s.status >= 2,
        s.data.len() >= 2,
    ensures
        crc_of(r) == r.data[0] + 256 * (r.data[1] + 256 * (r.data[2] + 256 * r.data[3])),
        temperature_tree(seq![r, s]) == JsonTree::Object(
            seq![
                (
                    "a"@,
                    JsonTree::Number(Number::Unsigned((256 * r.data[0] + r.data[1]) as u64)),
                ),
                (
                    "b"@,
                    JsonTree::Number(Number::Unsigned((256 * s.data[0] + s.data[1]) as u64)),
                ),
            ],
        ),
        pins_tree(r) == JsonTree::Object(
            seq![
                ("status"@, JsonTree::Number(Number::Signed(r.status as i64))),
                ("in"@, JsonTree::Number(Number::Unsigned(r.data[0] as u64))),
                ("dir"@, JsonTree::Number(Number::Unsigned(r.data[1] as u64))),
                ("out"@, JsonTree::Number(Number::Unsigned(r.data[2] as u64))),
            ],
        ),
{
}

/// Too much current is told if and only if the device answered and the bit for it is
/// set in the first byte; a transfer that failed is told as an error.
pub proof fn law_power_is_told(r: ReplyView, alert_bit: u8)
    requires
        r.data.len() >= 1,
    ensures
        power_tree(r, alert_bit) matches JsonTree::Object(m) && has(
            m,
            "overcurrent"@,
            JsonTree::Bool(r.status >= 1 && r.data[0] & alert_bit != 0),
        ) && (r.status >= 1 ==> has(
            m,
            "status_raw"@,
            JsonTree::Number(Number::Unsigned(r.data[0] as u64)),
        ) && has(m, "alert_bit"@, JsonTree::Number(Number::Unsigned(alert_bit as u64)))) && (
        r.status < 1 ==> has(m, "error"@, JsonTree::Number(Number::Signed(r.status as i64))) && has(
            m,
            "status_raw"@,
            JsonTree::Number(Number::Unsigned(0)),
        ) && has(m, "alert_bit"@, JsonTree::Number(Number::Unsigned(0)))),
{
    let m = power_tree(r, alert_bit)->Object_0;
    assert(m[0].0 == "status_raw"@);
    assert(m[1].0 == "alert_bit"@);
    assert(m[2] == ("overcurrent"@, JsonTree::Bool(r.status >= 1 && r.data[0] & alert_bit != 0)));
    if r.status < 1 {
        assert(m[3] == ("error"@, JsonTree::Number(Number::Signed(r.status as i64))));
    }
}

// ---- transfers that clients ask for ----

/// A transfer that a client asks for has the numbers that it gives; where it gives none
/// it is a vendor request from the device, for up to 64 bytes.
pub proof fn law_transfer_is_as_asked(n: JsonTree)
    ensures
        int_at(n, "bRequest"@) is None ==> transfer_wanted(n) == Err::<ControlView, Seq<char>>(
            "JSON missing int property: "@ + "bRequest"@,
        ),
        transfer_wanted(n) matches Ok(c) ==> {
            let kind = int_at(n, "bmRequestType"@).unwrap_or(0xC0);
            let value = int_at(n, "wValue"@).unwrap_or(0);
            let index = int_at(n, "wIndex"@).unwrap_or(0);
            let length = int_at(n, "wLength"@).unwrap_or(64);
            &&& c.request_type == kind as int % 0x100
            &&& int_at(n, "bRequest"@) matches Some(x) && c.request == x as int % 0x100
            &&& c.value == value as int % 0x1_0000
            &&& c.index == index as int % 0x1_0000
            &&& kind as int % 0x100 >= 128 ==> c.data.len() == 0 && (length < 0 ==> c.length == 0) && (0
                <= length <= 64 ==> c.length == length) && (length > 64 ==> c.length == 64)
            &&& kind as int % 0x100 < 128 ==> (field(n, "data"@) matches Some(t) && c.data == payload(t)
                && c.length == 0)
        },
        ({
            let kind = int_at(n, "bmRequestType"@).unwrap_or(0xC0);
            kind as int % 0x100 < 128 && field(n, "data"@) is None && int_at(n, "bRequest"@) is Some
                ==> transfer_wanted(n) == Err::<ControlView, Seq<char>>(
                "JSON missing property: data"@,
            )
        }),
{
    law_low_bits_are_kept(int_at(n, "bmRequestType"@).unwrap_or(0xC0));
    law_low_bits_are_kept(int_at(n, "bRequest"@).unwrap_or(0));
    law_low_bits_are_kept(int_at(n, "wValue"@).unwrap_or(0));
    law_low_bits_are_kept(int_at(n, "wIndex"@).unwrap_or(0));
}

/// The bytes of a transfer are the low bytes of the numbers of an array, or
/// the characters of a string.
pub proof fn law_payload_of_a_transfer(a: Seq<JsonTree>, s: Seq<char>, i: int)
    requires
        0 <= i < a.len(),
    ensures
        payload(JsonTree::Array(a)).len() == a.len(),
        number_of(a[i]) matches Some(x) ==> payload(JsonTree::Array(a))[i] == x.integer() as int
            % 0x100,
        number_of(a[i]) is None ==> payload(JsonTree::Array(a))[i] == 0,
        payload(JsonTree::Str(s)) == encode_utf8(s),
        payload(JsonTree::Null).len() == 0,
{
    if let Some(x) = number_of(a[i]) {
        law_low_bits_are_kept(x.integer());
    }
}

// ---- boot loader ----

/// Eight hexadecimal digits read back as the number that they were made of.
pub proof fn law_hexadecimal_reads_back(x: u32, i: int)
    requires
        0 <= i < 8,
    ensures
        hex8(x).len() == 8,
        '0' <= hex8(x)[i] <= '9' || 'A' <= hex8(x)[i] <= 'F',
        x == hex_value(hex8(x)[7]) + 16 * (hex_value(hex8(x)[6]) + 16 * (hex_value(hex8(x)[5]) + 16
            * (hex_value(hex8(x)[4]) + 16 * (hex_value(hex8(x)[3]) + 16 * (hex_value(hex8(x)[2])
            + 16 * (hex_value(hex8(x)[1]) + 16 * hex_value(hex8(x)[0]))))))),
{
    assert(hex_weight(7) == 1);
    assert(hex_weight(6) == 0x10);
    assert(hex_weight(5) == 0x100);
    assert(hex_weight(4) == 0x1000);
    assert(hex_weight(3) == 0x1_0000);
    assert(hex_weight(2) == 0x10_0000);
    assert(hex_weight(1) == 0x100_0000);
    assert(hex_weight(0) == 0x1000_0000);
    lemma_hex_digit(x, i);
    lemma_hex_digit(x, 0);
    lemma_hex_digit(x, 1);
    lemma_hex_digit(x, 2);
    lemma_hex_digit(x, 3);
    lemma_hex_digit(x, 4);
    lemma_hex_digit(x, 5);
    lemma_hex_digit(x, 6);
    lemma_hex_digit(x, 7);
    lemma_hex_parts(x);
}

proof fn lemma_hex_digit(x: u32, i: int)
    requires
        0 <= i < 8,
    ensures
        hex_value(hex8(x)[i]) == (x as int / hex_weight(i)) % 16,
        '0' <= hex8(x)[i] <= '9' || 'A' <= hex8(x)[i] <= 'F',
{
    let d = (x as int / hex_weight(i)) % 16;
    assert(0 <= d < 16);
    assert(hex8(x)[i] == hex_digit(d));
}

proof fn lemma_hex_parts(x: u32)
    ensures
        x == x as int % 16 + 16 * ((x as int / 0x10) % 16 + 16 * ((x as int / 0x100) % 16 + 16 * ((
        x as int / 0x1000) % 16 + 16 * ((x as int / 0x1_0000) % 16 + 16 * ((x as int / 0x10_0000)
            % 16 + 16 * ((x as int / 0x100_0000) % 16 + 16 * ((x as int / 0x1000_0000) % 16))))))),
{
    let a = x as int / 16;
    let b = a / 16;
    let c = b / 16;
    let d = c / 16;
    let e = d / 16;
    let f = e / 16;
    let g = f / 16;
    assert(b == x as int / 0x100);
    assert(c == x as int / 0x1000);
    assert(d == x as int / 0x1_0000);
    assert(e == x as int / 0x10_0000);
    assert(f == x as int / 0x100_0000);
    assert(g == x as int / 0x1000_0000);
    assert(g < 16);
}

/// The number that a hexadecimal digit stands for.
pub open spec fn hex_value(c: char) -> int {
    if '0' <= c <= '9' {
        c as int - '0' as int
    } else {
        c as int - 'A' as int + 10
    }
}

/// What a boot loader says of itself: two numbers high byte first, with a byte between
/// them, two numbers low byte first, and two texts.
pub proof fn law_boot_loader_tells(d: Seq<u8>)
    requires
        d.len() >= 51,
    ensures
        ({
            let i = InfoView::told(d);
            &&& i.magic == d[3] + 256 * (d[2] + 256 * (d[1] + 256 * d[0]))
            &&& i.version == d[4]
            &&& i.devid == d[8] + 256 * (d[7] + 256 * (d[6] + 256 * d[5]))
            &&& i.page_size == d[9] + 256 * d[10]
            &&& i.app_section_end == d[11] + 256 * (d[12] + 256 * (d[13] + 256 * d[14]))
            &&& i.hw_product == text_told(ReplyView { status: 0, data: d.subrange(19, 35) })
            &&& i.hw_version == text_told(ReplyView { status: 0, data: d.subrange(35, 51) })
        }),
{
}

/// A client that attaches to a boot loader is told what it is; no other is.
pub proof fn law_boot_loader_is_described(b: BootView, client: u64)
    ensures
        ({
            let e = b.attached(client);
            &&& e.connections == b.connections.push(client)
            &&& e.out.len() == b.out.len() + 1
            &&& e.out.last() matches EffectView::Send { clients, message } && clients
                == seq![client] && (message matches JsonTree::Object(m) && m.len() == 9 && has(
                m,
                "_action"@,
                JsonTree::Str("info"@),
            ) && has(m, "serial"@, JsonTree::Str(b.serial)) && has(
                m,
                "magic"@,
                JsonTree::Str(hex8(b.info.magic)),
            ) && has(m, "version"@, JsonTree::Number(Number::Unsigned(b.info.version as u64)))
                && has(m, "devid"@, JsonTree::Str(hex8(b.info.devid))) && has(
                m,
                "page_size"@,
                JsonTree::Number(Number::Unsigned(b.info.page_size as u64)),
            ) && has(
                m,
                "app_section_end"@,
                JsonTree::Number(Number::Unsigned(b.info.app_section_end as u64)),
            ) && has(m, "hw_product"@, JsonTree::Str(b.info.hw_product)) && has(
                m,
                "hw_version"@,
                JsonTree::Str(b.info.hw_version),
            ))
        }),
{
    let m = b.info_message()->Object_0;
    assert(m[0].0 == "_action"@);
    assert(m[1].0 == "serial"@);
    assert(m[2].0 == "magic"@);
    assert(m[3].0 == "version"@);
    assert(m[4].0 == "devid"@);
    assert(m[5].0 == "page_size"@);
    assert(m[6].0 == "app_section_end"@);
    assert(m[7].0 == "hw_product"@);
    assert(m[8].0 == "hw_version"@);
}

/// What did not come is told as such: a transfer without a reply has failed, a check sum
/// or a temperature that is cut short is zero, and so are pins that are not told.
pub proof fn law_missing_replies(a: AskView, r: ReplyView, bulk: i32)
    ensures
        a.answer == Answer::Status ==> answer_of(a, seq![], bulk) == returned(
            a.id,
            seq![("status"@, JsonTree::Number(Number::Signed((-1) as i64)))],
        ),
        r.status < 4 ==> crc_of(r) == 0,
        r.status < 2 ==> temperature_tree(seq![r]) == JsonTree::Object(
            seq![
                ("a"@, JsonTree::Number(Number::Unsigned(0))),
                ("b"@, JsonTree::Number(Number::Unsigned(0))),
            ],
        ),
        r.data.len() == 0 ==> pins_tree(r) == JsonTree::Object(
            seq![
                ("status"@, JsonTree::Number(Number::Signed(r.status as i64))),
                ("in"@, JsonTree::Number(Number::Unsigned(0))),
                ("dir"@, JsonTree::Number(Number::Unsigned(0))),
                ("out"@, JsonTree::Number(Number::Unsigned(0))),
            ],
        ),
{
}

} // verus!
