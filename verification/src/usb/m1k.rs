//! The M1K: two channels of 16-bit samples in large packets, with a switchable
//! front end.

use crate::command::{
    answer_members, answer_to, answer_with, done_or_asking, request_views, returned, string_needed,
    Answer, Ask, AskView, Outcome, OutcomeView,
};
use crate::effect::{
    ask, asked, effects, enqueue, hand_over, send_one, tell, to_one, told, written, ControlRequest,
    ControlView, Effect, EffectView, ReplyView,
};
use crate::config::ConfigRequest;
use crate::float::{Double, Single};
use crate::jsonutil::{
    add_element, array_at, bool_at, int_at, json_int_prop_def, json_string_prop,
    json_string_prop_def, lemma_trees_at, members, number_of, put, put_bool, put_number,
    string_at, tree, trees, Error, Json, JsonTree, Number,
};
use crate::state::{natural, truth};
use crate::streaming::{Backend, BackendView, StreamingDevice};
use crate::text::{at_least, chars_of, is_digit, joined, not_before, same, sign_len, text_of};
use crate::usb::discovery::{bare_device, first_configuration, make_bare, Report};
use crate::usb::{ask_one, signed};
use crate::wire::{
    from_le32, le32, lemma_number_bytes, number_bytes, push_le32, read_le32,
};
use vstd::prelude::*;
use vstd::string::*;
use vstd::utf8::encode_utf8;

verus! {

/// The first word of a calibration record that was written.
pub const EEPROM_VALID: u32 = 0x01ee_02dd;

/// The bits of one in binary32.
pub const ONE_BITS: u32 = 0x3f80_0000;

// What a channel can be set to.
pub const HI_Z: u32 = 0;

pub const SVMI: u32 = 1;

pub const SIMV: u32 = 2;

pub const HI_Z_SPLIT: u32 = 3;

pub const SVMI_SPLIT: u32 = 4;

pub const SIMV_SPLIT: u32 = 5;

/// Offsets and gains, four of each for either channel.
#[derive(Clone, Copy, Debug)]
pub struct M1kCal {
    pub valid: bool,
    pub offset: [Single; 8],
    pub gain_p: [Single; 8],
    pub gain_n: [Single; 8],
}

#[verifier::ext_equal]
pub ghost struct CalView {
    pub valid: bool,
    pub offset: Seq<Single>,
    pub gain_p: Seq<Single>,
    pub gain_n: Seq<Single>,
}

impl View for M1kCal {
    type V = CalView;

    open spec fn view(&self) -> CalView {
        CalView {
            valid: self.valid,
            offset: self.offset@,
            gain_p: self.gain_p@,
            gain_n: self.gain_n@,
        }
    }
}

/// Eight times the same.
pub open spec fn eight(x: Single) -> Seq<Single> {
    Seq::new(8, |i: int| x)
}

/// Eight numbers of a record, from the `from`-th on.
pub open spec fn numbers_at(d: Seq<u8>, from: int) -> Seq<Single> {
    Seq::new(8, |i: int| Single { bits: from_le32(d, 4 + 4 * (from + i)) })
}

impl CalView {
    /// The record of a device that was never calibrated.
    pub open spec fn blank() -> CalView {
        CalView {
            valid: false,
            offset: eight(Single { bits: 0 }),
            gain_p: eight(Single { bits: ONE_BITS }),
            gain_n: eight(Single { bits: ONE_BITS }),
        }
    }

    /// The record as the device stores it.
    pub open spec fn stored(self) -> Seq<u8> {
        le32(EEPROM_VALID) + number_bytes(self.offset) + number_bytes(self.gain_p) + number_bytes(
            self.gain_n,
        )
    }

    /// The record that the bytes `d` hold.
    pub open spec fn loaded(d: Seq<u8>) -> CalView {
        if from_le32(d, 0) == EEPROM_VALID {
            CalView {
                valid: true,
                offset: numbers_at(d, 0),
                gain_p: numbers_at(d, 8),
                gain_n: numbers_at(d, 16),
            }
        } else {
            CalView::blank()
        }
    }
}

fn number_at(d: &[u8], k: usize) -> (r: Single)
    requires
        k < 24,
        d.len() >= 100,
    ensures
        r == (Single { bits: from_le32(d@, 4 + 4 * k) }),
{
    Single { bits: read_le32(d, 4 + 4 * k) }
}

fn eight_at(d: &[u8], k: usize) -> (r: [Single; 8])
    requires
        k <= 16,
        d.len() >= 100,
    ensures
        r@ == numbers_at(d@, k as int),
{
    let r = [
        number_at(d, k),
        number_at(d, k + 1),
        number_at(d, k + 2),
        number_at(d, k + 3),
        number_at(d, k + 4),
        number_at(d, k + 5),
        number_at(d, k + 6),
        number_at(d, k + 7),
    ];
    assert(r@ =~= numbers_at(d@, k as int));
    r
}

pub fn all_eight(x: Single) -> (r: [Single; 8])
    ensures
        r@ == eight(x),
{
    let r = [x, x, x, x, x, x, x, x];
    assert(r@ =~= eight(x));
    r
}

fn push_numbers(b: &mut Vec<u8>, v: &[Single; 8])
    ensures
        final(b)@ == old(b)@ + number_bytes(v@),
{
    let mut i: usize = 0;
    assert(v@.take(0) =~= Seq::empty());
    assert(b@ =~= old(b)@ + number_bytes(v@.take(0)));
    while i < 8
        invariant
            i <= 8,
            b@ == old(b)@ + number_bytes(v@.take(i as int)),
        decreases 8 - i,
    {
        let ghost before = b@;
        push_le32(b, v[i].bits);
        assert(v@.take(i + 1).drop_last() =~= v@.take(i as int));
        assert(b@ =~= old(b)@ + number_bytes(v@.take(i + 1)));
        i += 1;
    }
    assert(v@.take(8) =~= v@);
}

impl Default for M1kCal {
    fn default() -> (r: M1kCal)
        ensures
            r@ == CalView::blank(),
    {
        M1kCal {
            valid: false,
            offset: all_eight(Single { bits: 0 }),
            gain_p: all_eight(Single { bits: ONE_BITS }),
            gain_n: all_eight(Single { bits: ONE_BITS }),
        }
    }
}

impl M1kCal {
    pub fn to_bytes(&self) -> (b: Vec<u8>)
        ensures
            b@ == self@.stored(),
            b.len() == 100,
    {
        let mut b: Vec<u8> = Vec::new();
        push_le32(&mut b, EEPROM_VALID);
        push_numbers(&mut b, &self.offset);
        push_numbers(&mut b, &self.gain_p);
        push_numbers(&mut b, &self.gain_n);
        assert(b@ =~= self@.stored());
        proof {
            lemma_number_bytes(self.offset@);
            lemma_number_bytes(self.gain_p@);
            lemma_number_bytes(self.gain_n@);
        }
        b
    }

    pub fn from_bytes(data: &[u8]) -> (r: Option<M1kCal>)
        ensures
            match r {
                Some(c) => data@.len() >= 100 && c@ == CalView::loaded(data@),
                None => data@.len() < 100,
            },
    {
        if data.len() < 100 {
            return None;
        }
        if read_le32(data, 0) == EEPROM_VALID {
            Some(
                M1kCal {
                    valid: true,
                    offset: eight_at(data, 0),
                    gain_p: eight_at(data, 8),
                    gain_n: eight_at(data, 16),
                },
            )
        } else {
            Some(M1kCal::default())
        }
    }
}

/// The eight numbers that stand in `d` from the `from`-th on are read back.
proof fn lemma_numbers_back(d: Seq<u8>, from: int, v: Seq<Single>)
    requires
        0 <= from,
        v.len() == 8,
        4 + 4 * (from + 8) <= d.len(),
        d.subrange(4 + 4 * from, 4 + 4 * from + 32) == number_bytes(v),
    ensures
        numbers_at(d, from) == v,
{
    lemma_number_bytes(v);
    assert forall|i: int| 0 <= i < 8 implies numbers_at(d, from)[i] == v[i] by {
        assert(number_bytes(v).subrange(4 * i, 4 * i + 4) == le32(v[i].bits));
        assert(d.subrange(4 + 4 * (from + i), 4 + 4 * (from + i) + 4) =~= d.subrange(
            4 + 4 * from,
            4 + 4 * from + 32,
        ).subrange(4 * i, 4 * i + 4));
        crate::wire::lemma_le32_back(d, 4 + 4 * (from + i), v[i].bits);
    }
    assert(numbers_at(d, from) =~= v);
}

/// A calibration record that was stored is read back with its numbers, as a
/// valid one.
pub proof fn law_calibration_reads_back(cal: CalView)
    requires
        cal.offset.len() == 8,
        cal.gain_p.len() == 8,
        cal.gain_n.len() == 8,
    ensures
        cal.stored().len() == 100,
        CalView::loaded(cal.stored()) == (CalView { valid: true, ..cal }),
{
    let d = cal.stored();
    lemma_number_bytes(cal.offset);
    lemma_number_bytes(cal.gain_p);
    lemma_number_bytes(cal.gain_n);
    assert(d.subrange(0, 4) =~= le32(EEPROM_VALID));
    crate::wire::lemma_le32_back(d, 0, EEPROM_VALID);
    assert(d.subrange(4, 36) =~= number_bytes(cal.offset));
    lemma_numbers_back(d, 0, cal.offset);
    assert(d.subrange(36, 68) =~= number_bytes(cal.gain_p));
    lemma_numbers_back(d, 8, cal.gain_p);
    assert(d.subrange(68, 100) =~= number_bytes(cal.gain_n));
    lemma_numbers_back(d, 16, cal.gain_n);
}

// ---- front end ----

/// The switches and potentiometers of a channel.
#[derive(Clone, Copy, Debug, PartialEq, Eq, Structural)]
pub struct Frontend {
    pub r50_2v5: bool,
    pub r50_gnd: bool,
    pub feedback: bool,
    pub output_en: bool,
    pub split: bool,
    pub pot_r1: u8,
    pub pot_r2: u8,
}

#[derive(Clone, Copy, Debug)]
pub struct M1kBackend {
    pub cal: M1kCal,
    /// What the channels are set to.
    pub m_mode: [u32; 2],
    /// Timer ticks per half sample.
    pub m1k_per: u32,
    pub led_state: u8,
    /// Whether the four readings of a sample stand together in a packet.
    pub fw_interleaved: bool,
    pub frontend: [Frontend; 2],
    pub packets_per_transfer: usize,
    /// How far output is ahead of input: what it settled at, the least of the
    /// transfers under way, their number, and how many are still to be ignored.
    pub lead_baseline: Option<i64>,
    pub lead_min: i64,
    pub lead_count: u32,
    pub lead_settle: u32,
}

#[verifier::ext_equal]
pub ghost struct M1kView {
    pub cal: CalView,
    pub m_mode: Seq<u32>,
    pub m1k_per: u32,
    pub led_state: u8,
    pub fw_interleaved: bool,
    pub frontend: Seq<Frontend>,
    pub packets_per_transfer: usize,
    pub lead_baseline: Option<i64>,
    pub lead_min: i64,
    pub lead_count: u32,
    pub lead_settle: u32,
}

impl View for M1kBackend {
    type V = M1kView;

    open spec fn view(&self) -> M1kView {
        M1kView {
            cal: self.cal@,
            m_mode: self.m_mode@,
            m1k_per: self.m1k_per,
            led_state: self.led_state,
            fw_interleaved: self.fw_interleaved,
            frontend: self.frontend@,
            packets_per_transfer: self.packets_per_transfer,
            lead_baseline: self.lead_baseline,
            lead_min: self.lead_min,
            lead_count: self.lead_count,
            lead_settle: self.lead_settle,
        }
    }
}

/// A control transfer to the device as an effect.
pub open spec fn sends(request: u8, value: u16, index: u16) -> EffectView {
    EffectView::Control(told(request, value, index))
}

fn send(out: &mut Vec<Effect>, request: u8, value: u16, index: u16)
    ensures
        effects(final(out)@) == effects(old(out)@).push(sends(request, value, index)),
{
    enqueue(out, Effect::Control(tell(request, value, index)));
}

/// The setting of the potentiometers in a mode.
pub open spec fn pots_of(mode: u32) -> u16 {
    if mode == SIMV || mode == SIMV_SPLIT {
        0x7f7f
    } else if mode == SVMI || mode == SVMI_SPLIT {
        0
    } else {
        0x3000
    }
}

/// Whether the input is split from the output in a mode.
pub open spec fn splits(mode: u32) -> bool {
    mode == HI_Z_SPLIT || mode == SVMI_SPLIT || mode == SIMV_SPLIT
}

/// The pin that splits a channel.
pub open spec fn split_pin(channel: int) -> u16 {
    if channel == 0 {
        34
    } else {
        39
    }
}

/// The requests that set the mode of a channel.
pub open spec fn mode_requests(channel: int, mode: u32) -> Seq<EffectView> {
    let two = seq![
        sends(0x59, channel as u16, pots_of(mode)),
        sends(0x53, channel as u16, (mode % 3) as u16),
    ];
    if splits(mode) {
        two.push(sends(0x51, split_pin(channel), 0))
    } else {
        two
    }
}

impl M1kView {
    /// What the mode of a channel makes of its front end.
    pub open spec fn with_mode(self, channel: int, mode: u32) -> M1kView {
        let fe = Frontend {
            feedback: true,
            output_en: mode % 3 != 0,
            split: splits(mode),
            pot_r1: (pots_of(mode) / 256) as u8,
            pot_r2: (pots_of(mode) % 256) as u8,
            ..self.frontend[channel]
        };
        M1kView {
            m_mode: self.m_mode.update(channel, mode),
            frontend: self.frontend.update(channel, fe),
            ..self
        }
    }

    pub open spec fn with_pots(self, channel: int, r1: u8, r2: u8) -> M1kView {
        let fe = Frontend { pot_r1: r1, pot_r2: r2, ..self.frontend[channel] };
        M1kView { frontend: self.frontend.update(channel, fe), ..self }
    }

    /// With the count of the output lead started over.
    pub open spec fn unsettled(self) -> M1kView {
        M1kView {
            lead_baseline: None,
            lead_min: i64::MAX,
            lead_count: 0,
            lead_settle: 16,
            ..self
        }
    }
}

/// A switch of the front end.
#[derive(Clone, Copy, Debug, PartialEq, Eq, Structural)]
pub enum Switch {
    R502v5,
    R50Gnd,
    Feedback,
    OutputEn,
    Split,
}

/// The pin of a switch.
pub open spec fn switch_pin(channel: int, switch: Switch) -> u16 {
    match switch {
        Switch::R502v5 => if channel == 0 {
            0x20
        } else {
            0x25
        },
        Switch::R50Gnd => if channel == 0 {
            0x21
        } else {
            0x26
        },
        Switch::Feedback => if channel == 0 {
            0x22
        } else {
            0x27
        },
        Switch::OutputEn => if channel == 0 {
            0x23
        } else {
            0x28
        },
        Switch::Split => split_pin(channel),
    }
}

/// The front end with a switch turned.
pub open spec fn turned(fe: Frontend, switch: Switch, on: bool) -> Frontend {
    match switch {
        Switch::R502v5 => Frontend { r50_2v5: on, ..fe },
        Switch::R50Gnd => Frontend { r50_gnd: on, ..fe },
        Switch::Feedback => Frontend { feedback: on, ..fe },
        Switch::OutputEn => Frontend { output_en: on, ..fe },
        Switch::Split => Frontend { split: on, ..fe },
    }
}

/// The request that turns a switch: its pin goes low to turn it on, but for the
/// one that splits.
pub open spec fn switch_request(channel: int, switch: Switch, on: bool) -> EffectView {
    let high = if switch == Switch::Split {
        on
    } else {
        !on
    };
    sends(
        if high {
            0x51
        } else {
            0x50
        },
        switch_pin(channel, switch),
        0,
    )
}

impl M1kBackend {
    pub fn set_mode(&mut self, channel: usize, mode: u32, out: &mut Vec<Effect>)
        requires
            channel < 2,
        ensures
            final(self)@ == old(self)@.with_mode(channel as int, mode),
            effects(final(out)@) == effects(old(out)@) + mode_requests(channel as int, mode),
    {
        let pset: u16 = if mode == SIMV || mode == SIMV_SPLIT {
            0x7f7f
        } else if mode == SVMI || mode == SVMI_SPLIT {
            0
        } else {
            0x3000
        };
        let split = mode == HI_Z_SPLIT || mode == SVMI_SPLIT || mode == SIMV_SPLIT;
        send(out, 0x59, channel as u16, pset);
        send(out, 0x53, channel as u16, (mode % 3) as u16);
        if split {
            send(
                out,
                0x51,
                if channel == 0 {
                    34
                } else {
                    39
                },
                0,
            );
        }
        self.m_mode[channel] = mode;
        self.frontend[channel].feedback = true;
        self.frontend[channel].output_en = mode % 3 != 0;
        self.frontend[channel].split = split;
        self.frontend[channel].pot_r1 = (pset / 256) as u8;
        self.frontend[channel].pot_r2 = (pset % 256) as u8;
        assert(self@ =~= old(self)@.with_mode(channel as int, mode));
        assert(effects(out@) =~= effects(old(out)@) + mode_requests(channel as int, mode));
    }

    pub fn set_digipot(&mut self, channel: usize, r1: u8, r2: u8, out: &mut Vec<Effect>)
        requires
            channel < 2,
        ensures
            final(self)@ == old(self)@.with_pots(channel as int, r1, r2),
            effects(final(out)@) == effects(old(out)@).push(
                sends(0x59, channel as u16, (r1 * 256 + r2) as u16),
            ),
    {
        send(out, 0x59, channel as u16, r1 as u16 * 256 + r2 as u16);
        self.frontend[channel].pot_r1 = r1;
        self.frontend[channel].pot_r2 = r2;
        assert(self@ =~= old(self)@.with_pots(channel as int, r1, r2));
    }

    pub fn set_leds(&mut self, state: u8, out: &mut Vec<Effect>)
        ensures
            final(self)@ == (M1kView { led_state: state % 8, ..old(self)@ }),
            effects(final(out)@) == effects(old(out)@).push(sends(0x03, (state % 8) as u16, 0)),
    {
        self.led_state = state % 8;
        send(out, 0x03, (state % 8) as u16, 0);
    }

    pub fn set_frontend_switch(
        &mut self,
        channel: usize,
        switch: Switch,
        on: bool,
        out: &mut Vec<Effect>,
    )
        requires
            channel < 2,
        ensures
            final(self)@ == (M1kView {
                frontend: old(self)@.frontend.update(
                    channel as int,
                    turned(old(self)@.frontend[channel as int], switch, on),
                ),
                ..old(self)@
            }),
            effects(final(out)@) == effects(old(out)@).push(
                switch_request(channel as int, switch, on),
            ),
    {
        let a = channel == 0;
        let pin: u16 = match switch {
            Switch::R502v5 => {
                self.frontend[channel].r50_2v5 = on;
                if a {
                    0x20
                } else {
                    0x25
                }
            },
            Switch::R50Gnd => {
                self.frontend[channel].r50_gnd = on;
                if a {
                    0x21
                } else {
                    0x26
                }
            },
            Switch::Feedback => {
                self.frontend[channel].feedback = on;
                if a {
                    0x22
                } else {
                    0x27
                }
            },
            Switch::OutputEn => {
                self.frontend[channel].output_en = on;
                if a {
                    0x23
                } else {
                    0x28
                }
            },
            Switch::Split => {
                self.frontend[channel].split = on;
                if a {
                    34
                } else {
                    39
                }
            },
        };
        let high = if let Switch::Split = switch {
            on
        } else {
            !on
        };
        send(
            out,
            if high {
                0x51
            } else {
                0x50
            },
            pin,
            0,
        );
        assert(self@.frontend =~= old(self)@.frontend.update(
            channel as int,
            turned(old(self)@.frontend[channel as int], switch, on),
        ));
    }

    /// Starts the count of the output lead over.
    pub fn unsettle(&mut self)
        ensures
            final(self)@ == old(self)@.unsettled(),
    {
        self.lead_baseline = None;
        self.lead_min = i64::MAX;
        self.lead_count = 0;
        self.lead_settle = 16;
    }
}

// ---- changes to the front end ----

/// What is to change of the front end of a channel.
#[derive(Clone, Copy, Debug, PartialEq, Eq, Structural)]
pub struct FrontendChange {
    pub r50_2v5: Option<bool>,
    pub r50_gnd: Option<bool>,
    pub feedback: Option<bool>,
    pub output_en: Option<bool>,
    pub split: Option<bool>,
    /// Whether the potentiometers are to be set; to what they are at where
    /// nothing else is said.
    pub pots: bool,
    pub pot_r1: Option<u8>,
    pub pot_r2: Option<u8>,
}

/// The request that a wish for a switch leads to.
pub open spec fn wish_requests(channel: int, switch: Switch, wish: Option<bool>) -> Seq<EffectView> {
    match wish {
        Some(on) => seq![switch_request(channel, switch, on)],
        None => seq![],
    }
}

/// The front end after a wish for a switch.
pub open spec fn wished(fe: Frontend, switch: Switch, wish: Option<bool>) -> Frontend {
    match wish {
        Some(on) => turned(fe, switch, on),
        None => fe,
    }
}

impl FrontendChange {
    /// The front end after the switches were turned.
    pub open spec fn switched(self, fe: Frontend) -> Frontend {
        Frontend {
            r50_2v5: self.r50_2v5.unwrap_or(fe.r50_2v5),
            r50_gnd: self.r50_gnd.unwrap_or(fe.r50_gnd),
            feedback: self.feedback.unwrap_or(fe.feedback),
            output_en: self.output_en.unwrap_or(fe.output_en),
            split: self.split.unwrap_or(fe.split),
            ..fe
        }
    }

    /// The front end after the change.
    pub open spec fn applied(self, fe: Frontend) -> Frontend {
        if self.pots {
            Frontend {
                pot_r1: self.pot_r1.unwrap_or(fe.pot_r1),
                pot_r2: self.pot_r2.unwrap_or(fe.pot_r2),
                ..self.switched(fe)
            }
        } else {
            self.switched(fe)
        }
    }

    /// The requests that turn the switches.
    pub open spec fn switch_requests(self, channel: int) -> Seq<EffectView> {
        wish_requests(channel, Switch::R502v5, self.r50_2v5) + wish_requests(
            channel,
            Switch::R50Gnd,
            self.r50_gnd,
        ) + wish_requests(channel, Switch::Feedback, self.feedback) + wish_requests(
            channel,
            Switch::OutputEn,
            self.output_en,
        ) + wish_requests(channel, Switch::Split, self.split)
    }

    /// The requests that the change takes.
    pub open spec fn requests(self, channel: int, fe: Frontend) -> Seq<EffectView> {
        let after = self.applied(fe);
        self.switch_requests(channel) + (if self.pots {
            seq![sends(0x59, channel as u16, (after.pot_r1 * 256 + after.pot_r2) as u16)]
        } else {
            seq![]
        })
    }
}

impl M1kView {
    pub open spec fn with_frontend(self, channel: int, change: FrontendChange) -> M1kView {
        M1kView {
            frontend: self.frontend.update(channel, change.applied(self.frontend[channel])),
            ..self
        }
    }
}

impl M1kBackend {
    fn wish(&mut self, channel: usize, switch: Switch, wish: Option<bool>, out: &mut Vec<Effect>)
        requires
            channel < 2,
        ensures
            final(self)@ == (M1kView {
                frontend: old(self)@.frontend.update(
                    channel as int,
                    wished(old(self)@.frontend[channel as int], switch, wish),
                ),
                ..old(self)@
            }),
            effects(final(out)@) == effects(old(out)@) + wish_requests(
                channel as int,
                switch,
                wish,
            ),
    {
        assert(self@.frontend =~= self@.frontend.update(
            channel as int,
            self@.frontend[channel as int],
        ));
        if let Some(on) = wish {
            self.set_frontend_switch(channel, switch, on, out);
        }
        assert(effects(out@) =~= effects(old(out)@) + wish_requests(channel as int, switch, wish));
    }

    fn apply_switches(&mut self, channel: usize, change: FrontendChange, out: &mut Vec<Effect>)
        requires
            channel < 2,
        ensures
            final(self)@ == (M1kView {
                frontend: old(self)@.frontend.update(
                    channel as int,
                    change.switched(old(self)@.frontend[channel as int]),
                ),
                ..old(self)@
            }),
            effects(final(out)@) == effects(old(out)@) + change.switch_requests(channel as int),
    {
        let ghost before = effects(out@);
        let ghost f = self@.frontend;
        let ghost c = channel as int;
        let ghost w1 = wish_requests(c, Switch::R502v5, change.r50_2v5);
        let ghost w2 = wish_requests(c, Switch::R50Gnd, change.r50_gnd);
        let ghost w3 = wish_requests(c, Switch::Feedback, change.feedback);
        let ghost w4 = wish_requests(c, Switch::OutputEn, change.output_en);
        let ghost w5 = wish_requests(c, Switch::Split, change.split);
        let ghost f1 = wished(f[c], Switch::R502v5, change.r50_2v5);
        let ghost f2 = wished(f1, Switch::R50Gnd, change.r50_gnd);
        let ghost f3 = wished(f2, Switch::Feedback, change.feedback);
        let ghost f4 = wished(f3, Switch::OutputEn, change.output_en);
        let ghost f5 = wished(f4, Switch::Split, change.split);
        self.wish(channel, Switch::R502v5, change.r50_2v5, out);
        self.wish(channel, Switch::R50Gnd, change.r50_gnd, out);
        proof {
            lemma_add_assoc(before, w1, w2);
            assert(f.update(c, f1).update(c, f2) =~= f.update(c, f2));
        }
        self.wish(channel, Switch::Feedback, change.feedback, out);
        proof {
            lemma_add_assoc(before, w1 + w2, w3);
            assert(f.update(c, f2).update(c, f3) =~= f.update(c, f3));
        }
        self.wish(channel, Switch::OutputEn, change.output_en, out);
        proof {
            lemma_add_assoc(before, w1 + w2 + w3, w4);
            assert(f.update(c, f3).update(c, f4) =~= f.update(c, f4));
        }
        self.wish(channel, Switch::Split, change.split, out);
        proof {
            lemma_add_assoc(before, w1 + w2 + w3 + w4, w5);
            assert(f.update(c, f4).update(c, f5) =~= f.update(c, f5));
            lemma_switched(f[c], change);
        }
    }

    pub fn apply_frontend(&mut self, channel: usize, change: FrontendChange, out: &mut Vec<Effect>)
        requires
            channel < 2,
        ensures
            final(self)@ == old(self)@.with_frontend(channel as int, change),
            effects(final(out)@) == effects(old(out)@) + change.requests(
                channel as int,
                old(self)@.frontend[channel as int],
            ),
    {
        let ghost before = effects(out@);
        let ghost f = self@.frontend;
        let ghost c = channel as int;
        let ghost w = change.switch_requests(c);
        self.apply_switches(channel, change, out);
        if change.pots {
            let r1: u8 = match change.pot_r1 {
                Some(r) => r,
                None => self.frontend[channel].pot_r1,
            };
            let r2: u8 = match change.pot_r2 {
                Some(r) => r,
                None => self.frontend[channel].pot_r2,
            };
            self.set_digipot(channel, r1, r2, out);
            let ghost e = sends(0x59, channel as u16, (r1 * 256 + r2) as u16);
            assert((before + w).push(e) =~= before + (w + seq![e]));
        } else {
            assert(w + seq![] =~= w);
        }
        assert(self@.frontend =~= f.update(c, change.applied(f[c])));
    }
}

proof fn lemma_switched(fe: Frontend, change: FrontendChange)
    ensures
        change.switched(fe) == wished(
            wished(
                wished(
                    wished(
                        wished(fe, Switch::R502v5, change.r50_2v5),
                        Switch::R50Gnd,
                        change.r50_gnd,
                    ),
                    Switch::Feedback,
                    change.feedback,
                ),
                Switch::OutputEn,
                change.output_en,
            ),
            Switch::Split,
            change.split,
        ),
{
}

proof fn lemma_add_assoc(a: Seq<EffectView>, b: Seq<EffectView>, c: Seq<EffectView>)
    ensures
        a + b + c == a + (b + c),
{
    assert(a + b + c =~= a + (b + c));
}

// ---- commands ----

/// A setting of a potentiometer, if it is not negative.
pub open spec fn pot_wish(v: i64) -> Option<u8> {
    if v >= 0 {
        Some((v % 128) as u8)
    } else {
        None
    }
}

/// The change that a document asks for.
pub open spec fn change_from(n: JsonTree) -> FrontendChange {
    let r1 = pot_wish(int_at(n, "pot_r1"@).unwrap_or((-1) as i64));
    let r2 = pot_wish(int_at(n, "pot_r2"@).unwrap_or((-1) as i64));
    FrontendChange {
        r50_2v5: bool_at(n, "r50_2v5"@),
        r50_gnd: bool_at(n, "r50_gnd"@),
        feedback: bool_at(n, "feedback"@),
        output_en: bool_at(n, "output_en"@),
        split: bool_at(n, "split"@),
        pots: r1 is Some || r2 is Some,
        pot_r1: r1,
        pot_r2: r2,
    }
}

/// The channel that is meant: the second one, if it is called so.
pub open spec fn channel_named(name: Seq<char>) -> int {
    if name == "b"@ || name == "B"@ {
        1
    } else {
        0
    }
}

/// The lights: three bits, of which some may be said to be on or off.
pub open spec fn lights(state: u8, red: Option<bool>, green: Option<bool>, blue: Option<bool>) -> u8 {
    ((if red.unwrap_or((state / 4) % 2 == 1) {
        4int
    } else {
        0
    }) + (if green.unwrap_or((state / 2) % 2 == 1) {
        2int
    } else {
        0
    }) + (if blue.unwrap_or(state % 2 == 1) {
        1int
    } else {
        0
    })) as u8
}

/// The lights that a document asks for.
pub open spec fn lights_from(state: u8, n: JsonTree) -> u8 {
    let v = int_at(n, "leds"@).unwrap_or((-1) as i64);
    if v >= 0 {
        (v % 8) as u8
    } else {
        lights(state, bool_at(n, "red"@), bool_at(n, "green"@), bool_at(n, "blue"@))
    }
}

/// The document of the lights.
pub open spec fn lights_tree(state: u8) -> JsonTree {
    JsonTree::Object(
        seq![
            natural("leds"@, state as u64),
            truth("red"@, (state / 4) % 2 == 1),
            truth("green"@, (state / 2) % 2 == 1),
            truth("blue"@, state % 2 == 1),
        ],
    )
}

/// Numbers as a document lists them.
pub open spec fn number_trees(v: Seq<Single>) -> Seq<JsonTree> {
    v.map_values(|x: Single| JsonTree::Number(Number::Single(x)))
}

/// The numbers of a calibration, as members.
pub open spec fn number_members(cal: CalView) -> Seq<(Seq<char>, JsonTree)> {
    seq![
        ("offset"@, JsonTree::Array(number_trees(cal.offset))),
        ("gain_p"@, JsonTree::Array(number_trees(cal.gain_p))),
        ("gain_n"@, JsonTree::Array(number_trees(cal.gain_n))),
    ]
}

/// Eight numbers of a list; zero where there is none.
pub open spec fn eight_from(a: Seq<JsonTree>) -> Seq<Single> {
    Seq::new(
        8,
        |i: int|
            if i < a.len() && number_of(a[i]) is Some {
                number_of(a[i])->Some_0.narrowed()
            } else {
                Single { bits: 0 }
            },
    )
}

/// Eight numbers of the property `prop`, or the complaint that there are none.
pub open spec fn eight_needed(n: JsonTree, prop: Seq<char>) -> Result<Seq<Single>, Seq<char>> {
    match array_at(n, prop) {
        Some(a) => Ok(eight_from(a)),
        None => Err("JSON missing property: "@ + prop),
    }
}

/// The calibration that a document asks for, or what is wrong.
pub open spec fn calibration_from(n: JsonTree) -> Result<CalView, Seq<char>> {
    match (eight_needed(n, "offset"@), eight_needed(n, "gain_p"@), eight_needed(n, "gain_n"@)) {
        (Err(m), _, _) => Err(m),
        (_, Err(m), _) => Err(m),
        (_, _, Err(m)) => Err(m),
        (Ok(offset), Ok(gain_p), Ok(gain_n)) => Ok(
            CalView { valid: true, offset, gain_p, gain_n },
        ),
    }
}

/// Whether a serial number can be stored.
pub open spec fn serial_fits(serial: Seq<char>) -> bool {
    1 <= encode_utf8(serial).len() <= 32
}

/// The bit that tells of too much current, by the version of the firmware.
pub open spec fn alert_bit_of(fw_version: Seq<char>) -> u8 {
    if not_before(fw_version, "2.11"@) {
        8
    } else {
        4
    }
}

/// The question for the power supply.
pub open spec fn power_question() -> ControlView {
    asked(0x17, 0, 3, 3)
}

/// The questions for the temperatures.
pub open spec fn temperature_questions() -> Seq<ControlView> {
    seq![asked(0x19, 0, 0, 2), asked(0x19, 1, 0, 2)]
}

/// What the commands of an M1K lead to: its state, effects, and an outcome or
/// what is wrong.
#[verifier::opaque]
pub open spec fn m1k_command(
    b: M1kView,
    fw_version: Seq<char>,
    client: u64,
    cmd: Seq<char>,
    n: JsonTree,
) -> (M1kView, Seq<EffectView>, Result<OutcomeView, Seq<char>>) {
    let id = int_at(n, "id"@).unwrap_or(0);
    if cmd == "readCalibration"@ {
        (
            b,
            seq![
                to_one(
                    client,
                    returned(id, number_members(b.cal) + seq![truth("valid"@, b.cal.valid)]),
                ),
            ],
            Ok(OutcomeView::Handled),
        )
    } else if cmd == "writeCalibration"@ {
        match calibration_from(n) {
            Err(m) => (b, seq![], Err(m)),
            Ok(cal) => (
                M1kView { cal, ..b },
                seq![],
                Ok(
                    OutcomeView::Ask(
                        AskView {
                            client,
                            id,
                            answer: Answer::Status,
                            requests: seq![written(0x02, cal.stored())],
                            bulk: None,
                        },
                    ),
                ),
            ),
        }
    } else if cmd == "getFrontend"@ {
        (
            b,
            seq![to_one(client, returned(id, seq![("frontend"@, b.frontend_document())]))],
            Ok(OutcomeView::Handled),
        )
    } else if cmd == "setFrontend"@ {
        match string_needed(n, "channel"@) {
            Err(m) => (b, seq![], Err(m)),
            Ok(name) => {
                let c = channel_named(name);
                let b2 = b.with_frontend(c, change_from(n));
                (
                    b2,
                    change_from(n).requests(c, b.frontend[c]).push(
                        to_one(client, returned(id, seq![("frontend"@, b2.frontend_document())])),
                    ),
                    Ok(OutcomeView::Handled),
                )
            },
        }
    } else if cmd == "getPower"@ {
        (
            b,
            seq![],
            Ok(
                OutcomeView::Ask(
                    AskView {
                        client,
                        id,
                        answer: Answer::Power { alert_bit: alert_bit_of(fw_version) },
                        requests: seq![power_question()],
                        bulk: None,
                    },
                ),
            ),
        )
    } else if cmd == "getTemperature"@ {
        (
            b,
            seq![],
            Ok(
                OutcomeView::Ask(
                    AskView {
                        client,
                        id,
                        answer: Answer::Temperature,
                        requests: temperature_questions(),
                        bulk: None,
                    },
                ),
            ),
        )
    } else if cmd == "getLED"@ {
        (
            b,
            seq![to_one(client, returned(id, seq![("leds"@, lights_tree(b.led_state))]))],
            Ok(OutcomeView::Handled),
        )
    } else if cmd == "setLED"@ {
        let state = lights_from(b.led_state, n);
        (
            M1kView { led_state: state, ..b },
            seq![
                sends(0x03, state as u16, 0),
                to_one(client, returned(id, seq![("leds"@, lights_tree(state))])),
            ],
            Ok(OutcomeView::Handled),
        )
    } else if cmd == "setSerial"@ {
        let serial = string_at(n, "serial"@).unwrap_or(""@);
        if serial_fits(serial) {
            (
                b,
                seq![],
                Ok(
                    OutcomeView::Ask(
                        AskView {
                            client,
                            id,
                            answer: Answer::Status,
                            requests: seq![written(0x05, encode_utf8(serial))],
                            bulk: None,
                        },
                    ),
                ),
            )
        } else {
            (
                b,
                seq![to_one(client, returned(id, seq![signed("status"@, (-1) as i64)]))],
                Ok(OutcomeView::Handled),
            )
        }
    } else {
        (b, seq![], Ok(OutcomeView::Unknown))
    }
}

fn numbers_json(v: &[Single; 8]) -> (r: Json)
    ensures
        r@ == JsonTree::Array(number_trees(v@)),
{
    let mut a: Vec<Json> = Vec::new();
    let mut i: usize = 0;
    assert(trees(a@) =~= number_trees(v@.take(0)));
    while i < 8
        invariant
            i <= 8,
            trees(a@) == number_trees(v@.take(i as int)),
        decreases 8 - i,
    {
        add_element(&mut a, Json::Number(Number::Single(v[i])));
        assert(trees(a@) =~= number_trees(v@.take(i + 1)));
        i += 1;
    }
    assert(v@.take(8) =~= v@);
    Json::Array(a)
}

/// Appends the numbers of a calibration.
pub fn put_calibration(n: &mut Vec<(String, Json)>, cal: &M1kCal)
    ensures
        members(final(n)@) == members(old(n)@) + number_members(cal@),
{
    put(n, "offset", numbers_json(&cal.offset));
    put(n, "gain_p", numbers_json(&cal.gain_p));
    put(n, "gain_n", numbers_json(&cal.gain_n));
    assert(members(n@) =~= members(old(n)@) + number_members(cal@));
}

pub fn led_json(state: u8) -> (r: Json)
    ensures
        r@ == lights_tree(state),
{
    let mut n: Vec<(String, Json)> = Vec::new();
    put_number(&mut n, "leds", Number::Unsigned(state as u64));
    put_bool(&mut n, "red", (state / 4) % 2 == 1);
    put_bool(&mut n, "green", (state / 2) % 2 == 1);
    put_bool(&mut n, "blue", state % 2 == 1);
    assert(members(n@) =~= lights_tree(state)->Object_0);
    Json::Object(n)
}

fn number_in(a: &Vec<Json>, i: usize) -> (r: Single)
    requires
        i < 8,
    ensures
        r == eight_from(trees(a@))[i as int],
{
    proof {
        lemma_trees_at(a@);
    }
    if i < a.len() {
        assert(trees(a@)[i as int] == tree(a@[i as int]));
        if let Some(d) = a[i].number() {
            return d.narrow();
        }
    }
    Single { bits: 0 }
}

fn eight_prop(n: &Json, prop: &str) -> (r: Result<[Single; 8], Error>)
    ensures
        match r {
            Ok(v) => eight_needed(n@, prop@) == Ok::<Seq<Single>, Seq<char>>(v@),
            Err(e) => eight_needed(n@, prop@) == Err::<Seq<Single>, Seq<char>>(e@),
        },
{
    match n.get(prop) {
        Some(Json::Array(a)) => {
            let v = [
                number_in(a, 0),
                number_in(a, 1),
                number_in(a, 2),
                number_in(a, 3),
                number_in(a, 4),
                number_in(a, 5),
                number_in(a, 6),
                number_in(a, 7),
            ];
            assert(v@ =~= eight_from(trees(a@)));
            Ok(v)
        },
        _ => Err(Error(joined("JSON missing property: ", prop))),
    }
}

/// Reads a calibration.
pub fn read_calibration(n: &Json) -> (r: Result<M1kCal, Error>)
    ensures
        match r {
            Ok(c) => calibration_from(n@) == Ok::<CalView, Seq<char>>(c@),
            Err(e) => calibration_from(n@) == Err::<CalView, Seq<char>>(e@),
        },
{
    let offset = match eight_prop(n, "offset") {
        Ok(v) => v,
        Err(e) => return Err(e),
    };
    let gain_p = match eight_prop(n, "gain_p") {
        Ok(v) => v,
        Err(e) => return Err(e),
    };
    let gain_n = match eight_prop(n, "gain_n") {
        Ok(v) => v,
        Err(e) => return Err(e),
    };
    Ok(M1kCal { valid: true, offset, gain_p, gain_n })
}

fn bool_of(n: &Json, prop: &str) -> (r: Option<bool>)
    ensures
        r == bool_at(n@, prop@),
{
    match n.get(prop) {
        Some(Json::Bool(b)) => Some(*b),
        _ => None,
    }
}

fn pot_of(n: &Json, prop: &str) -> (r: Option<u8>)
    ensures
        r == pot_wish(int_at(n@, prop@).unwrap_or((-1) as i64)),
{
    let v = json_int_prop_def(n, prop, -1);
    if v >= 0 {
        Some((v % 128) as u8)
    } else {
        None
    }
}

fn read_change(n: &Json) -> (r: FrontendChange)
    ensures
        r == change_from(n@),
{
    let pot_r1 = pot_of(n, "pot_r1");
    let pot_r2 = pot_of(n, "pot_r2");
    FrontendChange {
        r50_2v5: bool_of(n, "r50_2v5"),
        r50_gnd: bool_of(n, "r50_gnd"),
        feedback: bool_of(n, "feedback"),
        output_en: bool_of(n, "output_en"),
        split: bool_of(n, "split"),
        pots: pot_r1.is_some() || pot_r2.is_some(),
        pot_r1,
        pot_r2,
    }
}

pub fn channel_index(name: &str) -> (r: usize)
    ensures
        r == channel_named(name@),
        r < 2,
{
    if same(name, "b") || same(name, "B") {
        1
    } else {
        0
    }
}

/// The lights, of which some may be said to be on or off.
pub fn lights_with(state: u8, red: Option<bool>, green: Option<bool>, blue: Option<bool>) -> (r: u8)
    ensures
        r == lights(state, red, green, blue),
        r < 8,
{
    let r4: u8 = if red.unwrap_or((state / 4) % 2 == 1) {
        4
    } else {
        0
    };
    let r2: u8 = if green.unwrap_or((state / 2) % 2 == 1) {
        2
    } else {
        0
    };
    let r1: u8 = if blue.unwrap_or(state % 2 == 1) {
        1
    } else {
        0
    };
    r4 + r2 + r1
}

fn read_lights(state: u8, n: &Json) -> (r: u8)
    ensures
        r == lights_from(state, n@),
        r < 8,
{
    let v = json_int_prop_def(n, "leds", -1);
    if v >= 0 {
        (v % 8) as u8
    } else {
        lights_with(state, bool_of(n, "red"), bool_of(n, "green"), bool_of(n, "blue"))
    }
}

/// The request that stores a serial number, if it can be stored.
pub fn serial_request(serial: &str) -> (r: Option<ControlRequest>)
    ensures
        match r {
            Some(c) => serial_fits(serial@) && c@ == written(0x05, encode_utf8(serial@)),
            None => !serial_fits(serial@),
        },
{
    let b = serial.as_bytes();
    if b.len() == 0 || b.len() > 32 {
        return None;
    }
    let mut data: Vec<u8> = Vec::new();
    let mut i: usize = 0;
    while i < b.len()
        invariant
            i <= b.len(),
            data@ == b@.take(i as int),
        decreases b.len() - i,
    {
        data.push(b[i]);
        i += 1;
        assert(data@ =~= b@.take(i as int));
    }
    assert(data@ =~= b@);
    Some(hand_over(0x05, data))
}

pub fn alert_bit(fw_version: &str) -> (r: u8)
    ensures
        r == alert_bit_of(fw_version@),
{
    if at_least(fw_version, "2.11") {
        8
    } else {
        4
    }
}

/// The requests for the temperatures.
pub fn temperature_requests() -> (r: Vec<ControlRequest>)
    ensures
        request_views(r@) == temperature_questions(),
        r.len() == 2,
{
    let mut v: Vec<ControlRequest> = Vec::new();
    v.push(ask(0x19, 0, 0, 2));
    v.push(ask(0x19, 1, 0, 2));
    assert(request_views(v@) =~= temperature_questions());
    v
}

impl M1kBackend {
    /// Handles the commands that only an M1K knows.
    pub fn process_message(
        &mut self,
        fw_version: &str,
        out: &mut Vec<Effect>,
        client: u64,
        cmd: &str,
        n: &Json,
    ) -> (r: Result<Outcome, Error>)
        ensures
            ({
                let (b, todo, result) = m1k_command(old(self)@, fw_version@, client, cmd@, n@);
                &&& final(self)@ == b
                &&& effects(final(out)@) == effects(old(out)@) + todo
                &&& match r {
                    Ok(o) => result == Ok::<OutcomeView, Seq<char>>(o@),
                    Err(e) => result == Err::<OutcomeView, Seq<char>>(e@),
                }
            }),
            done_or_asking(r),
    {
        proof {
            reveal(m1k_command);
        }
        let id = json_int_prop_def(n, "id", 0);
        let ghost todo = m1k_command(self@, fw_version@, client, cmd@, n@).1;
        assert(effects(out@) =~= effects(out@) + seq![]);
        if same(cmd, "readCalibration") {
            let mut m = answer_to(id);
            put_calibration(&mut m, &self.cal);
            put_bool(&mut m, "valid", self.cal.valid);
            assert(members(m@) =~= answer_members(
                id,
                number_members(self@.cal) + seq![truth("valid"@, self@.cal.valid)],
            ));
            send_one(out, client, Json::Object(m));
            assert(effects(out@) =~= effects(old(out)@) + todo);
            Ok(Outcome::Handled)
        } else if same(cmd, "writeCalibration") {
            match read_calibration(n) {
                Err(e) => Err(e),
                Ok(cal) => {
                    self.cal = cal;
                    Ok(
                        Outcome::Ask(
                            ask_one(client, id, Answer::Status, hand_over(0x02, cal.to_bytes())),
                        ),
                    )
                },
            }
        } else if same(cmd, "getFrontend") {
            send_one(out, client, answer_with(id, "frontend", self.frontend_to_json()));
            assert(effects(out@) =~= effects(old(out)@) + todo);
            Ok(Outcome::Handled)
        } else if same(cmd, "setFrontend") {
            match json_string_prop(n, "channel") {
                Err(e) => Err(e),
                Ok(name) => {
                    let c = channel_index(name.as_str());
                    let change = read_change(n);
                    self.apply_frontend(c, change, out);
                    send_one(out, client, answer_with(id, "frontend", self.frontend_to_json()));
                    assert(effects(out@) =~= effects(old(out)@) + todo);
                    Ok(Outcome::Handled)
                },
            }
        } else if same(cmd, "getPower") {
            let alert_bit = alert_bit(fw_version);
            Ok(
                Outcome::Ask(
                    ask_one(client, id, Answer::Power { alert_bit }, ask(0x17, 0, 3, 3)),
                ),
            )
        } else if same(cmd, "getTemperature") {
            Ok(
                Outcome::Ask(
                    Ask {
                        client,
                        id,
                        answer: Answer::Temperature,
                        requests: temperature_requests(),
                        bulk: None,
                    },
                ),
            )
        } else if same(cmd, "getLED") {
            send_one(out, client, answer_with(id, "leds", led_json(self.led_state)));
            assert(effects(out@) =~= effects(old(out)@) + todo);
            Ok(Outcome::Handled)
        } else if same(cmd, "setLED") {
            let state = read_lights(self.led_state, n);
            self.set_leds(state, out);
            send_one(out, client, answer_with(id, "leds", led_json(self.led_state)));
            assert(effects(out@) =~= effects(old(out)@) + todo);
            Ok(Outcome::Handled)
        } else if same(cmd, "setSerial") {
            let serial = json_string_prop_def(n, "serial", "");
            match serial_request(serial.as_str()) {
                Some(c) => Ok(Outcome::Ask(ask_one(client, id, Answer::Status, c))),
                None => {
                    send_one(
                        out,
                        client,
                        answer_with(id, "status", Json::Number(Number::Signed(-1))),
                    );
                    assert(effects(out@) =~= effects(old(out)@) + todo);
                    Ok(Outcome::Handled)
                },
            }
        } else {
            Ok(Outcome::Unknown)
        }
    }
}

// ---- making an M1K ----

/// 1/100000 in binary64: the time of a sample that an M1K starts with, and the
/// shortest one.
pub const M1K_TIME_BITS: u64 = 0x3ee4_f8b5_88e3_68f1;

/// White space.
pub open spec fn is_blank(c: char) -> bool {
    c == ' ' || '\t' <= c <= '\r'
}

/// How many blanks `s` starts with.
pub open spec fn blank_len(s: Seq<char>) -> int
    decreases s.len(),
{
    if s.len() == 0 || !is_blank(s[0]) {
        0
    } else {
        1 + blank_len(s.drop_first())
    }
}

/// How many digits `s` starts with.
pub open spec fn digits_len(s: Seq<char>) -> int
    decreases s.len(),
{
    if s.len() == 0 || !is_digit(s[0]) {
        0
    } else {
        1 + digits_len(s.drop_first())
    }
}

/// How many characters of `s` are digits with at most one point among them; none
/// where there is no digit.
pub open spec fn fixed_len(s: Seq<char>) -> int {
    let whole = digits_len(s);
    if whole < s.len() && s[whole] == '.' {
        let part = digits_len(s.skip(whole + 1));
        if whole + part == 0 {
            0
        } else {
            whole + 1 + part
        }
    } else {
        whole
    }
}

/// How many characters of `s` are a power of ten: an `e`, a sign or none, and digits.
pub open spec fn power_len(s: Seq<char>) -> int {
    if s.len() > 0 && (s[0] == 'e' || s[0] == 'E') {
        let sign = sign_len(s.skip(1));
        let digits = digits_len(s.skip(1 + sign));
        if digits == 0 {
            0
        } else {
            1 + sign + digits
        }
    } else {
        0
    }
}

/// The length of the longest start of `s` that is a decimal number; zero where none
/// is one.
pub open spec fn number_len(s: Seq<char>) -> int {
    let sign = sign_len(s);
    let fixed = fixed_len(s.skip(sign));
    if fixed == 0 {
        0
    } else {
        sign + fixed + power_len(s.skip(sign + fixed))
    }
}

/// The number that `s` starts with after white space, as text.
pub open spec fn leading(s: Seq<char>) -> Seq<char> {
    let t = s.skip(blank_len(s));
    t.take(number_len(t))
}

proof fn lemma_blank_len(s: Seq<char>, n: int)
    requires
        0 <= n <= s.len(),
        forall|i: int| 0 <= i < n ==> is_blank(#[trigger] s[i]),
        n == s.len() || !is_blank(s[n]),
    ensures
        blank_len(s) == n,
    decreases s.len(),
{
    if n > 0 {
        assert(is_blank(s[0]));
        let t = s.drop_first();
        assert forall|i: int| 0 <= i < n - 1 implies is_blank(#[trigger] t[i]) by {
            assert(t[i] == s[i + 1]);
        }
        lemma_blank_len(t, n - 1);
    }
}

proof fn lemma_digits_len(s: Seq<char>, n: int)
    requires
        0 <= n <= s.len(),
        forall|i: int| 0 <= i < n ==> is_digit(#[trigger] s[i]),
        n == s.len() || !is_digit(s[n]),
    ensures
        digits_len(s) == n,
    decreases s.len(),
{
    if n > 0 {
        assert(is_digit(s[0]));
        let t = s.drop_first();
        assert forall|i: int| 0 <= i < n - 1 implies is_digit(#[trigger] t[i]) by {
            assert(t[i] == s[i + 1]);
        }
        lemma_digits_len(t, n - 1);
    }
}

/// The end of the digits that start at `from`.
fn after_digits(chars: &Vec<char>, from: usize) -> (r: usize)
    requires
        from <= chars.len(),
    ensures
        from <= r <= chars.len(),
        r == from + digits_len(chars@.skip(from as int)),
{
    let mut n: usize = from;
    let ghost s = chars@.skip(from as int);
    while n < chars.len() && '0' <= chars[n] && chars[n] <= '9'
        invariant
            from <= n <= chars.len(),
            s == chars@.skip(from as int),
            forall|i: int| 0 <= i < n - from ==> is_digit(#[trigger] s[i]),
        decreases chars.len() - n,
    {
        assert(s[n - from] == chars@[n as int]);
        n += 1;
    }
    proof {
        if n < chars.len() {
            assert(s[n - from] == chars@[n as int]);
        }
        lemma_digits_len(s, n - from);
    }
    n
}

/// The end of the sign at `from`, if there is one.
fn after_sign(chars: &Vec<char>, from: usize) -> (r: usize)
    requires
        from <= chars.len(),
    ensures
        from <= r <= chars.len(),
        r == from + sign_len(chars@.skip(from as int)),
{
    assert(from < chars.len() ==> chars@.skip(from as int)[0] == chars@[from as int]);
    if from < chars.len() && (chars[from] == '+' || chars[from] == '-') {
        from + 1
    } else {
        from
    }
}

/// The end of the digits and the point that start at `from`.
fn after_fixed(chars: &Vec<char>, from: usize) -> (r: usize)
    requires
        from <= chars.len(),
    ensures
        from <= r <= chars.len(),
        r == from + fixed_len(chars@.skip(from as int)),
{
    let ghost s = chars@.skip(from as int);
    let whole = after_digits(chars, from);
    assert(whole < chars.len() ==> s[whole - from] == chars@[whole as int]);
    if whole < chars.len() && chars[whole] == '.' {
        let part = after_digits(chars, whole + 1);
        assert(s.skip(whole - from + 1) =~= chars@.skip(whole + 1));
        if whole == from && part == whole + 1 {
            from
        } else {
            part
        }
    } else {
        whole
    }
}

/// The end of the power of ten that starts at `from`.
fn after_power(chars: &Vec<char>, from: usize) -> (r: usize)
    requires
        from <= chars.len(),
    ensures
        from <= r <= chars.len(),
        r == from + power_len(chars@.skip(from as int)),
{
    let ghost s = chars@.skip(from as int);
    assert(from < chars.len() ==> s[0] == chars@[from as int]);
    if from < chars.len() && (chars[from] == 'e' || chars[from] == 'E') {
        let sign = after_sign(chars, from + 1);
        let digits = after_digits(chars, sign);
        assert(s.skip(1) =~= chars@.skip(from + 1));
        assert(s.skip(sign - from) =~= chars@.skip(sign as int));
        if digits == sign {
            from
        } else {
            digits
        }
    } else {
        from
    }
}

/// The number that a version starts with, as text: after white space, a sign or none,
/// digits with at most one point, and a power of ten or none. Empty where there is
/// no number.
pub fn leading_number(s: &str) -> (r: String)
    ensures
        r@ == leading(s@),
{
    let chars = chars_of(s);
    let mut from: usize = 0;
    while from < chars.len() && (chars[from] == ' ' || ('\t' <= chars[from] && chars[from]
        <= '\r'))
        invariant
            from <= chars.len(),
            chars@ == s@,
            forall|i: int| 0 <= i < from ==> is_blank(#[trigger] s@[i]),
        decreases chars.len() - from,
    {
        from += 1;
    }
    proof {
        lemma_blank_len(s@, from as int);
    }
    let ghost t = s@.skip(from as int);
    let sign = after_sign(&chars, from);
    let fixed = after_fixed(&chars, sign);
    assert(t.skip(sign - from) =~= s@.skip(sign as int));
    assert(t.skip(fixed - from) =~= s@.skip(fixed as int));
    let end = if fixed == sign {
        from
    } else {
        after_power(&chars, fixed)
    };
    assert(t.take(end - from) =~= s@.subrange(from as int, end as int));
    text_of(&chars, from, end)
}

/// Whether `t` is made of digits, at least one, and at most one point.
pub open spec fn is_fixed(t: Seq<char>) -> bool {
    &&& forall|i: int| 0 <= i < t.len() ==> is_digit(#[trigger] t[i]) || t[i] == '.'
    &&& exists|i: int| 0 <= i < t.len() && is_digit(#[trigger] t[i])
    &&& forall|i: int, j: int|
        0 <= i < j < t.len() ==> !(#[trigger] t[i] == '.' && #[trigger] t[j] == '.')
}

/// Whether `t` is a power of ten.
pub open spec fn is_power(t: Seq<char>) -> bool {
    &&& t.len() > 0
    &&& t[0] == 'e' || t[0] == 'E'
    &&& ({
        let digits = t.skip(1 + sign_len(t.skip(1)));
        &&& digits.len() > 0
        &&& forall|i: int| 0 <= i < digits.len() ==> is_digit(#[trigger] digits[i])
    })
}

/// Whether `t` is a decimal number.
pub open spec fn is_number(t: Seq<char>) -> bool {
    let u = t.skip(sign_len(t));
    exists|k: int|
        0 <= k <= u.len() && #[trigger] is_fixed(u.take(k)) && (k == u.len() || is_power(
            u.skip(k),
        ))
}

proof fn lemma_digits_are(s: Seq<char>)
    ensures
        0 <= digits_len(s) <= s.len(),
        forall|i: int| 0 <= i < digits_len(s) ==> is_digit(#[trigger] s[i]),
        digits_len(s) < s.len() ==> !is_digit(s[digits_len(s)]),
    decreases s.len(),
{
    if s.len() > 0 && is_digit(s[0]) {
        let t = s.drop_first();
        lemma_digits_are(t);
        assert forall|i: int| 0 <= i < digits_len(s) implies is_digit(#[trigger] s[i]) by {
            if i > 0 {
                assert(s[i] == t[i - 1]);
            }
        }
        if digits_len(s) < s.len() {
            assert(s[digits_len(s)] == t[digits_len(t)]);
        }
    }
}

proof fn lemma_fixed_is(v: Seq<char>)
    ensures
        0 <= fixed_len(v) <= v.len(),
        fixed_len(v) > 0 ==> is_fixed(v.take(fixed_len(v))),
{
    lemma_digits_are(v);
    let whole = digits_len(v);
    if whole < v.len() && v[whole] == '.' {
        let after = v.skip(whole + 1);
        lemma_digits_are(after);
        assert forall|i: int| whole < i < whole + 1 + digits_len(after) implies is_digit(
            #[trigger] v[i],
        ) by {
            assert(v[i] == after[i - whole - 1]);
        }
    }
    if fixed_len(v) > 0 {
        let t = v.take(fixed_len(v));
        if whole > 0 {
            assert(is_digit(t[0]));
        } else {
            assert(is_digit(t[1]));
        }
    }
}

/// No longer start of `v` is made of digits and a point, nor a shorter one that
/// neither of them follows.
proof fn lemma_fixed_most(v: Seq<char>, k: int)
    requires
        0 <= k <= v.len(),
        is_fixed(v.take(k)),
    ensures
        0 < k <= fixed_len(v),
        k < v.len() && !is_digit(v[k]) && v[k] != '.' ==> k == fixed_len(v),
{
    lemma_digits_are(v);
    let t = v.take(k);
    let whole = digits_len(v);
    let d = choose|i: int| 0 <= i < t.len() && is_digit(#[trigger] t[i]);
    assert(is_digit(v[d]));
    if whole < v.len() {
        let after = v.skip(whole + 1);
        lemma_digits_are(after);
        let part = digits_len(after);
        assert(part < after.len() ==> after[part] == v[whole + 1 + part]);
        assert(forall|i: int| 0 <= i < after.len() ==> #[trigger] after[i] == v[whole + 1 + i]);
        if k > whole {
            assert(t[whole] == v[whole]);
            assert(v[whole] == '.');
            if k > whole + 1 + part {
                assert(t[whole + 1 + part] == v[whole + 1 + part]);
            }
            if d > whole {
                assert(after[d - whole - 1] == v[d]);
                assert(part > 0) by {
                    assert(t[whole + 1] == v[whole + 1]);
                    assert(after[0] == v[whole + 1]);
                }
            }
            if k < v.len() && !is_digit(v[k]) && k < whole + 1 + part {
                assert(after[k - whole - 1] == v[k]);
            }
        }
    }
}

proof fn lemma_power_is(w: Seq<char>)
    ensures
        0 <= power_len(w) <= w.len(),
        power_len(w) > 0 ==> is_power(w.take(power_len(w))),
{
    let mark = sign_len(w.skip(1));
    let after = w.skip(1 + mark);
    lemma_digits_are(after);
    let power = power_len(w);
    if power > 0 {
        let p = w.take(power);
        assert(p.skip(1)[0] == w.skip(1)[0]);
        assert(p.skip(1 + mark) =~= after.take(power - 1 - mark));
    }
}

/// No longer start of `w` is a power of ten.
proof fn lemma_power_most(w: Seq<char>, m: int)
    requires
        0 <= m <= w.len(),
        is_power(w.take(m)),
    ensures
        m <= power_len(w),
{
    let p = w.take(m);
    let mark = sign_len(p.skip(1));
    let digits = p.skip(1 + mark);
    assert(p.skip(1)[0] == w.skip(1)[0]);
    let after = w.skip(1 + mark);
    lemma_digits_are(after);
    let most = digits_len(after);
    if most < digits.len() {
        assert(is_digit(digits[most]));
        assert(digits[most] == after[most]);
    }
}

proof fn lemma_number_is(s: Seq<char>)
    ensures
        0 <= number_len(s) <= s.len(),
        number_len(s) > 0 ==> is_number(s.take(number_len(s))),
{
    let sign = sign_len(s);
    let v = s.skip(sign);
    lemma_fixed_is(v);
    let fixed = fixed_len(v);
    let w = s.skip(sign + fixed);
    lemma_power_is(w);
    if fixed > 0 {
        let t = s.take(number_len(s));
        let u = t.skip(sign_len(t));
        assert(t[0] == s[0]);
        assert(u.take(fixed) =~= v.take(fixed));
        assert(u.skip(fixed) =~= w.take(power_len(w)));
        assert(is_fixed(u.take(fixed)));
    }
}

proof fn lemma_number_most(s: Seq<char>, n: int)
    requires
        0 <= n <= s.len(),
        is_number(s.take(n)),
    ensures
        n <= number_len(s),
{
    let sign = sign_len(s);
    let v = s.skip(sign);
    let t = s.take(n);
    let u = t.skip(sign_len(t));
    let k = choose|k: int|
        0 <= k <= u.len() && #[trigger] is_fixed(u.take(k)) && (k == u.len() || is_power(
            u.skip(k),
        ));
    assert(u.take(k).len() > 0);
    assert(t[0] == s[0]);
    assert(u.take(k) =~= v.take(k));
    lemma_fixed_most(v, k);
    let w = s.skip(sign + fixed_len(v));
    lemma_power_is(w);
    if k < u.len() {
        let p = u.skip(k);
        assert(p[0] == v[k]);
        assert(p =~= w.take(p.len() as int));
        lemma_power_most(w, p.len() as int);
    }
}

/// What a version is taken to start with is a decimal number, and no longer start
/// of it is one.
pub proof fn law_leading_number_is_longest(s: Seq<char>, n: int)
    requires
        0 <= n <= s.len(),
    ensures
        0 <= number_len(s) <= s.len(),
        number_len(s) > 0 ==> is_number(s.take(number_len(s))),
        is_number(s.take(n)) ==> n <= number_len(s),
{
    lemma_number_is(s);
    if is_number(s.take(n)) {
        lemma_number_most(s, n);
    }
}

/// The calibration of an M1K.
pub open spec fn m1k_calibration(eeprom: ReplyView) -> CalView {
    if eeprom.status >= 100 && eeprom.data.len() >= 100 {
        CalView::loaded(eeprom.data)
    } else {
        CalView::blank()
    }
}

/// The front end of a channel at first.
pub open spec fn first_frontend() -> Frontend {
    Frontend {
        r50_2v5: false,
        r50_gnd: false,
        feedback: true,
        output_en: false,
        split: false,
        pot_r1: 0,
        pot_r2: 0,
    }
}

/// Makes an M1K, and says how it is to be configured. `interleaved` says that the
/// version of its firmware is at least two.
pub fn create(report: &Report, interleaved: bool) -> (r: (StreamingDevice, ConfigRequest))
    ensures
        r.0@ == bare_device(
            "com.analogdevices.m1k"@,
            report.hw_version@,
            report.fw_version@,
            report.serial@,
            Double { bits: M1K_TIME_BITS },
            Double { bits: M1K_TIME_BITS },
            200,
            BackendView::M1k(
                M1kView {
                    cal: m1k_calibration(report.eeprom@),
                    m_mode: seq![HI_Z, HI_Z],
                    m1k_per: 0,
                    led_state: 0,
                    fw_interleaved: interleaved,
                    frontend: seq![first_frontend(), first_frontend()],
                    packets_per_transfer: 1,
                    lead_baseline: None,
                    lead_min: i64::MAX,
                    lead_count: 0,
                    lead_settle: 16,
                },
            ),
        ),
        r.0.wf(),
        r.1 == first_configuration(Double { bits: M1K_TIME_BITS }, 1200000),
{
    let mut cal = M1kCal::default();
    if report.eeprom.status >= 100 {
        if let Some(c) = M1kCal::from_bytes(report.eeprom.data.as_slice()) {
            cal = c;
        }
    }
    let fe = Frontend {
        r50_2v5: false,
        r50_gnd: false,
        feedback: true,
        output_en: false,
        split: false,
        pot_r1: 0,
        pot_r2: 0,
    };
    let b = M1kBackend {
        cal,
        m_mode: [HI_Z, HI_Z],
        m1k_per: 0,
        led_state: 0,
        fw_interleaved: interleaved,
        frontend: [fe, fe],
        packets_per_transfer: 1,
        lead_baseline: None,
        lead_min: i64::MAX,
        lead_count: 0,
        lead_settle: 16,
    };
    assert(b@.m_mode =~= seq![HI_Z, HI_Z]);
    assert(b@.frontend =~= seq![first_frontend(), first_frontend()]);
    let dev = make_bare(
        "com.analogdevices.m1k",
        report.hw_version.as_str(),
        report.fw_version.as_str(),
        report.serial.as_str(),
        Double { bits: M1K_TIME_BITS },
        Double { bits: M1K_TIME_BITS },
        200,
        Backend::M1k(b),
    );
    let request = ConfigRequest {
        mode: 0,
        sample_time: Double { bits: M1K_TIME_BITS },
        samples: 1200000,
        continuous: true,
        raw: false,
    };
    (dev, request)
}

} // verus!
