//! The CEE: two channels of 12-bit samples in small packets.

use crate::command::{
    answer_members, answer_to, done_or_asking, request_views, returned, Answer, AskView, Outcome,
    OutcomeView,
};
use crate::config::ConfigRequest;
use crate::effect::{
    effects, hand_over, send_one, tell, to_one, told, written, ControlReply, ControlRequest,
    ControlView, Effect, EffectView, ReplyView,
};
use crate::float::Double;
use crate::jsonutil::{
    int_at, json_int_prop, json_int_prop_def, members, put_number, Error, Json, JsonTree, Number,
};
use crate::source::int_needed;
use crate::state::natural;
use crate::streaming::{Backend, BackendView, StreamingDevice};
use crate::text::{at_least, joined, not_before, same};
use crate::usb::discovery::{bare_device, first_configuration, make_bare, Report};
use crate::usb::{ask_one, signed};
use crate::wire::{
    from_le16, from_le32, le16, le32, lemma_le16_back, lemma_le32_back, push_le16, push_le32,
    read_le16, read_le32,
};
use vstd::prelude::*;
use vstd::string::*;

verus! {

/// The first word of a calibration record that was written.
pub const EEPROM_VALID_MAGIC: u32 = 0x90e2_6cee;

/// The calibration record.
#[derive(Clone, Copy, Debug, PartialEq, Eq, Structural)]
pub struct CeeCal {
    pub magic: u32,
    pub offset_a_v: i8,
    pub offset_a_i: i8,
    pub offset_b_v: i8,
    pub offset_b_i: i8,
    pub dac200_a: i16,
    pub dac200_b: i16,
    pub dac400_a: i16,
    pub dac400_b: i16,
    pub current_gain_a: u32,
    pub current_gain_b: u32,
    pub flags: u8,
}

impl CeeCal {
    /// The record as the device stores it.
    pub open spec fn stored(self) -> Seq<u8> {
        le32(self.magic) + seq![
            self.offset_a_v as u8,
            self.offset_a_i as u8,
            self.offset_b_v as u8,
            self.offset_b_i as u8,
        ] + le16(self.dac200_a as u16) + le16(self.dac200_b as u16) + le16(self.dac400_a as u16)
            + le16(self.dac400_b as u16) + le32(self.current_gain_a) + le32(self.current_gain_b)
            + seq![self.flags]
    }

    /// The record that the bytes `d` hold.
    pub open spec fn loaded(d: Seq<u8>) -> CeeCal {
        CeeCal {
            magic: from_le32(d, 0),
            offset_a_v: d[4] as i8,
            offset_a_i: d[5] as i8,
            offset_b_v: d[6] as i8,
            offset_b_i: d[7] as i8,
            dac200_a: from_le16(d, 8) as i16,
            dac200_b: from_le16(d, 10) as i16,
            dac400_a: from_le16(d, 12) as i16,
            dac400_b: from_le16(d, 14) as i16,
            current_gain_a: from_le32(d, 16),
            current_gain_b: from_le32(d, 20),
            flags: d[24],
        }
    }

    /// The record of a device that was never calibrated.
    pub open spec fn blank() -> CeeCal {
        CeeCal {
            magic: 0xffff_ffff,
            offset_a_v: 0,
            offset_a_i: 0,
            offset_b_v: 0,
            offset_b_i: 0,
            dac200_a: 0x6b7,
            dac200_b: 0x6b7,
            dac400_a: 0x6b7,
            dac400_b: 0x6b7,
            current_gain_a: 0xffff_ffff,
            current_gain_b: 0xffff_ffff,
            flags: 0xff,
        }
    }

    pub fn defaults() -> (r: CeeCal)
        ensures
            r == CeeCal::blank(),
    {
        CeeCal {
            magic: 0xffff_ffff,
            offset_a_v: 0,
            offset_a_i: 0,
            offset_b_v: 0,
            offset_b_i: 0,
            dac200_a: 0x6b7,
            dac200_b: 0x6b7,
            dac400_a: 0x6b7,
            dac400_b: 0x6b7,
            current_gain_a: 0xffff_ffff,
            current_gain_b: 0xffff_ffff,
            flags: 0xff,
        }
    }

    pub fn from_bytes(d: &[u8]) -> (r: Option<CeeCal>)
        ensures
            r == (if d@.len() < 25 {
                None
            } else {
                Some(CeeCal::loaded(d@))
            }),
    {
        if d.len() < 25 {
            return None;
        }
        Some(
            CeeCal {
                magic: read_le32(d, 0),
                offset_a_v: #[verifier::truncate]
                (d[4] as i8),
                offset_a_i: #[verifier::truncate]
                (d[5] as i8),
                offset_b_v: #[verifier::truncate]
                (d[6] as i8),
                offset_b_i: #[verifier::truncate]
                (d[7] as i8),
                dac200_a: #[verifier::truncate]
                (read_le16(d, 8) as i16),
                dac200_b: #[verifier::truncate]
                (read_le16(d, 10) as i16),
                dac400_a: #[verifier::truncate]
                (read_le16(d, 12) as i16),
                dac400_b: #[verifier::truncate]
                (read_le16(d, 14) as i16),
                current_gain_a: read_le32(d, 16),
                current_gain_b: read_le32(d, 20),
                flags: d[24],
            },
        )
    }

    pub fn to_bytes(&self) -> (b: Vec<u8>)
        ensures
            b@ == self.stored(),
            b.len() == 25,
    {
        let mut b: Vec<u8> = Vec::new();
        push_le32(&mut b, self.magic);
        b.push(#[verifier::truncate] (self.offset_a_v as u8));
        b.push(#[verifier::truncate] (self.offset_a_i as u8));
        b.push(#[verifier::truncate] (self.offset_b_v as u8));
        b.push(#[verifier::truncate] (self.offset_b_i as u8));
        push_le16(&mut b, #[verifier::truncate] (self.dac200_a as u16));
        push_le16(&mut b, #[verifier::truncate] (self.dac200_b as u16));
        push_le16(&mut b, #[verifier::truncate] (self.dac400_a as u16));
        push_le16(&mut b, #[verifier::truncate] (self.dac400_b as u16));
        push_le32(&mut b, self.current_gain_a);
        push_le32(&mut b, self.current_gain_b);
        b.push(self.flags);
        assert(b@ =~= self.stored());
        b
    }
}

/// A calibration record that was stored is read back unchanged.
pub proof fn law_calibration_reads_back(cal: CeeCal)
    ensures
        cal.stored().len() == 25,
        CeeCal::loaded(cal.stored()) == cal,
{
    let d = cal.stored();
    lemma_signs(cal.offset_a_v, cal.dac200_a);
    lemma_signs(cal.offset_a_i, cal.dac200_b);
    lemma_signs(cal.offset_b_v, cal.dac400_a);
    lemma_signs(cal.offset_b_i, cal.dac400_b);
    assert(d.subrange(0, 4) =~= le32(cal.magic));
    lemma_le32_back(d, 0, cal.magic);
    assert(d.subrange(8, 10) =~= le16(cal.dac200_a as u16));
    lemma_le16_back(d, 8, cal.dac200_a as u16);
    assert(d.subrange(10, 12) =~= le16(cal.dac200_b as u16));
    lemma_le16_back(d, 10, cal.dac200_b as u16);
    assert(d.subrange(12, 14) =~= le16(cal.dac400_a as u16));
    lemma_le16_back(d, 12, cal.dac400_a as u16);
    assert(d.subrange(14, 16) =~= le16(cal.dac400_b as u16));
    lemma_le16_back(d, 14, cal.dac400_b as u16);
    assert(d.subrange(16, 20) =~= le32(cal.current_gain_a));
    lemma_le32_back(d, 16, cal.current_gain_a);
    assert(d.subrange(20, 24) =~= le32(cal.current_gain_b));
    lemma_le32_back(d, 20, cal.current_gain_b);
}

proof fn lemma_signs(a: i8, b: i16)
    ensures
        (a as u8) as i8 == a,
        (b as u16) as i16 == b,
{
    assert((a as u8) as i8 == a) by (bit_vector);
    assert((b as u16) as i16 == b) by (bit_vector);
}

#[derive(Clone, Copy, Debug, PartialEq, Eq, Structural)]
pub struct CeeBackend {
    pub cal: CeeCal,
    /// Least number of timer ticks per sample.
    pub min_per: u32,
    /// Timer ticks per sample.
    pub xmega_per: u32,
    pub packets_per_transfer: usize,
    /// Whether no packet has come since the start of the transfers.
    pub first_packet: bool,
}

/// `v` read as a number of 12 bits with sign.
pub open spec fn signed12(v: int) -> i16 {
    if v > 0x7ff {
        (v - 4096) as i16
    } else {
        v as i16
    }
}

pub fn signextend12(v: u16) -> (r: i16)
    ensures
        r == signed12(v as int),
{
    if v > 0x7ff {
        #[verifier::truncate]
        ((v as i32 - 4096) as i16)
    } else {
        v as i16
    }
}

/// The four readings of an input sample: voltage and current of either
/// channel, each with its low byte in a byte of its own and its high bits in
/// half a byte.
pub open spec fn unpacked(d: Seq<u8>) -> (i16, i16, i16, i16) {
    (
        signed12((d[2] % 16) * 256 + d[0]),
        signed12((d[2] / 16) * 256 + d[1]),
        signed12((d[5] % 16) * 256 + d[3]),
        signed12((d[5] / 16) * 256 + d[4]),
    )
}

/// Unpacks an input sample into (av, ai, bv, bi).
pub fn unpack_in_sample(d: &[u8]) -> (r: (i16, i16, i16, i16))
    requires
        d.len() >= 6,
    ensures
        r == unpacked(d@),
{
    (
        signextend12((d[2] % 16) as u16 * 256 + d[0] as u16),
        signextend12((d[2] / 16) as u16 * 256 + d[1] as u16),
        signextend12((d[5] % 16) as u16 * 256 + d[3] as u16),
        signextend12((d[5] / 16) as u16 * 256 + d[4] as u16),
    )
}

/// Two values of 12 bits in three bytes: the low bytes, then the high bits of
/// the second above those of the first.
pub open spec fn packed(a: u16, b: u16) -> Seq<u8> {
    seq![(a % 256) as u8, (b % 256) as u8, (((b >> 4) & 0xf0) | (a >> 8)) as u8]
}

/// The high bits of two values of 12 bits stand side by side.
proof fn lemma_halves(a: u16, b: u16)
    requires
        a < 4096,
        b < 4096,
    ensures
        (((b >> 4) & 0xf0) | (a >> 8)) as u8 == (b / 256) * 16 + a / 256,
{
    assert((((b >> 4) & 0xf0) | (a >> 8)) as u8 == (b / 256) * 16 + a / 256) by (bit_vector)
        requires
            a < 4096,
            b < 4096,
    ;
}

/// Packs two values into an output sample.
pub fn pack_out_sample(a: u16, b: u16) -> (r: [u8; 3])
    ensures
        r@ == packed(a, b),
{
    let r = [
        (a % 256) as u8,
        (b % 256) as u8,
        #[verifier::truncate]
        ((((b >> 4) & 0xf0) | (a >> 8)) as u8),
    ];
    assert(r@ =~= packed(a, b));
    r
}

/// `v` as a number of 12 bits without sign.
pub open spec fn coded12(v: i16) -> u16 {
    if v < 0 {
        (v + 4096) as u16
    } else {
        v as u16
    }
}

proof fn lemma_pair_back(a: i16, b: i16)
    requires
        -2048 <= a < 2048,
        -2048 <= b < 2048,
    ensures
        ({
            let p = packed(coded12(a), coded12(b));
            &&& signed12((p[2] % 16) * 256 + p[0]) == a
            &&& signed12((p[2] / 16) * 256 + p[1]) == b
        }),
{
    let x = coded12(a);
    let y = coded12(b);
    let p = packed(x, y);
    lemma_halves(x, y);
    assert(p[2] % 16 == x / 256);
    assert(p[2] / 16 == y / 256);
}

/// Readings of 12 bits that are packed two and two, as output samples are, are
/// unpacked again as they were.
pub proof fn law_unpacking_undoes_packing(av: i16, ai: i16, bv: i16, bi: i16)
    requires
        -2048 <= av < 2048,
        -2048 <= ai < 2048,
        -2048 <= bv < 2048,
        -2048 <= bi < 2048,
    ensures
        unpacked(packed(coded12(av), coded12(ai)) + packed(coded12(bv), coded12(bi))) == (
            av,
            ai,
            bv,
            bi,
        ),
{
    lemma_pair_back(av, ai);
    lemma_pair_back(bv, bi);
}

// ---- commands ----

/// The calibration that a document asks to write, or what is wrong.
pub open spec fn calibration_from(n: JsonTree) -> Result<CeeCal, Seq<char>> {
    match (
        int_needed(n, "offset_a_v"@),
        int_needed(n, "offset_a_i"@),
        int_needed(n, "offset_b_v"@),
        int_needed(n, "offset_b_i"@),
        int_needed(n, "dac200_a"@),
        int_needed(n, "dac200_b"@),
        int_needed(n, "dac400_a"@),
        int_needed(n, "dac400_b"@),
    ) {
        (Err(m), _, _, _, _, _, _, _) => Err(m),
        (_, Err(m), _, _, _, _, _, _) => Err(m),
        (_, _, Err(m), _, _, _, _, _) => Err(m),
        (_, _, _, Err(m), _, _, _, _) => Err(m),
        (_, _, _, _, Err(m), _, _, _) => Err(m),
        (_, _, _, _, _, Err(m), _, _) => Err(m),
        (_, _, _, _, _, _, Err(m), _) => Err(m),
        (_, _, _, _, _, _, _, Err(m)) => Err(m),
        (Ok(av), Ok(ai), Ok(bv), Ok(bi), Ok(d2a), Ok(d2b), Ok(d4a), Ok(d4b)) => Ok(
            CeeCal {
                magic: EEPROM_VALID_MAGIC,
                offset_a_v: av as i8,
                offset_a_i: ai as i8,
                offset_b_v: bv as i8,
                offset_b_i: bi as i8,
                dac200_a: d2a as i16,
                dac200_b: d2b as i16,
                dac400_a: d4a as i16,
                dac400_b: d4b as i16,
                current_gain_a: int_at(n, "current_gain_a"@).unwrap_or((-1) as i64) as u32,
                current_gain_b: int_at(n, "current_gain_b"@).unwrap_or((-1) as i64) as u32,
                flags: int_at(n, "flags"@).unwrap_or(0xff) as u8,
            },
        ),
    }
}

/// The calibration with other offsets.
pub open spec fn offsets_from(cal: CeeCal, n: JsonTree) -> CeeCal {
    CeeCal {
        offset_a_v: int_at(n, "offset_a_v"@).unwrap_or(0) as i8,
        offset_a_i: int_at(n, "offset_a_i"@).unwrap_or(0) as i8,
        offset_b_v: int_at(n, "offset_b_v"@).unwrap_or(0) as i8,
        offset_b_i: int_at(n, "offset_b_i"@).unwrap_or(0) as i8,
        ..cal
    }
}

/// The members that tell the calibration.
pub open spec fn calibration_members(cal: CeeCal) -> Seq<(Seq<char>, JsonTree)> {
    seq![
        signed("offset_a_v"@, cal.offset_a_v as i64),
        signed("offset_a_i"@, cal.offset_a_i as i64),
        signed("offset_b_v"@, cal.offset_b_v as i64),
        signed("offset_b_i"@, cal.offset_b_i as i64),
        signed("dac200_a"@, cal.dac200_a as i64),
        signed("dac200_b"@, cal.dac200_b as i64),
        signed("dac400_a"@, cal.dac400_a as i64),
        signed("dac400_b"@, cal.dac400_b as i64),
        natural("current_gain_a"@, cal.current_gain_a as u64),
        natural("current_gain_b"@, cal.current_gain_b as u64),
        natural("flags"@, cal.flags as u64),
    ]
}

/// What the commands of a CEE lead to: the calibration, effects, and an outcome
/// or what is wrong.
#[verifier::opaque]
pub open spec fn cee_command(cal: CeeCal, client: u64, cmd: Seq<char>, n: JsonTree) -> (
    CeeCal,
    Seq<EffectView>,
    Result<OutcomeView, Seq<char>>,
) {
    let id = int_at(n, "id"@).unwrap_or(0);
    if cmd == "writeCalibration"@ {
        match calibration_from(n) {
            Err(m) => (cal, seq![], Err(m)),
            Ok(c) => (
                c,
                seq![],
                Ok(
                    OutcomeView::Ask(
                        AskView {
                            client,
                            id,
                            answer: Answer::Status,
                            requests: seq![written(0xE1, c.stored())],
                            bulk: None,
                        },
                    ),
                ),
            ),
        }
    } else if cmd == "readCalibration"@ {
        (
            cal,
            seq![to_one(client, returned(id, calibration_members(cal)))],
            Ok(OutcomeView::Handled),
        )
    } else if cmd == "tempCalibration"@ {
        (offsets_from(cal, n), seq![], Ok(OutcomeView::Handled))
    } else {
        (cal, seq![], Ok(OutcomeView::Unknown))
    }
}

fn read_calibration(n: &Json) -> (r: Result<CeeCal, Error>)
    ensures
        match r {
            Ok(c) => calibration_from(n@) == Ok::<CeeCal, Seq<char>>(c),
            Err(e) => calibration_from(n@) == Err::<CeeCal, Seq<char>>(e@),
        },
{
    let av = match json_int_prop(n, "offset_a_v") {
        Ok(i) => i,
        Err(e) => return Err(e),
    };
    let ai = match json_int_prop(n, "offset_a_i") {
        Ok(i) => i,
        Err(e) => return Err(e),
    };
    let bv = match json_int_prop(n, "offset_b_v") {
        Ok(i) => i,
        Err(e) => return Err(e),
    };
    let bi = match json_int_prop(n, "offset_b_i") {
        Ok(i) => i,
        Err(e) => return Err(e),
    };
    let d2a = match json_int_prop(n, "dac200_a") {
        Ok(i) => i,
        Err(e) => return Err(e),
    };
    let d2b = match json_int_prop(n, "dac200_b") {
        Ok(i) => i,
        Err(e) => return Err(e),
    };
    let d4a = match json_int_prop(n, "dac400_a") {
        Ok(i) => i,
        Err(e) => return Err(e),
    };
    let d4b = match json_int_prop(n, "dac400_b") {
        Ok(i) => i,
        Err(e) => return Err(e),
    };
    Ok(
        CeeCal {
            magic: EEPROM_VALID_MAGIC,
            offset_a_v: #[verifier::truncate]
            (av as i8),
            offset_a_i: #[verifier::truncate]
            (ai as i8),
            offset_b_v: #[verifier::truncate]
            (bv as i8),
            offset_b_i: #[verifier::truncate]
            (bi as i8),
            dac200_a: #[verifier::truncate]
            (d2a as i16),
            dac200_b: #[verifier::truncate]
            (d2b as i16),
            dac400_a: #[verifier::truncate]
            (d4a as i16),
            dac400_b: #[verifier::truncate]
            (d4b as i16),
            current_gain_a: #[verifier::truncate]
            (json_int_prop_def(n, "current_gain_a", -1) as u32),
            current_gain_b: #[verifier::truncate]
            (json_int_prop_def(n, "current_gain_b", -1) as u32),
            flags: #[verifier::truncate]
            (json_int_prop_def(n, "flags", 0xff) as u8),
        },
    )
}

fn calibration_answer(cal: &CeeCal, id: i64) -> (r: Json)
    ensures
        r@ == returned(id, calibration_members(*cal)),
{
    let mut n = answer_to(id);
    put_number(&mut n, "offset_a_v", Number::Signed(cal.offset_a_v as i64));
    put_number(&mut n, "offset_a_i", Number::Signed(cal.offset_a_i as i64));
    put_number(&mut n, "offset_b_v", Number::Signed(cal.offset_b_v as i64));
    put_number(&mut n, "offset_b_i", Number::Signed(cal.offset_b_i as i64));
    put_number(&mut n, "dac200_a", Number::Signed(cal.dac200_a as i64));
    put_number(&mut n, "dac200_b", Number::Signed(cal.dac200_b as i64));
    put_number(&mut n, "dac400_a", Number::Signed(cal.dac400_a as i64));
    put_number(&mut n, "dac400_b", Number::Signed(cal.dac400_b as i64));
    put_number(&mut n, "current_gain_a", Number::Unsigned(cal.current_gain_a as u64));
    put_number(&mut n, "current_gain_b", Number::Unsigned(cal.current_gain_b as u64));
    put_number(&mut n, "flags", Number::Unsigned(cal.flags as u64));
    assert(members(n@) =~= answer_members(id, calibration_members(*cal)));
    Json::Object(n)
}

impl CeeBackend {
    /// Handles the commands that only a CEE knows.
    pub fn process_message(
        &mut self,
        out: &mut Vec<Effect>,
        client: u64,
        cmd: &str,
        n: &Json,
    ) -> (r: Result<Outcome, Error>)
        ensures
            ({
                let (cal, todo, result) = cee_command(old(self).cal, client, cmd@, n@);
                &&& *final(self) == (CeeBackend { cal, ..*old(self) })
                &&& effects(final(out)@) == effects(old(out)@) + todo
                &&& match r {
                    Ok(o) => result == Ok::<OutcomeView, Seq<char>>(o@),
                    Err(e) => result == Err::<OutcomeView, Seq<char>>(e@),
                }
            }),
            done_or_asking(r),
    {
        proof {
            reveal(cee_command);
        }
        let id = json_int_prop_def(n, "id", 0);
        assert(effects(out@) =~= effects(out@) + seq![]);
        if same(cmd, "writeCalibration") {
            match read_calibration(n) {
                Err(e) => Err(e),
                Ok(cal) => {
                    self.cal = cal;
                    Ok(
                        Outcome::Ask(
                            ask_one(client, id, Answer::Status, hand_over(0xE1, cal.to_bytes())),
                        ),
                    )
                },
            }
        } else if same(cmd, "readCalibration") {
            send_one(out, client, calibration_answer(&self.cal, id));
            assert(effects(out@) =~= effects(old(out)@) + seq![
                to_one(client, returned(id, calibration_members(self.cal))),
            ]);
            Ok(Outcome::Handled)
        } else if same(cmd, "tempCalibration") {
            self.cal.offset_a_v = #[verifier::truncate]
            (json_int_prop_def(n, "offset_a_v", 0) as i8);
            self.cal.offset_a_i = #[verifier::truncate]
            (json_int_prop_def(n, "offset_a_i", 0) as i8);
            self.cal.offset_b_v = #[verifier::truncate]
            (json_int_prop_def(n, "offset_b_v", 0) as i8);
            self.cal.offset_b_i = #[verifier::truncate]
            (json_int_prop_def(n, "offset_b_i", 0) as i8);
            Ok(Outcome::Handled)
        } else {
            Ok(Outcome::Unknown)
        }
    }
}

// ---- making a CEE ----

/// 1/10000 in binary64: the time of a sample that a CEE starts with.
pub const CEE_TIME_BITS: u64 = 0x3f1a_36e2_eb1c_432d;

/// The current gain of a CEE that was never calibrated.
pub const DEFAULT_CURRENT_GAIN: u32 = 315000;

/// Whether the firmware of a CEE can be asked about its timer.
pub fn wants_timer_info(fw_version: &str) -> (r: bool)
    ensures
        r == not_before(fw_version@, "1.2"@),
{
    at_least(fw_version, "1.2")
}

/// The least number of timer ticks per sample of a CEE.
pub open spec fn least_period(info: ReplyView) -> u32 {
    if info.status >= 5 && info.data.len() >= 5 {
        info.data[4] as u32
    } else {
        100
    }
}

pub fn min_period(info: &ControlReply) -> (r: u32)
    ensures
        r == least_period(info@),
{
    if info.status >= 5 && info.data.len() >= 5 {
        info.data[4] as u32
    } else {
        100
    }
}

/// The requests that bring a CEE into a known state: no sampling, and the
/// normal gains.
pub open spec fn cee_reset() -> Seq<ControlView> {
    seq![
        told(0x80, 0, 0),
        told(0x65, 4, 0),
        told(0x65, 0, 1),
        told(0x65, 0, 2),
        told(0x65, 4, 3),
    ]
}

pub fn cee_reset_requests() -> (r: Vec<ControlRequest>)
    ensures
        request_views(r@) == cee_reset(),
{
    let mut v: Vec<ControlRequest> = Vec::new();
    v.push(tell(0x80, 0, 0));
    v.push(tell(0x65, 4, 0));
    v.push(tell(0x65, 0, 1));
    v.push(tell(0x65, 0, 2));
    v.push(tell(0x65, 4, 3));
    assert(request_views(v@) =~= cee_reset());
    v
}

/// The calibration of a CEE: the stored one if it was ever written, with the
/// default gain in place of a missing one.
pub open spec fn cee_calibration(eeprom: ReplyView) -> CeeCal {
    let stored = eeprom.status > 0 && eeprom.data.len() >= 25 && CeeCal::loaded(eeprom.data).magic
        == EEPROM_VALID_MAGIC;
    let cal = if stored {
        CeeCal::loaded(eeprom.data)
    } else {
        CeeCal::blank()
    };
    CeeCal {
        current_gain_a: if cal.current_gain_a == u32::MAX {
            DEFAULT_CURRENT_GAIN
        } else {
            cal.current_gain_a
        },
        current_gain_b: if cal.current_gain_b == u32::MAX {
            DEFAULT_CURRENT_GAIN
        } else {
            cal.current_gain_b
        },
        ..cal
    }
}

/// The current limit that a CEE starts with: a low one where it has nothing but
/// the bus for power.
pub open spec fn first_limit(cal: CeeCal) -> u32 {
    if cal.flags % 2 == 1 {
        200
    } else {
        2000
    }
}

fn read_cee_calibration(eeprom: &ControlReply) -> (r: CeeCal)
    ensures
        r == cee_calibration(eeprom@),
{
    let mut cal = CeeCal::defaults();
    if eeprom.status > 0 {
        if let Some(c) = CeeCal::from_bytes(eeprom.data.as_slice()) {
            if c.magic == EEPROM_VALID_MAGIC {
                cal = c;
            }
        }
    }
    if cal.current_gain_a == u32::MAX {
        cal.current_gain_a = DEFAULT_CURRENT_GAIN;
    }
    if cal.current_gain_b == u32::MAX {
        cal.current_gain_b = DEFAULT_CURRENT_GAIN;
    }
    cal
}

/// The version of the firmware, and what it was built from where it says so.
pub open spec fn full_version(fw: Seq<char>, git: Seq<char>) -> Seq<char> {
    if git.len() == 0 {
        fw
    } else {
        fw + "/"@ + git
    }
}

/// Makes a CEE, and says how it is to be configured. `min_sample_time` is the
/// time of `min_period` timer ticks.
pub fn create(report: &Report, min_sample_time: Double) -> (r: (
    StreamingDevice,
    ConfigRequest,
))
    ensures
        ({
            let cal = cee_calibration(report.eeprom@);
            r.0@ == bare_device(
                "com.nonolithlabs.cee"@,
                report.hw_version@,
                full_version(report.fw_version@, report.git_version@),
                report.serial@,
                Double { bits: CEE_TIME_BITS },
                min_sample_time,
                0,
                BackendView::Cee(
                    CeeBackend {
                        cal,
                        min_per: least_period(report.info@),
                        xmega_per: 0,
                        packets_per_transfer: 1,
                        first_packet: true,
                    },
                ),
            ).limited(first_limit(cal))
        }),
        r.0.wf(),
        r.1 == first_configuration(Double { bits: CEE_TIME_BITS }, 120000),
{
    let cal = read_cee_calibration(&report.eeprom);
    let backend = Backend::Cee(
        CeeBackend {
            cal,
            min_per: min_period(&report.info),
            xmega_per: 0,
            packets_per_transfer: 1,
            first_packet: true,
        },
    );
    let version = if report.git_version.as_str().is_empty() {
        report.fw_version.clone()
    } else {
        joined(
            joined(report.fw_version.as_str(), "/").as_str(),
            report.git_version.as_str(),
        )
    };
    let mut dev = make_bare(
        "com.nonolithlabs.cee",
        report.hw_version.as_str(),
        version.as_str(),
        report.serial.as_str(),
        Double { bits: CEE_TIME_BITS },
        min_sample_time,
        0,
        backend,
    );
    dev.set_current_limit(
        if cal.flags % 2 == 1 {
            200
        } else {
            2000
        },
    );
    let request = ConfigRequest {
        mode: 0,
        sample_time: Double { bits: CEE_TIME_BITS },
        samples: 120000,
        continuous: true,
        raw: false,
    };
    (dev, request)
}

} // verus!
