//! The bulk transfers: taking input apart and putting output together.

use crate::capture::{action_json, lemma_wf_frame};
use crate::effect::{
    ask, asked, enqueue, tell, ControlReply, ControlRequest, Effect, ReplyView,
};
use crate::float::Single;
use crate::source::{evaluates, KindView, Level, SourceView};
use crate::state::action;
use crate::streaming::{
    channel_wf, has_stream, Backend, BackendView, ChannelView, DeviceView, StreamingDevice,
    COUNT_LIMIT,
};
use crate::usb::cee::{
    pack_out_sample, packed, unpack_in_sample, unpacked, CeeBackend, CeeCal,
};
use crate::usb::m1k::{mode_requests, sends, M1kBackend, M1kView};
use crate::wire::{from_be16, read_be16};
use vstd::prelude::*;
use vstd::string::*;

verus! {

// ---- input of a CEE ----

/// Bytes of an input packet of a CEE.
pub const CEE_IN_PACKET: usize = 64;

/// A sample of a CEE: the readings with their offsets, and whether the current
/// of either channel is measured.
#[derive(Clone, Copy, Debug, PartialEq, Eq, Structural)]
pub struct CeeSample {
    pub av: i32,
    pub ai: i32,
    pub bv: i32,
    pub bi: i32,
    pub a_on: bool,
    pub b_on: bool,
}

/// The `i`-th sample of the packet that starts at `base`. The first two bytes of
/// a packet tell the modes of the channels.
pub open spec fn cee_sample(cal: CeeCal, b: Seq<u8>, base: int, i: int) -> CeeSample {
    let (av, ai, bv, bi) = unpacked(b.subrange(base + 4 + 6 * i, base + 10 + 6 * i));
    CeeSample {
        av: (cal.offset_a_v + av) as i32,
        ai: (cal.offset_a_i + ai) as i32,
        bv: (cal.offset_b_v + bv) as i32,
        bi: (cal.offset_b_i + bi) as i32,
        a_on: b[base] % 4 != 0,
        b_on: b[base + 1] % 4 != 0,
    }
}

/// How many packets of `size` bytes are looked at: those that are there, up to
/// `most`.
pub open spec fn packets_in(len: nat, size: int, most: usize) -> int {
    if len as int / size < most {
        len as int / size
    } else {
        most as int
    }
}

/// The samples of `n` packets.
pub open spec fn cee_samples(cal: CeeCal, b: Seq<u8>, n: int) -> Seq<CeeSample> {
    Seq::new((10 * n) as nat, |k: int| cee_sample(cal, b, 64 * (k / 10), k % 10))
}

/// Whether one of the first `n` packets tells that packets were lost before it,
/// and is not the very first.
pub open spec fn cee_lost(b: Seq<u8>, n: int, first: bool) -> bool {
    exists|p: int| 0 <= p < n && #[trigger] lost_before(b, p) && (p > 0 || !first)
}

pub open spec fn lost_before(b: Seq<u8>, p: int) -> bool {
    b[64 * p + 2] % 2 == 1
}

fn whole_packets(len: usize, size: usize, most: usize) -> (n: usize)
    requires
        size > 0,
    ensures
        n == packets_in(len as nat, size as int, most),
        n * size <= len,
{
    let whole: usize = len / size;
    assert(whole * size <= len) by (nonlinear_arith)
        requires
            whole == len / size,
            size > 0,
    ;
    if whole < most {
        whole
    } else {
        assert(most * size <= whole * size) by (nonlinear_arith)
            requires
                most <= whole,
        ;
        most
    }
}

impl CeeBackend {
    /// Takes an input transfer apart: its samples, and whether packets were
    /// lost.
    pub fn read_transfer(&mut self, buffer: &[u8]) -> (r: (Vec<CeeSample>, bool))
        ensures
            ({
                let n = packets_in(buffer@.len(), 64, old(self).packets_per_transfer);
                &&& r.0@ == cee_samples(old(self).cal, buffer@, n)
                &&& r.1 == cee_lost(buffer@, n, old(self).first_packet)
                &&& *final(self) == (CeeBackend {
                    first_packet: old(self).first_packet && n == 0,
                    ..*old(self)
                })
            }),
    {
        let cal = self.cal;
        let n = whole_packets(buffer.len(), CEE_IN_PACKET, self.packets_per_transfer);
        let first = self.first_packet;
        let mut samples: Vec<CeeSample> = Vec::new();
        let mut lost = false;
        let mut p: usize = 0;
        assert(samples@ =~= cee_samples(cal, buffer@, 0));
        while p < n
            invariant
                p <= n,
                n * 64 <= buffer.len(),
                samples@ == cee_samples(cal, buffer@, p as int),
                lost == cee_lost(buffer@, p as int, first),
            decreases n - p,
        {
            let base: usize = p * 64;
            let ghost before = cee_lost(buffer@, p as int, first);
            if buffer[base + 2] % 2 == 1 && (p > 0 || !first) {
                lost = true;
                assert(lost_before(buffer@, p as int));
            }
            assert(cee_lost(buffer@, p + 1, first) == (before || (lost_before(buffer@, p as int)
                && (p > 0 || !first))));
            let a_on = buffer[base] % 4 != 0;
            let b_on = buffer[base + 1] % 4 != 0;
            let mut i: usize = 0;
            while i < 10
                invariant
                    i <= 10,
                    p < n,
                    n * 64 <= buffer.len(),
                    base == p * 64,
                    a_on == (buffer@[base as int] % 4 != 0),
                    b_on == (buffer@[base + 1] % 4 != 0),
                    samples@ == cee_samples(cal, buffer@, p + 1).take(10 * p + i),
                decreases 10 - i,
            {
                let ghost at = base + 4 + 6 * i;
                let d = vstd::slice::slice_subrange(buffer, base + 4 + 6 * i, base + 10 + 6 * i);
                let (av, ai, bv, bi) = unpack_in_sample(d);
                let s = CeeSample {
                    av: cal.offset_a_v as i32 + av as i32,
                    ai: cal.offset_a_i as i32 + ai as i32,
                    bv: cal.offset_b_v as i32 + bv as i32,
                    bi: cal.offset_b_i as i32 + bi as i32,
                    a_on,
                    b_on,
                };
                let ghost k = 10 * p + i;
                assert(k / 10 == p && k % 10 == i);
                assert(s == cee_samples(cal, buffer@, p + 1)[k]);
                samples.push(s);
                i += 1;
                assert(samples@ =~= cee_samples(cal, buffer@, p + 1).take(10 * p + i));
            }
            assert(cee_samples(cal, buffer@, p + 1).take(10 * p + 10) =~= cee_samples(
                cal,
                buffer@,
                p + 1,
            ));
            p += 1;
        }
        if n > 0 {
            self.first_packet = false;
        }
        (samples, lost)
    }
}

// ---- input of an M1K ----

/// The readings of a sample of an M1K.
#[derive(Clone, Copy, Debug, PartialEq, Eq, Structural)]
pub struct M1kSample {
    pub av: u16,
    pub ai: u16,
    pub bv: u16,
    pub bi: u16,
}

/// Where the reading number `r` of the `i`-th sample of a packet stands in it:
/// next to the others of the sample, or next to those of its kind.
pub open spec fn reading_place(interleaved: bool, i: int, r: int) -> int {
    if interleaved {
        8 * i + 2 * r
    } else {
        2 * (i + 256 * r)
    }
}

pub open spec fn m1k_sample(interleaved: bool, b: Seq<u8>, base: int, i: int) -> M1kSample {
    M1kSample {
        av: from_be16(b, base + reading_place(interleaved, i, 0)),
        ai: from_be16(b, base + reading_place(interleaved, i, 1)),
        bv: from_be16(b, base + reading_place(interleaved, i, 2)),
        bi: from_be16(b, base + reading_place(interleaved, i, 3)),
    }
}

/// The samples of `n` packets.
pub open spec fn m1k_samples(interleaved: bool, b: Seq<u8>, n: int) -> Seq<M1kSample> {
    Seq::new((256 * n) as nat, |k: int| m1k_sample(interleaved, b, 2048 * (k / 256), k % 256))
}

fn place_of_reading(interleaved: bool, i: usize, r: usize) -> (p: usize)
    requires
        i < 256,
        r < 4,
    ensures
        p == reading_place(interleaved, i as int, r as int),
        p + 2 <= 2048,
{
    if interleaved {
        8 * i + 2 * r
    } else {
        2 * (i + 256 * r)
    }
}

impl M1kBackend {
    /// Takes an input transfer apart.
    pub fn read_transfer(&self, buffer: &[u8]) -> (r: Vec<M1kSample>)
        ensures
            r@ == m1k_samples(
                self@.fw_interleaved,
                buffer@,
                packets_in(buffer@.len(), 2048, self@.packets_per_transfer),
            ),
    {
        let n = whole_packets(buffer.len(), 2048, self.packets_per_transfer);
        let inter = self.fw_interleaved;
        let mut samples: Vec<M1kSample> = Vec::new();
        let mut p: usize = 0;
        assert(samples@ =~= m1k_samples(inter, buffer@, 0));
        while p < n
            invariant
                p <= n,
                n * 2048 <= buffer.len(),
                samples@ == m1k_samples(inter, buffer@, p as int),
            decreases n - p,
        {
            let base: usize = p * 2048;
            let mut i: usize = 0;
            while i < 256
                invariant
                    i <= 256,
                    p < n,
                    n * 2048 <= buffer.len(),
                    base == p * 2048,
                    samples@ == m1k_samples(inter, buffer@, p + 1).take(256 * p + i),
                decreases 256 - i,
            {
                let s = M1kSample {
                    av: read_be16(buffer, base + place_of_reading(inter, i, 0)),
                    ai: read_be16(buffer, base + place_of_reading(inter, i, 1)),
                    bv: read_be16(buffer, base + place_of_reading(inter, i, 2)),
                    bi: read_be16(buffer, base + place_of_reading(inter, i, 3)),
                };
                let ghost k = 256 * p + i;
                assert(k / 256 == p && k % 256 == i);
                assert(s == m1k_samples(inter, buffer@, p + 1)[k]);
                samples.push(s);
                i += 1;
                assert(samples@ =~= m1k_samples(inter, buffer@, p + 1).take(256 * p + i));
            }
            assert(m1k_samples(inter, buffer@, p + 1).take(256 * p + 256) =~= m1k_samples(
                inter,
                buffer@,
                p + 1,
            ));
            p += 1;
        }
        samples
    }
}

// ---- storing input ----

/// The values of a sample: voltage and current of either channel.
#[derive(Clone, Copy, Debug, PartialEq, Eq, Structural)]
pub struct Values {
    pub av: Single,
    pub ai: Single,
    pub bv: Single,
    pub bi: Single,
}

/// Whether there are two channels with two streams each.
pub open spec fn two_by_two(c: Seq<ChannelView>) -> bool {
    has_stream(c, 0, 1) && has_stream(c, 1, 1)
}

impl DeviceView {
    /// One sample on.
    pub open spec fn with_values(self, v: Values) -> DeviceView {
        let d = self.with_sample(0, 0, v.av).with_sample(0, 1, v.ai).with_sample(
            1,
            0,
            v.bv,
        ).with_sample(1, 1, v.bi);
        DeviceView { capture_i: (d.capture_i + 1) as u64, ..d }
    }

    /// Some samples on.
    pub open spec fn with_all(self, v: Seq<Values>) -> DeviceView
        decreases v.len(),
    {
        if v.len() == 0 {
            self
        } else {
            self.with_all(v.drop_last()).with_values(v.last())
        }
    }

    /// Some samples on, and the clients told if packets were lost.
    pub open spec fn absorbed(self, v: Seq<Values>, lost: bool) -> DeviceView {
        let d = self.with_all(v);
        if lost {
            d.telling(action("packetDrop"@))
        } else {
            d
        }
    }
}

impl StreamingDevice {
    /// Stores the samples of an input transfer, and tells the clients if packets
    /// were lost.
    pub fn absorb(&mut self, v: &Vec<Values>, lost: bool)
        requires
            old(self).wf(),
            two_by_two(old(self)@.channels),
            old(self)@.capture_i + v.len() <= COUNT_LIMIT,
        ensures
            final(self)@ == old(self)@.absorbed(v@, lost),
            final(self).wf(),
            final(self)@.capture_i == old(self)@.capture_i + v.len(),
            two_by_two(final(self)@.channels),
    {
        let mut i: usize = 0;
        assert(v@.take(0) =~= Seq::empty());
        while i < v.len()
            invariant
                i <= v.len(),
                self.wf(),
                two_by_two(self@.channels),
                self@.capture_i == old(self)@.capture_i + i,
                old(self)@.capture_i + v.len() <= COUNT_LIMIT,
                self@ == old(self)@.with_all(v@.take(i as int)),
            decreases v.len() - i,
        {
            let x = v[i];
            self.put(0, 0, x.av);
            self.put(0, 1, x.ai);
            self.put(1, 0, x.bv);
            self.put(1, 1, x.bi);
            self.sample_done();
            assert(v@.take(i + 1).drop_last() =~= v@.take(i as int));
            i += 1;
        }
        assert(v@.take(i as int) =~= v@);
        if lost {
            self.broadcast_json(action_json("packetDrop"));
        }
    }
}

// ---- keeping output in step with input ----

impl DeviceView {
    /// How far output is ahead of input.
    pub open spec fn lead(self) -> i64 {
        (self.capture_o as i64).wrapping_sub(self.capture_i as i64)
    }

    /// After the lead of the output of an M1K was looked at. Of 64 looks the
    /// least lead counts; where it has moved by more than half a packet from
    /// what it settled at, the output is counted anew.
    pub open spec fn resynced(self) -> DeviceView {
        match self.backend {
            BackendView::M1k(b) => if b.lead_settle > 0 {
                DeviceView {
                    backend: BackendView::M1k(
                        M1kView { lead_settle: (b.lead_settle - 1) as u32, ..b },
                    ),
                    ..self
                }
            } else {
                let least = if self.lead() < b.lead_min {
                    self.lead()
                } else {
                    b.lead_min
                };
                if b.lead_count < 63 {
                    DeviceView {
                        backend: BackendView::M1k(
                            M1kView {
                                lead_min: least,
                                lead_count: (b.lead_count + 1) as u32,
                                ..b
                            },
                        ),
                        ..self
                    }
                } else {
                    let anew = M1kView { lead_min: i64::MAX, lead_count: 0, ..b };
                    match b.lead_baseline {
                        None => DeviceView {
                            backend: BackendView::M1k(
                                M1kView { lead_baseline: Some(least), ..anew },
                            ),
                            ..self
                        },
                        Some(base) => {
                            let drift = least.wrapping_sub(base);
                            DeviceView {
                                backend: BackendView::M1k(anew),
                                capture_o: if drift > 128 || drift < -128 {
                                    (self.capture_o as i64).wrapping_sub(drift) as u64
                                } else {
                                    self.capture_o
                                },
                                ..self
                            }
                        },
                    }
                }
            },
            _ => self,
        }
    }
}

impl StreamingDevice {
    /// Ends the input transfer whose samples were counted and delivered: the capture
    /// may be over, sources may have come into effect, and the lead is looked at.
    pub fn transfer_done(&mut self)
        requires
            old(self).wf(),
            two_by_two(old(self)@.channels),
        ensures
            final(self)@ == old(self)@.packet_done().checked(0).checked(1).resynced(),
            final(self).wf(),
    {
        self.packet_done();
        self.check_output_effective(0);
        self.check_output_effective(1);
        self.resync();
    }

    /// Looks at the lead of the output of an M1K.
    pub fn resync(&mut self)
        requires
            old(self).wf(),
        ensures
            final(self)@ == old(self)@.resynced(),
            final(self).wf(),
    {
        let lead: i64 = (#[verifier::truncate] (self.capture_o as i64)).wrapping_sub(
            self.capture_i as i64,
        );
        let mut adjust: i64 = 0;
        match &mut self.backend {
            Backend::M1k(b) => {
                if b.lead_settle > 0 {
                    b.lead_settle = b.lead_settle - 1;
                } else {
                    if lead < b.lead_min {
                        b.lead_min = lead;
                    }
                    if b.lead_count < 63 {
                        b.lead_count = b.lead_count + 1;
                    } else {
                        match b.lead_baseline {
                            None => {
                                b.lead_baseline = Some(b.lead_min);
                            },
                            Some(base) => {
                                let drift: i64 = b.lead_min.wrapping_sub(base);
                                if drift > 128 || drift < -128 {
                                    adjust = drift;
                                }
                            },
                        }
                        b.lead_min = i64::MAX;
                        b.lead_count = 0;
                    }
                }
            },
            _ => {},
        }
        if adjust != 0 {
            let o: i64 = (#[verifier::truncate] (self.capture_o as i64)).wrapping_sub(adjust);
            self.capture_o = #[verifier::truncate]
            (o as u64);
        }
        proof {
            lemma_wf_frame(old(self)@, self@);
        }
    }
}

/// Where the lead of the output has moved, the next look finds it where it had
/// settled: what the last of the 64 looks saw above the least lead, it is still
/// above it.
pub proof fn law_resync_restores_lead(d: DeviceView)
    requires
        d.wf(),
        d.capture_o <= i64::MAX,
        d.backend matches BackendView::M1k(b) && b.lead_settle == 0 && b.lead_count >= 63
            && b.lead_baseline is Some && -0x4000_0000_0000_0000 < b.lead_baseline->Some_0
            < 0x4000_0000_0000_0000 && b.lead_min >= d.lead() && d.lead() - b.lead_baseline->Some_0
            > 128 && d.lead() - b.lead_baseline->Some_0 < 0x4000_0000_0000_0000,
    ensures
        d.resynced().lead() == d.backend->M1k_0.lead_baseline->Some_0,
{
    let b = d.backend->M1k_0;
    let base = b.lead_baseline->Some_0;
    let drift = (d.lead() - base) as i64;
    let o = (d.capture_o - drift) as i64;
    assert((o as u64) as i64 == o) by (bit_vector);
}

// ---- output ----

impl DeviceView {
    /// Whether there are two channels, with a source each.
    pub open spec fn sourced(self) -> bool {
        self.channels.len() == 2 && self.channels[0].source is Some
            && self.channels[1].source is Some
    }

    pub open spec fn kind_at(self, chan: int) -> KindView {
        self.channels[chan].source->Some_0.kind
    }
}

/// The size of an output transfer.
#[derive(Clone, Copy, Debug, PartialEq, Eq, Structural)]
pub struct OutShape {
    pub packets: usize,
    /// Samples in all packets.
    pub samples: usize,
    /// Bytes of all packets.
    pub bytes: usize,
}

/// Packets of so many samples and bytes each, if all of them can be counted.
pub open spec fn shape(packets: usize, samples: int, bytes: int) -> Option<OutShape> {
    if packets * bytes <= usize::MAX {
        Some(
            OutShape {
                packets,
                samples: (packets * samples) as usize,
                bytes: (packets * bytes) as usize,
            },
        )
    } else {
        None
    }
}

impl DeviceView {
    /// The size of the output transfers: packets of ten samples in 32 bytes for a
    /// CEE, of 256 samples in 1024 bytes for an M1K.
    pub open spec fn out_shape(self) -> Option<OutShape> {
        match self.backend {
            BackendView::Cee(b) => shape(b.packets_per_transfer, 10, 32),
            BackendView::M1k(b) => shape(b.packets_per_transfer, 256, 1024),
            BackendView::Test(_) => None,
        }
    }
}

impl StreamingDevice {
    pub fn out_shape(&self) -> (r: Option<OutShape>)
        ensures
            r == self@.out_shape(),
    {
        match &self.backend {
            Backend::Cee(b) => {
                let packets = b.packets_per_transfer;
                if packets <= usize::MAX / 32 {
                    Some(OutShape { packets, samples: packets * 10, bytes: packets * 32 })
                } else {
                    None
                }
            },
            Backend::M1k(b) => {
                let packets = b.packets_per_transfer;
                if packets <= usize::MAX / 1024 {
                    Some(OutShape { packets, samples: packets * 256, bytes: packets * 1024 })
                } else {
                    None
                }
            },
            Backend::Test(_) => None,
        }
    }
}

/// Whether a source, asked for one sample after the other from `from` on, gives
/// these levels and ends up as `last`.
pub open spec fn gives(
    first: KindView,
    from: int,
    levels: Seq<Level>,
    last: KindView,
) -> bool
    decreases levels.len(),
{
    if levels.len() == 0 {
        first == last
    } else {
        exists|k: KindView|
            gives(first, from, levels.drop_last(), k) && #[trigger] evaluates(
                k,
                (from + levels.len() - 1) as u64,
                last,
                levels.last(),
            )
    }
}

/// The levels of a source, one after the other.
fn draw(source: &mut crate::source::OutputSource, from: u64, n: usize) -> (r: Vec<Level>)
    requires
        old(source).wf(),
        from + n <= u64::MAX,
    ensures
        final(source).wf(),
        r.len() == n,
        gives(old(source)@.kind, from as int, r@, final(source)@.kind),
        final(source)@ == (SourceView { kind: final(source)@.kind, ..old(source)@ }),
{
    let mut r: Vec<Level> = Vec::new();
    let mut i: usize = 0;
    while i < n
        invariant
            i <= n,
            from + n <= u64::MAX,
            r.len() == i,
            source.wf(),
            gives(old(source)@.kind, from as int, r@, source@.kind),
            source@ == (SourceView { kind: source@.kind, ..old(source)@ }),
        decreases n - i,
    {
        let ghost k = source@.kind;
        let ghost before = r@;
        let level = source.get_value(from + i as u64);
        r.push(level);
        assert(r@.drop_last() =~= before);
        assert(gives(old(source)@.kind, from as int, r@.drop_last(), k));
        assert((from as int + r@.len() - 1) as u64 == (from + i) as u64);
        assert(evaluates(k, (from as int + r@.len() - 1) as u64, source@.kind, r@.last()));
        i += 1;
    }
    r
}

impl StreamingDevice {
    /// The levels that the sources of both channels have at the next `n` output
    /// samples, which are then counted. Nothing where there are no two sources.
    pub fn next_levels(&mut self, n: usize) -> (r: Option<(Vec<Level>, Vec<Level>)>)
        requires
            old(self).wf(),
            old(self)@.capture_o + n <= u64::MAX,
        ensures
            final(self).wf(),
            match r {
                None => !old(self)@.sourced() && final(self)@ == old(self)@,
                Some((a, b)) => {
                    let d = old(self)@;
                    let e = final(self)@;
                    &&& d.sourced()
                    &&& e.sourced()
                    &&& a.len() == n
                    &&& b.len() == n
                    &&& gives(d.kind_at(0), d.capture_o as int, a@, e.kind_at(0))
                    &&& gives(d.kind_at(1), d.capture_o as int, b@, e.kind_at(1))
                    &&& e == (DeviceView {
                        capture_o: (d.capture_o + n) as u64,
                        channels: seq![
                            ChannelView {
                                source: Some(
                                    SourceView {
                                        kind: e.kind_at(0),
                                        ..d.channels[0].source->Some_0
                                    },
                                ),
                                ..d.channels[0]
                            },
                            ChannelView {
                                source: Some(
                                    SourceView {
                                        kind: e.kind_at(1),
                                        ..d.channels[1].source->Some_0
                                    },
                                ),
                                ..d.channels[1]
                            },
                        ],
                        ..d
                    })
                },
            },
    {
        let ghost d = self@;
        if self.channels.len() != 2 {
            return None;
        }
        assert(d.channels[0] == self.channels@[0]@);
        assert(d.channels[1] == self.channels@[1]@);
        if self.channels[0].source.is_none() || self.channels[1].source.is_none() {
            return None;
        }
        assert(channel_wf(d.channels[0], d.capture_samples));
        assert(channel_wf(d.channels[1], d.capture_samples));
        let o = self.capture_o;
        let a = match &mut self.channels[0].source {
            Some(s) => draw(s, o, n),
            None => Vec::new(),
        };
        let b = match &mut self.channels[1].source {
            Some(s) => draw(s, o, n),
            None => Vec::new(),
        };
        self.capture_o = o + n as u64;
        proof {
            let e = self@;
            assert(e.channels[0] == self.channels@[0]@);
            assert(e.channels[1] == self.channels@[1]@);
            assert(e.channels =~= seq![
                ChannelView {
                    source: Some(
                        SourceView { kind: e.kind_at(0), ..d.channels[0].source->Some_0 },
                    ),
                    ..d.channels[0]
                },
                ChannelView {
                    source: Some(
                        SourceView { kind: e.kind_at(1), ..d.channels[1].source->Some_0 },
                    ),
                    ..d.channels[1]
                },
            ]);
            assert forall|k: int| 0 <= k < e.channels.len() implies channel_wf(
                #[trigger] e.channels[k],
                e.capture_samples,
            ) by {
                assert(channel_wf(d.channels[k], d.capture_samples));
            }
            crate::streaming::lemma_listeners_stay(d, e);
        }
        Some((a, b))
    }
}

/// The byte number `j` of an output transfer of a CEE: packets of the modes of
/// the channels and ten samples of three bytes.
pub open spec fn cee_out_byte(mode_a: u8, mode_b: u8, codes: Seq<(u16, u16)>, j: int) -> u8 {
    let q = j % 32;
    if q == 0 {
        mode_a
    } else if q == 1 {
        mode_b
    } else {
        let c = codes[10 * (j / 32) + (q - 2) / 3];
        packed(c.0, c.1)[(q - 2) % 3]
    }
}

/// Puts an output transfer of a CEE together.
pub fn cee_out_transfer(mode_a: u8, mode_b: u8, packets: usize, codes: &Vec<(u16, u16)>) -> (r: Vec<
    u8,
>)
    requires
        codes.len() == 10 * packets,
        32 * packets <= usize::MAX,
    ensures
        r@ == Seq::new((32 * packets) as nat, |j: int| cee_out_byte(mode_a, mode_b, codes@, j)),
{
    let mut r: Vec<u8> = Vec::new();
    let mut j: usize = 0;
    while j < 32 * packets
        invariant
            j <= 32 * packets,
            32 * packets <= usize::MAX,
            codes.len() == 10 * packets,
            r@ == Seq::new(j as nat, |j: int| cee_out_byte(mode_a, mode_b, codes@, j)),
        decreases 32 * packets - j,
    {
        let q: usize = j % 32;
        let x: u8 = if q == 0 {
            mode_a
        } else if q == 1 {
            mode_b
        } else {
            let k: usize = 10 * (j / 32) + (q - 2) / 3;
            assert(k < codes.len());
            let c = codes[k];
            let s = pack_out_sample(c.0, c.1);
            s[(q - 2) % 3]
        };
        r.push(x);
        j += 1;
        assert(r@ =~= Seq::new(j as nat, |j: int| cee_out_byte(mode_a, mode_b, codes@, j)));
    }
    r
}

/// The high or the low byte of a number.
pub open spec fn half(x: u16, high: bool) -> u8 {
    if high {
        (x / 256) as u8
    } else {
        (x % 256) as u8
    }
}

/// The byte number `j` of an output transfer of an M1K: in each packet 256
/// samples of both channels, high byte first, either sample by sample or first
/// all of the one and then all of the other channel.
pub open spec fn m1k_out_byte(interleaved: bool, codes: Seq<(u16, u16)>, j: int) -> u8 {
    let q = j % 1024;
    let first = 256 * (j / 1024);
    if interleaved {
        let c = codes[first + q / 4];
        half(
            if q % 4 < 2 {
                c.0
            } else {
                c.1
            },
            q % 2 == 0,
        )
    } else if q < 512 {
        half(codes[first + q / 2].0, q % 2 == 0)
    } else {
        half(codes[first + (q - 512) / 2].1, q % 2 == 0)
    }
}

fn half_of(x: u16, high: bool) -> (r: u8)
    ensures
        r == half(x, high),
{
    if high {
        (x / 256) as u8
    } else {
        (x % 256) as u8
    }
}

/// Puts an output transfer of an M1K together.
pub fn m1k_out_transfer(interleaved: bool, packets: usize, codes: &Vec<(u16, u16)>) -> (r: Vec<u8>)
    requires
        codes.len() == 256 * packets,
        1024 * packets <= usize::MAX,
    ensures
        r@ == Seq::new((1024 * packets) as nat, |j: int| m1k_out_byte(interleaved, codes@, j)),
{
    let mut r: Vec<u8> = Vec::new();
    let mut j: usize = 0;
    while j < 1024 * packets
        invariant
            j <= 1024 * packets,
            1024 * packets <= usize::MAX,
            codes.len() == 256 * packets,
            r@ == Seq::new(j as nat, |j: int| m1k_out_byte(interleaved, codes@, j)),
        decreases 1024 * packets - j,
    {
        let q: usize = j % 1024;
        let first: usize = 256 * (j / 1024);
        let x: u8 = if interleaved {
            let c = codes[first + q / 4];
            half_of(
                if q % 4 < 2 {
                    c.0
                } else {
                    c.1
                },
                q % 2 == 0,
            )
        } else if q < 512 {
            half_of(codes[first + q / 2].0, q % 2 == 0)
        } else {
            half_of(codes[first + (q - 512) / 2].1, q % 2 == 0)
        };
        r.push(x);
        j += 1;
        assert(r@ =~= Seq::new(j as nat, |j: int| m1k_out_byte(interleaved, codes@, j)));
    }
    r
}

/// Whether the samples of both channels are put into an M1K output transfer in a
/// way that an M1K of either kind can take them out again.
pub proof fn law_m1k_output_reads_back(interleaved: bool, codes: Seq<(u16, u16)>, k: int)
    requires
        0 <= k < codes.len(),
    ensures
        ({
            let base = 1024 * (k / 256);
            let i = k % 256;
            let a = base + (if interleaved {
                4 * i
            } else {
                2 * i
            });
            let b = base + (if interleaved {
                4 * i + 2
            } else {
                512 + 2 * i
            });
            &&& m1k_out_byte(interleaved, codes, a) * 256 + m1k_out_byte(interleaved, codes, a + 1)
                == codes[k].0
            &&& m1k_out_byte(interleaved, codes, b) * 256 + m1k_out_byte(interleaved, codes, b + 1)
                == codes[k].1
        }),
{
    let p = k / 256;
    let i = k % 256;
    let base = 1024 * p;
    if interleaved {
        assert((base + 4 * i) / 1024 == p && (base + 4 * i) % 1024 == 4 * i);
        assert((base + 4 * i + 1) / 1024 == p && (base + 4 * i + 1) % 1024 == 4 * i + 1);
        assert((base + 4 * i + 2) / 1024 == p && (base + 4 * i + 2) % 1024 == 4 * i + 2);
        assert((base + 4 * i + 3) / 1024 == p && (base + 4 * i + 3) % 1024 == 4 * i + 3);
    } else {
        assert((base + 2 * i) / 1024 == p && (base + 2 * i) % 1024 == 2 * i);
        assert((base + 2 * i + 1) / 1024 == p && (base + 2 * i + 1) % 1024 == 2 * i + 1);
        assert((base + 512 + 2 * i) / 1024 == p && (base + 512 + 2 * i) % 1024 == 512 + 2 * i);
        assert((base + 512 + 2 * i + 1) / 1024 == p && (base + 512 + 2 * i + 1) % 1024 == 512 + 2
            * i + 1);
    }
}

// ---- starting ----

/// The frame that sampling starts at, in eighths: at least 31 frames after the
/// one that goes on, in the numbers of 11 bits.
pub fn frame_start(sof: u16) -> (r: u16)
    ensures
        r == ((sof / 8 + 31) % 2048) * 8,
        r % 8 == 0,
{
    ((sof / 8 + 31) % 2048) * 8
}

/// The question for the number of the frame that goes on.
pub fn frame_question() -> (r: ControlRequest)
    ensures
        r@ == asked(0x6F, 0, 0, 2),
{
    ask(0x6F, 0, 0, 2)
}

/// The number of the frame that goes on, as the device tells it.
pub open spec fn frame_told(r: ReplyView) -> u16 {
    if r.status >= 2 && r.data.len() >= 2 {
        (r.data[0] + 256 * r.data[1]) as u16
    } else {
        0
    }
}

impl DeviceView {
    /// A CEE that was told to sample.
    pub open spec fn cee_begun(self) -> DeviceView {
        match self.backend {
            BackendView::Cee(b) => DeviceView {
                capture_o: self.capture_i,
                backend: BackendView::Cee(CeeBackend { first_packet: true, ..b }),
                ..self.doing(sends(0x80, b.xmega_per as u16, 1))
            },
            _ => self,
        }
    }

    /// An M1K that is ready to sample.
    pub open spec fn m1k_prepared(self) -> DeviceView {
        match self.backend {
            BackendView::M1k(b) => DeviceView {
                backend: BackendView::M1k(
                    b.with_mode(0, b.m_mode[0]).with_mode(1, b.m_mode[1]),
                ),
                out: self.out + mode_requests(0, b.m_mode[0]) + mode_requests(1, b.m_mode[1])
                    + seq![sends(0xC5, 0, 0), sends(0xCC, 0, 0)],
                ..self
            },
            _ => self,
        }
    }

    /// An M1K that was told to sample, from a frame after the one that it told.
    pub open spec fn m1k_begun(self, sof: ReplyView) -> DeviceView {
        match self.backend {
            BackendView::M1k(b) => DeviceView {
                capture_o: self.capture_i,
                ..self.doing(
                    sends(
                        0xC5,
                        b.m1k_per as u16,
                        (((frame_told(sof) / 8 + 31) % 2048) * 8) as u16,
                    ),
                )
            },
            _ => self,
        }
    }
}

impl StreamingDevice {
    /// Tells a CEE, whose interface was claimed, to sample.
    pub fn cee_begin(&mut self)
        requires
            old(self).wf(),
        ensures
            final(self)@ == old(self)@.cee_begun(),
            final(self).wf(),
    {
        match &mut self.backend {
            Backend::Cee(b) => {
                let per: u16 = #[verifier::truncate]
                (b.xmega_per as u16);
                b.first_packet = true;
                enqueue(&mut self.out, Effect::Control(tell(0x80, per, 1)));
                self.capture_o = self.capture_i;
            },
            _ => {},
        }
        proof {
            lemma_wf_frame(old(self)@, self@);
        }
    }

    /// Makes an M1K, whose interface was claimed, ready to sample. It has then to
    /// be asked for the frame that goes on.
    pub fn m1k_prepare(&mut self)
        requires
            old(self).wf(),
        ensures
            final(self)@ == old(self)@.m1k_prepared(),
            final(self).wf(),
    {
        match &mut self.backend {
            Backend::M1k(b) => {
                let a: u32 = b.m_mode[0];
                let c: u32 = b.m_mode[1];
                b.set_mode(0, a, &mut self.out);
                b.set_mode(1, c, &mut self.out);
                enqueue(&mut self.out, Effect::Control(tell(0xC5, 0, 0)));
                enqueue(&mut self.out, Effect::Control(tell(0xCC, 0, 0)));
            },
            _ => {},
        }
        proof {
            assert(self@.out =~= old(self)@.m1k_prepared().out);
            lemma_wf_frame(old(self)@, self@);
        }
    }

    /// Tells an M1K to sample. `sof` is its answer to request 0x6F.
    pub fn m1k_begin(&mut self, sof: &ControlReply)
        requires
            old(self).wf(),
        ensures
            final(self)@ == old(self)@.m1k_begun(sof@),
            final(self).wf(),
    {
        let frame: u16 = if sof.status >= 2 && sof.data.len() >= 2 {
            sof.data[0] as u16 + 256 * sof.data[1] as u16
        } else {
            0
        };
        match &self.backend {
            Backend::M1k(b) => {
                let per: u16 = #[verifier::truncate]
                (b.m1k_per as u16);
                enqueue(&mut self.out, Effect::Control(tell(0xC5, per, frame_start(frame))));
                self.capture_o = self.capture_i;
            },
            _ => {},
        }
        proof {
            lemma_wf_frame(old(self)@, self@);
        }
    }
}

/// Whether a transfer of an M1K is to be followed by another, when `count` were
/// handed in so far: for ever, or until the buffer is full.
pub fn more_transfers(continuous: bool, count: u64, packets: usize, samples: u32) -> (r: bool)
    ensures
        r == (continuous || count * 256 * packets < samples),
{
    let n: u128 = count as u128 * 256;
    if continuous {
        true
    } else if packets == 0 || n > 0xffff_ffff {
        assert(packets > 0 ==> n * packets >= n) by (nonlinear_arith)
            requires
                n >= 0,
        ;
        packets == 0 && samples > 0
    } else {
        assert(n * packets <= 0xffff_ffff * 0xffff_ffff_ffff_ffff) by (nonlinear_arith)
            requires
                0 <= n <= 0xffff_ffff,
                0 <= packets <= 0xffff_ffff_ffff_ffff,
        ;
        n * (packets as u128) < samples as u128
    }
}

/// Timer ticks per sample of a CEE.
pub fn cee_period(wanted: u32, least: u32) -> (r: u32)
    ensures
        r == (if wanted < least {
            least
        } else {
            wanted
        }),
{
    if wanted < least {
        least
    } else {
        wanted
    }
}

/// Timer ticks per sample of an M1K: from 480 to 48000.
pub fn m1k_period(wanted: u64) -> (r: u64)
    ensures
        480 <= r <= 48000,
        480 <= wanted <= 48000 ==> r == wanted,
        wanted < 480 ==> r == 480,
        wanted > 48000 ==> r == 48000,
{
    if wanted < 480 {
        480
    } else if wanted > 48000 {
        48000
    } else {
        wanted
    }
}

} // verus!
