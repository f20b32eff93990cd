//! The channels of a device, and how it is configured.

use crate::capture::lemma_wf_frame;
use crate::effect::{ask, asked, enqueue, tell, Effect, EffectView};
use crate::float::{Double, Single};
use crate::jsonutil::Error;
use crate::source::{fresh, started, KindView, OutputSource, PhaseReply, PhaseRequest, SourceView};
use crate::streaming::{
    channel_views, channel_wf, has_stream, stream_views, Backend, BackendView, Channel, ChannelView,
    DeviceView, Stream, StreamView, StreamingDevice, TestBackend, TestView,
};
use crate::text::{joined, same};
use crate::usb::cee::CeeBackend;
use crate::usb::m1k::{mode_requests, sends, M1kView};
use vstd::prelude::*;
use vstd::string::*;

verus! {

// ---- looking up ----

/// The place of the first channel with this id; their number where there is
/// none.
pub open spec fn channel_place(v: Seq<ChannelView>, id: Seq<char>) -> int
    decreases v.len(),
{
    if v.len() == 0 || v[0].id == id {
        0
    } else {
        1 + channel_place(v.drop_first(), id)
    }
}

/// The place of the first stream with this id; their number where there is
/// none.
pub open spec fn stream_place(v: Seq<StreamView>, id: Seq<char>) -> int
    decreases v.len(),
{
    if v.len() == 0 || v[0].id == id {
        0
    } else {
        1 + stream_place(v.drop_first(), id)
    }
}

pub proof fn lemma_channel_place(v: Seq<ChannelView>, id: Seq<char>, i: int)
    requires
        0 <= i <= v.len(),
        forall|j: int| 0 <= j < i ==> (#[trigger] v[j]).id != id,
        i == v.len() || v[i].id == id,
    ensures
        channel_place(v, id) == i,
    decreases v.len(),
{
    if i > 0 {
        let w = v.drop_first();
        assert(v[0].id != id);
        assert forall|j: int| 0 <= j < i - 1 implies (#[trigger] w[j]).id != id by {
            assert(w[j] == v[j + 1]);
        }
        lemma_channel_place(w, id, i - 1);
    }
}

pub proof fn lemma_stream_place(v: Seq<StreamView>, id: Seq<char>, i: int)
    requires
        0 <= i <= v.len(),
        forall|j: int| 0 <= j < i ==> (#[trigger] v[j]).id != id,
        i == v.len() || v[i].id == id,
    ensures
        stream_place(v, id) == i,
    decreases v.len(),
{
    if i > 0 {
        let w = v.drop_first();
        assert(v[0].id != id);
        assert forall|j: int| 0 <= j < i - 1 implies (#[trigger] w[j]).id != id by {
            assert(w[j] == v[j + 1]);
        }
        lemma_stream_place(w, id, i - 1);
    }
}

impl DeviceView {
    pub open spec fn channel(self, id: Seq<char>) -> Option<int> {
        let c = channel_place(self.channels, id);
        if c < self.channels.len() {
            Some(c)
        } else {
            None
        }
    }

    /// The stream that is meant, or what is wrong.
    pub open spec fn stream(self, channel: Seq<char>, stream: Seq<char>) -> Result<
        (int, int),
        Seq<char>,
    > {
        match self.channel(channel) {
            None => Err("Channel not found"@),
            Some(c) => {
                let s = stream_place(self.channels[c].streams, stream);
                if s < self.channels[c].streams.len() {
                    Ok((c, s))
                } else {
                    Err("Stream not found"@)
                }
            },
        }
    }
}

impl Channel {
    pub fn stream_by_id(&self, id: &str) -> (r: Option<usize>)
        ensures
            match r {
                Some(i) => i < self@.streams.len() && i == stream_place(self@.streams, id@),
                None => stream_place(self@.streams, id@) == self@.streams.len(),
            },
    {
        let mut i: usize = 0;
        while i < self.streams.len()
            invariant
                i <= self.streams.len(),
                forall|j: int| 0 <= j < i ==> (#[trigger] self@.streams[j]).id != id@,
            decreases self.streams.len() - i,
        {
            assert(self@.streams[i as int] == self.streams@[i as int]@);
            if same(self.streams[i].id.as_str(), id) {
                proof {
                    lemma_stream_place(self@.streams, id@, i as int);
                }
                return Some(i);
            }
            i += 1;
        }
        proof {
            lemma_stream_place(self@.streams, id@, i as int);
        }
        None
    }
}

impl StreamingDevice {
    pub fn channel_by_id(&self, id: &str) -> (r: Option<usize>)
        ensures
            match r {
                Some(i) => self@.channel(id@) == Some(i as int) && i < self@.channels.len(),
                None => self@.channel(id@) is None,
            },
    {
        let mut i: usize = 0;
        while i < self.channels.len()
            invariant
                i <= self.channels.len(),
                forall|j: int| 0 <= j < i ==> (#[trigger] self@.channels[j]).id != id@,
            decreases self.channels.len() - i,
        {
            assert(self@.channels[i as int] == self.channels@[i as int]@);
            if same(self.channels[i].id.as_str(), id) {
                proof {
                    lemma_channel_place(self@.channels, id@, i as int);
                }
                return Some(i);
            }
            i += 1;
        }
        proof {
            lemma_channel_place(self@.channels, id@, i as int);
        }
        None
    }

    pub fn find_stream(&self, channel_id: &str, stream_id: &str) -> (r: Result<
        (usize, usize),
        Error,
    >)
        ensures
            match r {
                Ok(p) => self@.stream(channel_id@, stream_id@) == Ok::<(int, int), Seq<char>>(
                    (p.0 as int, p.1 as int),
                ) && has_stream(self@.channels, p.0 as int, p.1 as int),
                Err(e) => self@.stream(channel_id@, stream_id@) == Err::<(int, int), Seq<char>>(e@),
            },
    {
        match self.channel_by_id(channel_id) {
            None => Err(Error::new("Channel not found")),
            Some(c) => {
                assert(self@.channels[c as int] == self.channels@[c as int]@);
                match self.channels[c].stream_by_id(stream_id) {
                    None => Err(Error::new("Stream not found")),
                    Some(s) => Ok((c, s)),
                }
            },
        }
    }
}

// ---- building ----

/// `n` zero samples.
pub open spec fn silence(n: u32) -> Seq<Single> {
    Seq::new(n as nat, |i: int| Single { bits: 0 })
}

impl Stream {
    pub fn new(
        id: &str,
        display_name: &str,
        units: &str,
        min: Single,
        max: Single,
        output_mode: u32,
        uncertainty: Single,
        gain: u32,
    ) -> (r: Stream)
        ensures
            r@ == (StreamView {
                id: id@,
                display_name: display_name@,
                units: units@,
                min,
                max,
                output_mode,
                gain,
                normal_gain: gain,
                uncertainty,
                data: Seq::empty(),
            }),
    {
        Stream {
            id: id.to_owned(),
            display_name: display_name.to_owned(),
            units: units.to_owned(),
            min,
            max,
            output_mode,
            gain,
            normal_gain: gain,
            uncertainty,
            data: Vec::new(),
        }
    }

    /// Makes room for `size` samples.
    pub fn allocate(&mut self, size: u32)
        ensures
            final(self)@ == (StreamView { data: silence(size), ..old(self)@ }),
    {
        let mut data: Vec<Single> = Vec::new();
        let mut i: u32 = 0;
        while i < size
            invariant
                i <= size,
                data@ == silence(i),
            decreases size - i,
        {
            data.push(Single { bits: 0 });
            i += 1;
            assert(data@ =~= silence(i));
        }
        self.data = data;
    }
}

impl Channel {
    pub fn new(id: &str, display_name: &str) -> (r: Channel)
        ensures
            r@ == (ChannelView {
                id: id@,
                display_name: display_name@,
                streams: Seq::empty(),
                source: None,
            }),
    {
        let streams: Vec<Stream> = Vec::new();
        assert(stream_views(streams@) =~= Seq::empty());
        Channel { id: id.to_owned(), display_name: display_name.to_owned(), streams, source: None }
    }
}

/// What a configuration is asked to be.
#[derive(Clone, Copy, Debug, PartialEq, Eq, Structural)]
pub struct ConfigRequest {
    pub mode: i32,
    pub sample_time: Double,
    pub samples: u32,
    pub continuous: bool,
    pub raw: bool,
}

/// What a current is measured between.
#[derive(Clone, Copy, Debug, PartialEq, Eq, Structural)]
pub struct Range {
    pub min: Single,
    pub max: Single,
}

/// What the clock of the device makes of a configuration.
#[derive(Clone, Copy, Debug, PartialEq, Eq, Structural)]
pub struct Timing {
    /// The time that a sample really takes.
    pub sample_time: Double,
    /// The time that the buffer holds.
    pub length: Single,
    /// Timer ticks.
    pub per: u32,
    /// Packets in a transfer; none counts as one.
    pub packets: usize,
    /// The ranges of the currents of a CEE.
    pub range_a: Range,
    pub range_b: Range,
}

/// A voltage or a current: how it is measured.
#[derive(Clone, Copy, Debug, PartialEq, Eq, Structural)]
pub struct Scale {
    pub min: Single,
    pub max: Single,
    pub uncertainty: Single,
    pub gain: u32,
}

/// Five in binary32.
pub const FIVE_BITS: u32 = 0x40a0_0000;

/// One part in 65536 of five in binary32.
pub const V_STEP_BITS: u32 = 0x38a0_0000;

/// One part in 65536 of 400 in binary32.
pub const I_STEP_BITS: u32 = 0x3bc8_0000;

/// How a device measures voltages.
pub open spec fn volt_scale(backend: BackendView, raw: bool) -> Scale {
    match backend {
        BackendView::Cee(_) => if raw {
            Scale {
                min: Single { bits: 0xc2c8_0000 },
                max: Single { bits: 0x44ff_e000 },
                uncertainty: Single { bits: 0x3b20_0000 },
                gain: 1,
            }
        } else {
            Scale {
                min: Single { bits: 0 },
                max: Single { bits: FIVE_BITS },
                uncertainty: Single { bits: 0x3b20_0000 },
                gain: 1,
            }
        },
        _ => if raw && backend is M1k {
            Scale {
                min: Single { bits: 0 },
                max: Single { bits: 0x477f_ff00 },
                uncertainty: Single { bits: V_STEP_BITS },
                gain: 1,
            }
        } else {
            Scale {
                min: Single { bits: 0 },
                max: Single { bits: FIVE_BITS },
                uncertainty: Single { bits: V_STEP_BITS },
                gain: 1,
            }
        },
    }
}

/// How a device measures currents.
pub open spec fn current_scale(backend: BackendView, raw: bool, range: Range) -> Scale {
    match backend {
        BackendView::Cee(_) => if raw {
            Scale {
                min: Single { bits: 0xc500_0000 },
                max: Single { bits: 0x44ff_e000 },
                uncertainty: Single { bits: 0x3f80_0000 },
                gain: 2,
            }
        } else {
            Scale {
                min: range.min,
                max: range.max,
                uncertainty: Single { bits: 0x3f80_0000 },
                gain: 2,
            }
        },
        _ => if raw && backend is M1k {
            Scale {
                min: Single { bits: 0 },
                max: Single { bits: 0x477f_ff00 },
                uncertainty: Single { bits: I_STEP_BITS },
                gain: 1,
            }
        } else {
            Scale {
                min: Single { bits: 0xc348_0000 },
                max: Single { bits: 0x4348_0000 },
                uncertainty: Single { bits: I_STEP_BITS },
                gain: 1,
            }
        },
    }
}

/// Whether the samples of a device are bare numbers.
pub open spec fn unscaled(backend: BackendView, raw: bool) -> bool {
    raw && !(backend is Test)
}

/// A stream with an empty buffer.
pub open spec fn stream_of(
    id: Seq<char>,
    display_name: Seq<char>,
    units: Seq<char>,
    output_mode: u32,
    scale: Scale,
    gain: u32,
    samples: u32,
) -> StreamView {
    StreamView {
        id,
        display_name,
        units,
        min: scale.min,
        max: scale.max,
        output_mode,
        gain,
        normal_gain: scale.gain,
        uncertainty: scale.uncertainty,
        data: silence(samples),
    }
}

/// The gain that a stream had before, on a device whose gains outlast a
/// configuration.
pub open spec fn kept_gain(
    backend: BackendView,
    before: Seq<ChannelView>,
    c: int,
    s: int,
    gain: u32,
) -> u32 {
    if backend is Cee && has_stream(before, c, s) {
        before[c].streams[s].gain
    } else {
        gain
    }
}

/// A channel as it is after a configuration: a voltage and a current, and a
/// source that drives nothing.
pub open spec fn channel_of(
    backend: BackendView,
    before: Seq<ChannelView>,
    c: int,
    name: Seq<char>,
    id: Seq<char>,
    raw: bool,
    range: Range,
    samples: u32,
) -> ChannelView {
    let v = volt_scale(backend, raw);
    let i = current_scale(backend, raw, range);
    ChannelView {
        id,
        display_name: name,
        streams: seq![
            stream_of(
                "v"@,
                "Voltage "@ + name,
                if unscaled(backend, raw) {
                    "LSB"@
                } else {
                    "V"@
                },
                1,
                v,
                kept_gain(backend, before, c, 0, v.gain),
                samples,
            ),
            stream_of(
                "i"@,
                "Current "@ + name,
                if unscaled(backend, raw) {
                    "LSB"@
                } else {
                    "mA"@
                },
                2,
                i,
                kept_gain(backend, before, c, 1, i.gain),
                samples,
            ),
        ],
        source: Some(fresh(0, KindView::Constant { value: Single { bits: 0 } })),
    }
}

/// The mode that a device takes on.
pub open spec fn mode_taken(backend: BackendView, mode: i32) -> u32 {
    if backend is M1k || mode < 0 {
        0
    } else {
        mode as u32
    }
}

/// The hardware after a configuration.
pub open spec fn backend_timed(backend: BackendView, t: Timing) -> BackendView {
    let packets = if t.packets == 0 {
        1usize
    } else {
        t.packets
    };
    match backend {
        BackendView::Test(b) => BackendView::Test(b),
        BackendView::M1k(b) => BackendView::M1k(
            M1kView { m1k_per: t.per, packets_per_transfer: packets, ..b },
        ),
        BackendView::Cee(b) => BackendView::Cee(
            CeeBackend { xmega_per: t.per, packets_per_transfer: packets, ..b },
        ),
    }
}

impl DeviceView {
    /// With new channels, at the first sample.
    pub open spec fn arranged(self, r: ConfigRequest, t: Timing) -> DeviceView {
        DeviceView {
            sample_time: t.sample_time,
            capture_samples: r.samples,
            capture_continuous: r.continuous,
            dev_mode: mode_taken(self.backend, r.mode),
            raw_mode: r.raw,
            capture_length: t.length,
            capture_i: 0,
            capture_o: 0,
            channels: if self.backend is Cee && mode_taken(self.backend, r.mode) != 0 {
                Seq::empty()
            } else {
                seq![
                    channel_of(
                        self.backend,
                        self.channels,
                        0,
                        "A"@,
                        "a"@,
                        r.raw,
                        t.range_a,
                        r.samples,
                    ),
                    channel_of(
                        self.backend,
                        self.channels,
                        1,
                        "B"@,
                        "b"@,
                        r.raw,
                        t.range_b,
                        r.samples,
                    ),
                ]
            },
            backend: backend_timed(self.backend, t),
            ..self
        }
    }

    /// After a configuration: paused, with new channels and without listeners,
    /// and the clients told.
    pub open spec fn configured(self, r: ConfigRequest, t: Timing) -> DeviceView {
        self.paused().arranged(r, t).telling_config()
    }
}

fn scale_of_volts(backend: &Backend, raw: bool) -> (r: Scale)
    ensures
        r == volt_scale(backend@, raw),
{
    match backend {
        Backend::Cee(_) => if raw {
            Scale {
                min: Single { bits: 0xc2c8_0000 },
                max: Single { bits: 0x44ff_e000 },
                uncertainty: Single { bits: 0x3b20_0000 },
                gain: 1,
            }
        } else {
            Scale {
                min: Single { bits: 0 },
                max: Single { bits: FIVE_BITS },
                uncertainty: Single { bits: 0x3b20_0000 },
                gain: 1,
            }
        },
        _ => Scale {
            min: Single { bits: 0 },
            max: Single {
                bits: if raw && matches!(backend, Backend::M1k(_)) {
                    0x477f_ff00
                } else {
                    FIVE_BITS
                },
            },
            uncertainty: Single { bits: V_STEP_BITS },
            gain: 1,
        },
    }
}

fn scale_of_currents(backend: &Backend, raw: bool, range: Range) -> (r: Scale)
    ensures
        r == current_scale(backend@, raw, range),
{
    match backend {
        Backend::Cee(_) => if raw {
            Scale {
                min: Single { bits: 0xc500_0000 },
                max: Single { bits: 0x44ff_e000 },
                uncertainty: Single { bits: 0x3f80_0000 },
                gain: 2,
            }
        } else {
            Scale {
                min: range.min,
                max: range.max,
                uncertainty: Single { bits: 0x3f80_0000 },
                gain: 2,
            }
        },
        _ => if raw && matches!(backend, Backend::M1k(_)) {
            Scale {
                min: Single { bits: 0 },
                max: Single { bits: 0x477f_ff00 },
                uncertainty: Single { bits: I_STEP_BITS },
                gain: 1,
            }
        } else {
            Scale {
                min: Single { bits: 0xc348_0000 },
                max: Single { bits: 0x4348_0000 },
                uncertainty: Single { bits: I_STEP_BITS },
                gain: 1,
            }
        },
    }
}

fn make_stream(
    id: &str,
    display_name: &str,
    units: &str,
    output_mode: u32,
    scale: Scale,
    gain: u32,
    samples: u32,
) -> (r: Stream)
    ensures
        r@ == stream_of(id@, display_name@, units@, output_mode, scale, gain, samples),
{
    let mut s = Stream::new(
        id,
        display_name,
        units,
        scale.min,
        scale.max,
        output_mode,
        scale.uncertainty,
        scale.gain,
    );
    s.gain = gain;
    s.allocate(samples);
    s
}

impl StreamingDevice {
    fn gain_before(&self, c: usize, s: usize, gain: u32) -> (r: u32)
        ensures
            r == kept_gain(self@.backend, self@.channels, c as int, s as int, gain),
    {
        if let Backend::Cee(_) = &self.backend {
            if c < self.channels.len() {
                assert(self@.channels[c as int] == self.channels@[c as int]@);
                if s < self.channels[c].streams.len() {
                    return self.channels[c].streams[s].gain;
                }
            }
        }
        gain
    }

    fn make_channel(
        &self,
        c: usize,
        name: &str,
        id: &str,
        raw: bool,
        range: Range,
        samples: u32,
    ) -> (r: Channel)
        ensures
            r@ == channel_of(
                self@.backend,
                self@.channels,
                c as int,
                name@,
                id@,
                raw,
                range,
                samples,
            ),
    {
        let bare = match &self.backend {
            Backend::Test(_) => false,
            _ => raw,
        };
        let v = scale_of_volts(&self.backend, raw);
        let i = scale_of_currents(&self.backend, raw, range);
        let volts = make_stream(
            "v",
            joined("Voltage ", name).as_str(),
            if bare {
                "LSB"
            } else {
                "V"
            },
            1,
            v,
            self.gain_before(c, 0, v.gain),
            samples,
        );
        let amperes = make_stream(
            "i",
            joined("Current ", name).as_str(),
            if bare {
                "LSB"
            } else {
                "mA"
            },
            2,
            i,
            self.gain_before(c, 1, i.gain),
            samples,
        );
        let mut r = Channel::new(id, name);
        assert(r@.streams.len() == r.streams@.len());
        r.streams.push(volts);
        r.streams.push(amperes);
        assert(r@.streams =~= seq![volts@, amperes@]);
        r.source = Some(OutputSource::constant(0, Single { bits: 0 }));
        assert(r@.streams =~= channel_of(
            self@.backend,
            self@.channels,
            c as int,
            name@,
            id@,
            raw,
            range,
            samples,
        ).streams);
        r
    }

    /// Builds the channels anew.
    fn arrange(&mut self, r: ConfigRequest, t: Timing)
        requires
            old(self).wf(),
            old(self)@.listeners.len() == 0,
        ensures
            final(self)@ == old(self)@.arranged(r, t),
            final(self).wf(),
    {
        let dev_mode: u32 = match &self.backend {
            Backend::M1k(_) => 0,
            _ => if r.mode < 0 {
                0
            } else {
                r.mode as u32
            },
        };
        let bare = match &self.backend {
            Backend::Cee(_) => dev_mode != 0,
            _ => false,
        };
        let mut channels: Vec<Channel> = Vec::new();
        if !bare {
            channels.push(self.make_channel(0, "A", "a", r.raw, t.range_a, r.samples));
            channels.push(self.make_channel(1, "B", "b", r.raw, t.range_b, r.samples));
        }
        assert(channel_views(channels@) =~= old(self)@.arranged(r, t).channels);
        let packets: usize = if t.packets == 0 {
            1
        } else {
            t.packets
        };
        match &mut self.backend {
            Backend::Test(_) => {},
            Backend::M1k(b) => {
                b.m1k_per = t.per;
                b.packets_per_transfer = packets;
            },
            Backend::Cee(b) => {
                b.xmega_per = t.per;
                b.packets_per_transfer = packets;
            },
        }
        self.sample_time = t.sample_time;
        self.capture_samples = r.samples;
        self.capture_continuous = r.continuous;
        self.dev_mode = dev_mode;
        self.raw_mode = r.raw;
        self.capture_length = t.length;
        self.capture_i = 0;
        self.capture_o = 0;
        self.channels = channels;
        assert(self@.backend == backend_timed(old(self)@.backend, t));
        assert(self@ =~= old(self)@.arranged(r, t));
        assert forall|c: int| 0 <= c < self@.channels.len() implies channel_wf(
            #[trigger] self@.channels[c],
            self@.capture_samples,
        ) by {
            assert(self@.channels[c].streams[0].data.len() == r.samples);
            assert(self@.channels[c].streams[1].data.len() == r.samples);
        }
    }

    /// Configures the capture. Listeners are dropped, and counting starts over.
    pub fn configure(&mut self, r: ConfigRequest, t: Timing)
        requires
            old(self).wf(),
        ensures
            final(self)@ == old(self)@.configured(r, t),
            final(self).wf(),
    {
        self.pause_capture();
        let ghost before = self@;
        self.clear_all_listeners();
        self.arrange(r, t);
        assert(self@ =~= DeviceView {
            listeners: Seq::empty(),
            ..before.arranged(r, t)
        });
        self.notify_config();
    }
}

// ---- gains and limits ----

/// What the CEE calls a gain.
pub open spec fn gain_code(gain: i32) -> Option<u16> {
    if gain == 1 {
        Some(0u16)
    } else if gain == 2 {
        Some(4u16)
    } else if gain == 4 {
        Some(8u16)
    } else if gain == 8 {
        Some(12u16)
    } else if gain == 16 {
        Some(16u16)
    } else if gain == 32 {
        Some(20u16)
    } else if gain == 64 {
        Some(24u16)
    } else {
        None
    }
}

/// What the CEE calls a stream.
pub open spec fn gain_line(chan: int, stream: int) -> Option<u16> {
    if chan == 0 && stream == 1 {
        Some(0u16)
    } else if chan == 0 && stream == 0 {
        Some(1u16)
    } else if chan == 1 && stream == 0 {
        Some(2u16)
    } else if chan == 1 && stream == 1 {
        Some(3u16)
    } else {
        None
    }
}

/// The settings that limit the currents of a CEE to `limit`.
pub open spec fn limit_codes(b: CeeBackend, limit: u32) -> Option<(u16, u16)> {
    if limit == 200 {
        Some((b.cal.dac200_a as u16, b.cal.dac200_b as u16))
    } else if limit == 400 {
        Some((b.cal.dac400_a as u16, b.cal.dac400_b as u16))
    } else if limit == 2000 {
        Some((0u16, 0u16))
    } else {
        None
    }
}

impl DeviceView {
    pub open spec fn with_gain(self, chan: int, stream: int, gain: u32) -> DeviceView {
        let c = self.channels[chan];
        let streams = c.streams.update(stream, StreamView { gain, ..c.streams[stream] });
        DeviceView { channels: self.channels.update(chan, ChannelView { streams, ..c }), ..self }
    }

    /// After the gain of a stream was set to `internal`. An M1K has no gains,
    /// and a CEE no others than powers of two up to 64. The transfers of a CEE
    /// rest in the meantime.
    pub open spec fn gained(self, chan: int, stream: int, internal: i32) -> DeviceView {
        let c = self.channels[chan];
        match self.backend {
            BackendView::Test(t) => {
                let set = (c.id, c.streams[stream].id, internal);
                let d = DeviceView {
                    backend: BackendView::Test(
                        TestView { gain_sets: t.gain_sets.push(set), ..t },
                    ),
                    ..self
                };
                let e = if internal >= 1 {
                    d.with_gain(chan, stream, internal as u32)
                } else {
                    d
                };
                e.telling(e.gain_message(chan, stream))
            },
            BackendView::M1k(_) => self,
            BackendView::Cee(_) => match (gain_line(chan, stream), gain_code(internal)) {
                (Some(line), Some(code)) => {
                    let d = self.with_gain(chan, stream, internal as u32);
                    let e = if d.capture_state {
                        d.pause_hook()
                    } else {
                        d
                    };
                    let f = e.doing(sends(0x65, code, line));
                    let g = if f.capture_state {
                        f.start_hook()
                    } else {
                        f
                    };
                    g.telling(g.gain_message(chan, stream))
                },
                _ => self,
            },
        }
    }

    /// After the current limit was set. A CEE knows three limits.
    pub open spec fn limited(self, limit: u32) -> DeviceView {
        match self.backend {
            BackendView::Test(t) => DeviceView {
                backend: BackendView::Test(
                    TestView { current_limits: t.current_limits.push(limit), ..t },
                ),
                ..self
            },
            BackendView::M1k(_) => self,
            BackendView::Cee(b) => match limit_codes(b, limit) {
                Some((x, y)) => DeviceView {
                    current_limit: limit,
                    ..self.doing(EffectView::Control(asked(0x15, x, y, 0)))
                },
                None => self,
            },
        }
    }

    /// How much later than the next output sample a new source starts.
    pub open spec fn start_delay(self) -> int {
        if self.backend is Test {
            0
        } else {
            1
        }
    }

    /// After the mode of the source of a channel came to the hardware.
    pub open spec fn mode_followed(self, chan: int, mode: u32) -> DeviceView {
        match self.backend {
            BackendView::M1k(b) => if b.m_mode[chan] == mode {
                self
            } else if self.capture_state {
                DeviceView {
                    backend: BackendView::M1k(b.with_mode(chan, mode)),
                    out: self.out + mode_requests(chan, mode),
                    ..self
                }
            } else {
                DeviceView {
                    backend: BackendView::M1k(
                        M1kView { m_mode: b.m_mode.update(chan, mode), ..b },
                    ),
                    ..self
                }
            },
            _ => self,
        }
    }

    /// After a source took the place of that of a channel.
    pub open spec fn with_output(self, chan: int, source: SourceView, reply: PhaseReply) -> DeviceView {
        let c = self.channels[chan];
        let prev = match c.source {
            Some(s) => Some(s.kind),
            None => None,
        };
        let s = SourceView {
            kind: started(source.kind, self.capture_o, prev, reply),
            start_sample: (self.capture_o + self.start_delay()) as u64,
            ..source
        };
        DeviceView {
            channels: self.channels.update(chan, ChannelView { source: Some(s), ..c }),
            ..self
        }.mode_followed(chan, source.mode).telling_output(chan)
    }
}

impl StreamingDevice {
    fn put_gain(&mut self, chan: usize, stream: usize, gain: u32)
        requires
            old(self).wf(),
            has_stream(old(self)@.channels, chan as int, stream as int),
        ensures
            final(self)@ == old(self)@.with_gain(chan as int, stream as int, gain),
            final(self).wf(),
    {
        let ghost before = self@;
        self.channels[chan].streams[stream].gain = gain;
        proof {
            let d = before.with_gain(chan as int, stream as int, gain);
            assert(self@.channels[chan as int].streams =~= d.channels[chan as int].streams);
            assert(self@.channels =~= d.channels);
            assert forall|k: int| 0 <= k < d.channels.len() implies channel_wf(
                #[trigger] d.channels[k],
                d.capture_samples,
            ) by {
                assert(channel_wf(before.channels[k], before.capture_samples));
            }
            crate::streaming::lemma_listeners_stay(before, d);
        }
    }

    /// Sets the gain of a stream. `internal` is in the terms of the device: the
    /// gain that was asked for times that which counts as one.
    pub fn set_gain(&mut self, chan: usize, stream: usize, internal: i32)
        requires
            old(self).wf(),
            has_stream(old(self)@.channels, chan as int, stream as int),
        ensures
            final(self)@ == old(self)@.gained(chan as int, stream as int, internal),
            final(self).wf(),
    {
        let ghost before = self@;
        assert(before.channels[chan as int] == self.channels@[chan as int]@);
        match &mut self.backend {
            Backend::Test(t) => {
                let cid = self.channels[chan].id.clone();
                let sid = self.channels[chan].streams[stream].id.clone();
                t.gain_sets.push((cid, sid, internal));
                proof {
                    let t0 = before.backend->Test_0;
                    let set = (
                        before.channels[chan as int].id,
                        before.channels[chan as int].streams[stream as int].id,
                        internal,
                    );
                    assert(self@.backend->Test_0.gain_sets =~= t0.gain_sets.push(set));
                    lemma_wf_frame(before, self@);
                }
                if internal >= 1 {
                    self.put_gain(chan, stream, internal as u32);
                }
                self.notify_gain_changed(chan, stream);
            },
            Backend::M1k(_) => {},
            Backend::Cee(_) => {
                self.set_internal_gain(chan, stream, internal);
            },
        }
    }

    fn set_internal_gain(&mut self, chan: usize, stream: usize, gain: i32)
        requires
            old(self).wf(),
            old(self)@.backend is Cee,
            has_stream(old(self)@.channels, chan as int, stream as int),
        ensures
            final(self)@ == old(self)@.gained(chan as int, stream as int, gain),
            final(self).wf(),
    {
        let line: u16 = if chan == 0 && stream == 1 {
            0
        } else if chan == 0 && stream == 0 {
            1
        } else if chan == 1 && stream == 0 {
            2
        } else if chan == 1 && stream == 1 {
            3
        } else {
            return;
        };
        let code: u16 = if gain == 1 {
            0
        } else if gain == 2 {
            4
        } else if gain == 4 {
            8
        } else if gain == 8 {
            12
        } else if gain == 16 {
            16
        } else if gain == 32 {
            20
        } else if gain == 64 {
            24
        } else {
            return;
        };
        self.put_gain(chan, stream, gain as u32);
        let was_capturing = self.capture_state;
        if was_capturing {
            self.on_pause_capture();
        }
        let ghost before = self@;
        enqueue(&mut self.out, Effect::Control(tell(0x65, code, line)));
        proof {
            lemma_wf_frame(before, self@);
        }
        if was_capturing {
            self.on_start_capture();
        }
        self.notify_gain_changed(chan, stream);
    }

    pub fn set_current_limit(&mut self, limit: u32)
        requires
            old(self).wf(),
        ensures
            final(self)@ == old(self)@.limited(limit),
            final(self).wf(),
    {
        match &mut self.backend {
            Backend::Test(t) => {
                t.current_limits.push(limit);
            },
            Backend::M1k(_) => {},
            Backend::Cee(b) => {
                let (x, y): (i16, i16) = if limit == 200 {
                    (b.cal.dac200_a, b.cal.dac200_b)
                } else if limit == 400 {
                    (b.cal.dac400_a, b.cal.dac400_b)
                } else if limit == 2000 {
                    (0, 0)
                } else {
                    return;
                };
                enqueue(
                    &mut self.out,
                    Effect::Control(
                        ask(
                            0x15,
                            #[verifier::truncate]
                            (x as u16),
                            #[verifier::truncate]
                            (y as u16),
                            0,
                        ),
                    ),
                );
                self.current_limit = limit;
            },
        }
        proof {
            lemma_wf_frame(old(self)@, self@);
        }
    }

    /// What `set_output` has to be told about this source.
    pub fn phase_request(&self, chan: usize, source: &OutputSource) -> (r: PhaseRequest)
        requires
            self.wf(),
            source.wf(),
            chan < self@.channels.len(),
        ensures
            r == crate::source::phase_needed(
                source@.kind,
                self@.capture_o,
                match self@.channels[chan as int].source {
                    Some(s) => Some(s.kind),
                    None => None,
                },
            ),
    {
        assert(channel_wf(self@.channels[chan as int], self@.capture_samples));
        assert(self@.channels[chan as int] == self.channels@[chan as int]@);
        source.phase_request(self.capture_o, &self.channels[chan].source)
    }

    /// Puts a source in place of that of a channel. `reply` answers
    /// `phase_request`.
    pub fn set_output(&mut self, chan: usize, source: OutputSource, reply: PhaseReply)
        requires
            old(self).wf(),
            source.wf(),
            chan < old(self)@.channels.len(),
            old(self)@.capture_o <= i64::MAX,
        ensures
            final(self)@ == old(self)@.with_output(chan as int, source@, reply),
            final(self).wf(),
    {
        let ghost before = self@;
        assert(before.channels[chan as int] == self.channels@[chan as int]@);
        let mut source = source;
        let delay: u64 = match &self.backend {
            Backend::Test(_) => 0,
            _ => 1,
        };
        source.initialize(self.capture_o, &self.channels[chan].source, reply);
        source.start_sample = self.capture_o + delay;
        let mode = source.mode;
        self.channels[chan].source = Some(source);
        let ghost placed = self@;
        proof {
            let c = before.channels[chan as int];
            assert(placed.channels =~= before.channels.update(
                chan as int,
                ChannelView { source: Some(source@), ..c },
            ));
            assert forall|k: int| 0 <= k < placed.channels.len() implies channel_wf(
                #[trigger] placed.channels[k],
                placed.capture_samples,
            ) by {
                assert(channel_wf(before.channels[k], before.capture_samples));
            }
            crate::streaming::lemma_listeners_stay(before, placed);
        }
        match &mut self.backend {
            Backend::M1k(b) => {
                if b.m_mode[chan] != mode {
                    if self.capture_state {
                        b.set_mode(chan, mode, &mut self.out);
                    } else {
                        b.m_mode[chan] = mode;
                        proof {
                            let b0 = placed.backend->M1k_0;
                            assert(self@.backend->M1k_0.m_mode =~= b0.m_mode.update(
                                chan as int,
                                mode,
                            ));
                        }
                    }
                }
            },
            _ => {},
        }
        proof {
            lemma_wf_frame(placed, self@);
        }
        self.notify_output_changed(chan);
    }
}

// ---- the test device ----

/// The shortest time of a sample of a test device, and the time that it starts
/// with, in binary64.
pub const TEST_MIN_BITS: u64 = 0x3ee4_f8b5_88e3_68f1;

pub const TEST_TIME_BITS: u64 = 0x3f1a_36e2_eb1c_432d;

/// The time that 1000 such samples take, in binary32.
pub const TEST_LENGTH_BITS: u32 = 0x3dcc_cccc;

/// A device with two channels and no hardware.
pub open spec fn test_device(serial: Seq<char>) -> DeviceView {
    let none = Range { min: Single { bits: 0 }, max: Single { bits: 0 } };
    DeviceView {
        model: "com.nonolithlabs.test"@,
        hw_version: "T1"@,
        fw_version: "1.0"@,
        serial,
        connections: Seq::empty(),
        channels: Seq::empty(),
        listeners: Seq::empty(),
        dev_mode: 0,
        raw_mode: false,
        capture_state: false,
        capture_done: false,
        capture_length: Single { bits: 0 },
        capture_samples: 0,
        capture_continuous: false,
        sample_time: Double { bits: TEST_TIME_BITS },
        min_sample_time: Double { bits: TEST_MIN_BITS },
        capture_i: 0,
        capture_o: 0,
        current_limit: 200,
        backend: BackendView::Test(
            TestView {
                resets: 0,
                starts: 0,
                pauses: 0,
                gain_sets: Seq::empty(),
                current_limits: Seq::empty(),
            },
        ),
        out: Seq::empty(),
    }.arranged(
        ConfigRequest {
            mode: 0,
            sample_time: Double { bits: TEST_TIME_BITS },
            samples: 1000,
            continuous: false,
            raw: false,
        },
        Timing {
            sample_time: Double { bits: TEST_TIME_BITS },
            length: Single { bits: TEST_LENGTH_BITS },
            per: 0,
            packets: 0,
            range_a: none,
            range_b: none,
        },
    )
}

pub fn make_test_device(serial: &str) -> (r: StreamingDevice)
    ensures
        r@ == test_device(serial@),
        r.wf(),
{
    let none = Range { min: Single { bits: 0 }, max: Single { bits: 0 } };
    let mut r = StreamingDevice {
        model: "com.nonolithlabs.test".to_owned(),
        hw_version: "T1".to_owned(),
        fw_version: "1.0".to_owned(),
        serial: serial.to_owned(),
        connections: Vec::new(),
        channels: Vec::new(),
        listeners: Vec::new(),
        dev_mode: 0,
        raw_mode: false,
        capture_state: false,
        capture_done: false,
        capture_length: Single { bits: 0 },
        capture_samples: 0,
        capture_continuous: false,
        sample_time: Double { bits: TEST_TIME_BITS },
        min_sample_time: Double { bits: TEST_MIN_BITS },
        capture_i: 0,
        capture_o: 0,
        current_limit: 200,
        backend: Backend::Test(
            TestBackend {
                resets: 0,
                starts: 0,
                pauses: 0,
                gain_sets: Vec::new(),
                current_limits: Vec::new(),
            },
        ),
        out: Vec::new(),
    };
    assert(r@.channels =~= Seq::empty());
    assert(r@.listeners =~= Seq::empty());
    assert(r@.connections =~= Seq::empty());
    assert(r@.out =~= Seq::empty());
    assert(r@.backend->Test_0 =~= TestView {
        resets: 0,
        starts: 0,
        pauses: 0,
        gain_sets: Seq::empty(),
        current_limits: Seq::empty(),
    });
    r.arrange(
        ConfigRequest {
            mode: 0,
            sample_time: Double { bits: TEST_TIME_BITS },
            samples: 1000,
            continuous: false,
            raw: false,
        },
        Timing {
            sample_time: Double { bits: TEST_TIME_BITS },
            length: Single { bits: TEST_LENGTH_BITS },
            per: 0,
            packets: 0,
            range_a: none,
            range_b: none,
        },
    );
    r
}

/// The time that a sample of a test device takes when `wanted` is asked for.
pub fn test_sample_time(wanted: Double) -> (r: Double)
    ensures
        r == (if (Double { bits: TEST_MIN_BITS }).above(wanted) {
            Double { bits: TEST_MIN_BITS }
        } else {
            wanted
        }),
{
    let least = Double { bits: TEST_MIN_BITS };
    if least.gt(wanted) {
        least
    } else {
        wanted
    }
}

} // verus!
