//! Streaming devices: channels of sampled streams, their ring buffers, the
//! state of the capture, the output sources and the listeners.

use crate::effect::{effects, Effect, EffectView};
use crate::float::{Double, Single, NAN_BITS};
use crate::listener::{Listener, ListenerView};
use crate::source::{OutputSource, SourceView};
use crate::usb::cee::CeeBackend;
use crate::usb::m1k::{M1kBackend, M1kView};
use vstd::prelude::*;
use vstd::string::*;

verus! {

/// No more samples than this are counted: the largest number of 64 bits with sign.
pub const COUNT_LIMIT: u64 = 0x7fff_ffff_ffff_ffff;

/// One measured quantity of a channel.
#[derive(Debug)]
pub struct Stream {
    pub id: String,
    pub display_name: String,
    pub units: String,
    pub min: Single,
    pub max: Single,
    /// The mode in which a source drives this quantity, or 0.
    pub output_mode: u32,
    /// The gain that the device is set to.
    pub gain: u32,
    /// The gain that counts as one.
    pub normal_gain: u32,
    pub uncertainty: Single,
    /// The ring buffer.
    pub data: Vec<Single>,
}

#[verifier::ext_equal]
pub ghost struct StreamView {
    pub id: Seq<char>,
    pub display_name: Seq<char>,
    pub units: Seq<char>,
    pub min: Single,
    pub max: Single,
    pub output_mode: u32,
    pub gain: u32,
    pub normal_gain: u32,
    pub uncertainty: Single,
    pub data: Seq<Single>,
}

impl View for Stream {
    type V = StreamView;

    open spec fn view(&self) -> StreamView {
        StreamView {
            id: self.id@,
            display_name: self.display_name@,
            units: self.units@,
            min: self.min,
            max: self.max,
            output_mode: self.output_mode,
            gain: self.gain,
            normal_gain: self.normal_gain,
            uncertainty: self.uncertainty,
            data: self.data@,
        }
    }
}

#[derive(Debug)]
pub struct Channel {
    pub id: String,
    pub display_name: String,
    pub streams: Vec<Stream>,
    pub source: Option<OutputSource>,
}

#[verifier::ext_equal]
pub ghost struct ChannelView {
    pub id: Seq<char>,
    pub display_name: Seq<char>,
    pub streams: Seq<StreamView>,
    pub source: Option<SourceView>,
}

/// What a source slot holds.
pub open spec fn source_view(s: Option<OutputSource>) -> Option<SourceView> {
    match s {
        Some(x) => Some(x@),
        None => None,
    }
}

pub open spec fn stream_views(v: Seq<Stream>) -> Seq<StreamView> {
    v.map_values(|s: Stream| s@)
}

impl View for Channel {
    type V = ChannelView;

    open spec fn view(&self) -> ChannelView {
        ChannelView {
            id: self.id@,
            display_name: self.display_name@,
            streams: stream_views(self.streams@),
            source: source_view(self.source),
        }
    }
}

pub open spec fn channel_views(v: Seq<Channel>) -> Seq<ChannelView> {
    v.map_values(|c: Channel| c@)
}

/// A device that only counts what it is asked to do.
#[derive(Debug)]
pub struct TestBackend {
    pub resets: u32,
    pub starts: u32,
    pub pauses: u32,
    pub gain_sets: Vec<(String, String, i32)>,
    pub current_limits: Vec<u32>,
}

#[verifier::ext_equal]
pub ghost struct TestView {
    pub resets: u32,
    pub starts: u32,
    pub pauses: u32,
    pub gain_sets: Seq<(Seq<char>, Seq<char>, i32)>,
    pub current_limits: Seq<u32>,
}

pub open spec fn gain_set_views(v: Seq<(String, String, i32)>) -> Seq<(Seq<char>, Seq<char>, i32)> {
    v.map_values(|g: (String, String, i32)| (g.0@, g.1@, g.2))
}

impl View for TestBackend {
    type V = TestView;

    open spec fn view(&self) -> TestView {
        TestView {
            resets: self.resets,
            starts: self.starts,
            pauses: self.pauses,
            gain_sets: gain_set_views(self.gain_sets@),
            current_limits: self.current_limits@,
        }
    }
}

/// What is particular to the hardware.
#[derive(Debug)]
pub enum Backend {
    Test(TestBackend),
    M1k(M1kBackend),
    Cee(CeeBackend),
}

pub ghost enum BackendView {
    Test(TestView),
    M1k(M1kView),
    Cee(CeeBackend),
}

impl View for Backend {
    type V = BackendView;

    open spec fn view(&self) -> BackendView {
        match *self {
            Backend::Test(t) => BackendView::Test(t@),
            Backend::M1k(m) => BackendView::M1k(m@),
            Backend::Cee(c) => BackendView::Cee(c),
        }
    }
}

#[derive(Debug)]
pub struct StreamingDevice {
    pub model: String,
    pub hw_version: String,
    pub fw_version: String,
    pub serial: String,
    /// The attached clients.
    pub connections: Vec<u64>,
    pub channels: Vec<Channel>,
    pub listeners: Vec<Listener>,
    pub dev_mode: u32,
    pub raw_mode: bool,
    pub capture_state: bool,
    pub capture_done: bool,
    pub capture_length: Single,
    /// The size of the ring buffers.
    pub capture_samples: u32,
    pub capture_continuous: bool,
    pub sample_time: Double,
    pub min_sample_time: Double,
    /// Input samples so far.
    pub capture_i: u64,
    /// Output samples so far.
    pub capture_o: u64,
    pub current_limit: u32,
    pub backend: Backend,
    /// What is to be done, in order.
    pub out: Vec<Effect>,
}

#[verifier::ext_equal]
pub ghost struct DeviceView {
    pub model: Seq<char>,
    pub hw_version: Seq<char>,
    pub fw_version: Seq<char>,
    pub serial: Seq<char>,
    pub connections: Seq<u64>,
    pub channels: Seq<ChannelView>,
    pub listeners: Seq<ListenerView>,
    pub dev_mode: u32,
    pub raw_mode: bool,
    pub capture_state: bool,
    pub capture_done: bool,
    pub capture_length: Single,
    pub capture_samples: u32,
    pub capture_continuous: bool,
    pub sample_time: Double,
    pub min_sample_time: Double,
    pub capture_i: u64,
    pub capture_o: u64,
    pub current_limit: u32,
    pub backend: BackendView,
    pub out: Seq<EffectView>,
}

pub open spec fn listener_views(v: Seq<Listener>) -> Seq<ListenerView> {
    v.map_values(|l: Listener| l@)
}

impl View for StreamingDevice {
    type V = DeviceView;

    open spec fn view(&self) -> DeviceView {
        DeviceView {
            model: self.model@,
            hw_version: self.hw_version@,
            fw_version: self.fw_version@,
            serial: self.serial@,
            connections: self.connections@,
            channels: channel_views(self.channels@),
            listeners: listener_views(self.listeners@),
            dev_mode: self.dev_mode,
            raw_mode: self.raw_mode,
            capture_state: self.capture_state,
            capture_done: self.capture_done,
            capture_length: self.capture_length,
            capture_samples: self.capture_samples,
            capture_continuous: self.capture_continuous,
            sample_time: self.sample_time,
            min_sample_time: self.min_sample_time,
            capture_i: self.capture_i,
            capture_o: self.capture_o,
            current_limit: self.current_limit,
            backend: self.backend@,
            out: effects(self.out@),
        }
    }
}

/// Whether there is a stream `(c, s)`.
pub open spec fn has_stream(channels: Seq<ChannelView>, c: int, s: int) -> bool {
    0 <= c < channels.len() && 0 <= s < channels[c].streams.len()
}

/// What holds of a channel at all times: its buffers have the size that the
/// capture was configured with, and its source is well formed.
pub open spec fn channel_wf(c: ChannelView, samples: u32) -> bool {
    &&& forall|s: int| 0 <= s < c.streams.len() ==> (#[trigger] c.streams[s]).data.len() == samples
    &&& c.source matches Some(x) ==> x.kind.wf()
}

impl DeviceView {
    /// What holds of a device at all times.
    pub open spec fn wf(self) -> bool {
        &&& self.capture_i <= COUNT_LIMIT
        &&& self.backend is M1k ==> self.channels.len() <= 2
        &&& forall|c: int|
            0 <= c < self.channels.len() ==> channel_wf(
                #[trigger] self.channels[c],
                self.capture_samples,
            )
        &&& forall|l: int|
            0 <= l < self.listeners.len() ==> (#[trigger] self.listeners[l]).wf(self.channels)
    }

    // ---- ring buffer ----

    /// Whether the buffer of the size `capture_samples` has lost sample `i`.
    pub open spec fn lost(self, i: int) -> bool {
        self.capture_i > self.capture_samples && i <= self.capture_i - self.capture_samples
    }

    /// Sample `i` of a stream, or NaN.
    pub open spec fn sample(self, chan: int, stream: int, i: int) -> Single {
        let data = self.channels[chan].streams[stream].data;
        if data.len() == 0 || self.capture_samples == 0 || i >= self.capture_i || self.lost(i) {
            Single { bits: NAN_BITS }
        } else {
            data[i % (self.capture_samples as int)]
        }
    }

    /// `count` samples of a stream from `start` on, if the buffer has them.
    pub open spec fn window(self, chan: int, stream: int, start: int, count: int) -> Option<
        Seq<Single>,
    > {
        let data = self.channels[chan].streams[stream].data;
        if data.len() == 0 || self.capture_samples == 0 || start + count > self.capture_i
            || self.lost(start) {
            None
        } else {
            Some(
                Seq::new(
                    count as nat,
                    |i: int| data[(start + i) % (self.capture_samples as int)],
                ),
            )
        }
    }

    /// Whether a sample that comes now is stored.
    pub open spec fn storing(self) -> bool {
        self.capture_samples > 0 && (self.capture_continuous || self.capture_i
            < self.capture_samples)
    }

    /// After `v` came for a stream.
    pub open spec fn with_sample(self, chan: int, stream: int, v: Single) -> DeviceView {
        let c = self.channels[chan];
        let s = c.streams[stream];
        if s.data.len() == 0 || !self.storing() {
            self
        } else {
            let data = s.data.update(self.capture_i as int % (self.capture_samples as int), v);
            let streams = c.streams.update(stream, StreamView { data, ..s });
            DeviceView {
                channels: self.channels.update(chan, ChannelView { streams, ..c }),
                ..self
            }
        }
    }

    /// The number of the oldest sample in the buffer.
    pub open spec fn oldest(self) -> int {
        if self.capture_i < self.capture_samples {
            0
        } else {
            self.capture_i - self.capture_samples
        }
    }
}

impl StreamingDevice {
    pub open spec fn wf(self) -> bool {
        self@.wf()
    }

    /// Stores a sample. Once every stream has its sample, `sample_done` goes on
    /// to the next.
    pub fn put(&mut self, chan: usize, stream: usize, v: Single)
        requires
            old(self).wf(),
            has_stream(old(self)@.channels, chan as int, stream as int),
        ensures
            final(self).wf(),
            final(self)@ == old(self)@.with_sample(chan as int, stream as int, v),
    {
        let ghost before = self@;
        assert(channel_wf(before.channels[chan as int], before.capture_samples));
        assert(before.channels[chan as int].streams[stream as int].data.len()
            == before.capture_samples);
        let caps: u64 = self.capture_samples as u64;
        let i: u64 = self.capture_i;
        if self.channels[chan].streams[stream].data.is_empty() || caps == 0 || (i >= caps
            && !self.capture_continuous) {
            return;
        }
        let at: usize = (i % caps) as usize;
        self.channels[chan].streams[stream].data[at] = v;
        proof {
            let after = before.with_sample(chan as int, stream as int, v);
            let c = after.channels[chan as int];
            assert(self@.channels[chan as int].streams =~= c.streams);
            assert(self@.channels =~= after.channels);
            assert forall|k: int| 0 <= k < after.channels.len() implies channel_wf(
                #[trigger] after.channels[k],
                after.capture_samples,
            ) by {
                assert(channel_wf(before.channels[k], before.capture_samples));
            }
            lemma_listeners_stay(before, after);
        }
    }

    /// Sample `i` of a stream; NaN where it is not there yet or not any more.
    pub fn get(&self, chan: usize, stream: usize, i: u64) -> (r: Single)
        requires
            self.wf(),
            has_stream(self@.channels, chan as int, stream as int),
        ensures
            r == self@.sample(chan as int, stream as int, i as int),
    {
        assert(channel_wf(self@.channels[chan as int], self@.capture_samples));
        assert(self@.channels[chan as int].streams[stream as int].data.len()
            == self@.capture_samples);
        let caps: u64 = self.capture_samples as u64;
        let data = &self.channels[chan].streams[stream].data;
        if data.is_empty() || caps == 0 || i >= self.capture_i || (self.capture_i > caps && i
            <= self.capture_i - caps) {
            Single { bits: NAN_BITS }
        } else {
            data[(i % caps) as usize]
        }
    }

    /// The `count` samples of a stream from `start` on, of which one output
    /// sample is the mean; nothing where they are not all there.
    pub fn resample(&self, chan: usize, stream: usize, start: u64, count: u64) -> (r: Option<
        Vec<Single>,
    >)
        requires
            self.wf(),
            has_stream(self@.channels, chan as int, stream as int),
        ensures
            match r {
                Some(v) => self@.window(chan as int, stream as int, start as int, count as int)
                    == Some(v@),
                None => self@.window(chan as int, stream as int, start as int, count as int) is None,
            },
    {
        assert(channel_wf(self@.channels[chan as int], self@.capture_samples));
        assert(self@.channels[chan as int].streams[stream as int].data.len()
            == self@.capture_samples);
        let caps: u64 = self.capture_samples as u64;
        let data = &self.channels[chan].streams[stream].data;
        if data.is_empty() || caps == 0 || count > self.capture_i || start > self.capture_i - count
            || (self.capture_i > caps && start <= self.capture_i - caps) {
            return None;
        }
        let mut v: Vec<Single> = Vec::new();
        let mut k: u64 = 0;
        while k < count
            invariant
                k <= count,
                start + count <= COUNT_LIMIT,
                caps > 0,
                caps == self.capture_samples,
                data@.len() == caps,
                v@ == Seq::new(k as nat, |i: int| data@[(start + i) % (caps as int)]),
            decreases count - k,
        {
            v.push(data[((start + k) % caps) as usize]);
            k += 1;
            assert(v@ =~= Seq::new(k as nat, |i: int| data@[(start + i) % (caps as int)]));
        }
        assert(v@ =~= self@.window(chan as int, stream as int, start as int, count as int).unwrap());
        Some(v)
    }

    pub fn buffer_min(&self) -> (r: u64)
        ensures
            r == self@.oldest(),
    {
        if self.capture_i < self.capture_samples as u64 {
            0
        } else {
            self.capture_i - self.capture_samples as u64
        }
    }

    pub fn buffer_max(&self) -> (r: u64)
        ensures
            r == self@.capture_i,
    {
        self.capture_i
    }

    pub fn sample_done(&mut self)
        requires
            old(self).wf(),
            old(self)@.capture_i < COUNT_LIMIT,
        ensures
            final(self).wf(),
            final(self)@ == (DeviceView { capture_i: (old(self)@.capture_i + 1) as u64, ..old(self)@ }),
    {
        self.capture_i = self.capture_i + 1;
    }
}

/// Whether two devices have the same streams, though not the same samples.
pub open spec fn same_shape(a: Seq<ChannelView>, b: Seq<ChannelView>) -> bool {
    &&& a.len() == b.len()
    &&& forall|c: int|
        0 <= c < a.len() ==> (#[trigger] a[c]).streams.len() == (#[trigger] b[c]).streams.len()
}

pub proof fn lemma_listeners_stay(a: DeviceView, b: DeviceView)
    requires
        a.wf(),
        same_shape(a.channels, b.channels),
        b.listeners == a.listeners,
    ensures
        forall|l: int|
            0 <= l < b.listeners.len() ==> (#[trigger] b.listeners[l]).wf(b.channels),
{
    assert forall|l: int| 0 <= l < b.listeners.len() implies (#[trigger] b.listeners[l]).wf(
        b.channels,
    ) by {
        assert(a.listeners[l].wf(a.channels));
        crate::listener::lemma_same_shape(a.listeners[l], a.channels, b.channels);
    }
}

// ---- laws ----

proof fn lemma_slots_differ(i: int, j: int, n: int)
    requires
        0 <= i < j,
        j - i < n,
    ensures
        i % n != j % n,
{
    if i % n == j % n {
        vstd::arithmetic::div_mod::lemma_fundamental_div_mod(i, n);
        vstd::arithmetic::div_mod::lemma_fundamental_div_mod(j, n);
        assert(j - i == n * (j / n) - n * (i / n));
        assert(n * (j / n) - n * (i / n) == n * (j / n - i / n)) by (nonlinear_arith);
        let q = j / n - i / n;
        assert(q >= 1) by (nonlinear_arith)
            requires
                n * q > 0,
                n > 0,
        ;
        assert(n * q >= n) by (nonlinear_arith)
            requires
                q >= 1,
                n > 0,
        ;
    }
}

/// A device one sample on, after `v` came for a stream.
pub open spec fn one_on(d: DeviceView, chan: int, stream: int, v: Single) -> DeviceView {
    DeviceView { capture_i: (d.capture_i + 1) as u64, ..d.with_sample(chan, stream, v) }
}

/// The sample that came last is read back, unless the buffer has stopped taking
/// samples or has room for one only.
pub proof fn law_last_sample_reads_back(d: DeviceView, chan: int, stream: int, v: Single)
    requires
        d.wf(),
        has_stream(d.channels, chan, stream),
        d.storing(),
        d.capture_i < d.capture_samples || d.capture_samples > 1,
    ensures
        one_on(d, chan, stream, v).sample(chan, stream, d.capture_i as int) == v,
{
    assert(channel_wf(d.channels[chan], d.capture_samples));
    assert(d.channels[chan].streams[stream].data.len() == d.capture_samples);
}

/// A sample that was in the buffer is still there one sample on, unless the
/// buffer has lost it; and the other streams are as they were.
pub proof fn law_samples_stay(
    d: DeviceView,
    chan: int,
    stream: int,
    v: Single,
    c: int,
    s: int,
    i: int,
)
    requires
        d.wf(),
        has_stream(d.channels, chan, stream),
        has_stream(d.channels, c, s),
        0 <= i < d.capture_i,
        !one_on(d, chan, stream, v).lost(i),
    ensures
        one_on(d, chan, stream, v).sample(c, s, i) == d.sample(c, s, i),
{
    let caps = d.capture_samples as int;
    assert(channel_wf(d.channels[chan], d.capture_samples));
    assert(d.channels[chan].streams[stream].data.len() == d.capture_samples);
    assert(channel_wf(d.channels[c], d.capture_samples));
    assert(d.channels[c].streams[s].data.len() == d.capture_samples);
    if d.storing() {
        lemma_slots_differ(i, d.capture_i as int, caps);
    }
}

/// Samples that come once the buffer of a capture that does not go on is full
/// are counted, and change nothing else.
pub proof fn law_full_buffer_drops_samples(d: DeviceView, chan: int, stream: int, v: Single)
    requires
        !d.capture_continuous,
        d.capture_i >= d.capture_samples,
    ensures
        one_on(d, chan, stream, v) == (DeviceView { capture_i: (d.capture_i + 1) as u64, ..d }),
{
}

/// The samples that can be read lie between `buffer_min` and `buffer_max`.
pub proof fn law_readable_range(d: DeviceView, chan: int, stream: int, i: int)
    requires
        d.wf(),
        has_stream(d.channels, chan, stream),
        0 <= i,
        !d.sample(chan, stream, i).nan(),
    ensures
        d.oldest() <= i < d.capture_i,
{
}

impl DeviceView {
    /// Whether sample `i` of a stream has come and is still in the buffer.
    pub open spec fn available(self, chan: int, stream: int, i: int) -> bool {
        &&& self.channels[chan].streams[stream].data.len() > 0
        &&& self.capture_samples > 0
        &&& i < self.capture_i
        &&& self.capture_i <= self.capture_samples || i > self.capture_i - self.capture_samples
    }
}

/// A window is there if and only if all of its samples are, and it holds them in
/// order; a window of one sample is that sample; and a sample that is not there reads
/// as the NaN that a missing window stands for.
pub proof fn law_window_holds_its_samples(
    d: DeviceView,
    chan: int,
    stream: int,
    start: int,
    count: int,
)
    requires
        d.wf(),
        has_stream(d.channels, chan, stream),
        0 <= start,
        1 <= count,
    ensures
        d.window(chan, stream, start, count) is Some <==> forall|i: int|
            start <= i < start + count ==> #[trigger] d.available(chan, stream, i),
        d.window(chan, stream, start, count) matches Some(w) ==> {
            &&& w.len() == count
            &&& forall|k: int|
                0 <= k < count ==> #[trigger] w[k] == d.sample(chan, stream, start + k)
        },
        d.window(chan, stream, start, 1) == (if d.available(chan, stream, start) {
            Some(seq![d.sample(chan, stream, start)])
        } else {
            None
        }),
        !d.available(chan, stream, start) ==> d.sample(chan, stream, start) == (Single {
            bits: NAN_BITS,
        }),
{
    if forall|i: int| start <= i < start + count ==> #[trigger] d.available(chan, stream, i) {
        assert(d.available(chan, stream, start));
        assert(d.available(chan, stream, start + count - 1));
    }
    if d.available(chan, stream, start) {
        assert(d.window(chan, stream, start, 1)->Some_0 =~= seq![d.sample(chan, stream, start)]);
    }
}

} // verus!
