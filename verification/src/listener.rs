//! Listeners: samples of some streams, thinned out and from a trigger on, for
//! one client.

use crate::float::{Double, Single};
use crate::command::string_needed;
use crate::jsonutil::{
    add_element, array_at, bool_at, field, int_at, json_bool_prop_def, json_float_prop,
    json_int_prop, json_int_prop_def, json_string_prop, json_string_prop_def, lemma_trees_at,
    members, put, put_bool, put_number, put_text, string_at, tree, trees, Error, Json, JsonTree,
    Number,
};
use crate::source::{float_needed, int_needed, modulo, zero_after, KindView, PhaseZero};
use crate::streaming::{has_stream, same_shape, ChannelView, DeviceView, StreamingDevice};
use crate::text::{same, texts};
use crate::wire::{
    from_le16, from_le32, le16, le32, lemma_le16_back, lemma_le32_back, lemma_number_bytes,
    number_bytes, push_le16, push_le32,
};
use vstd::prelude::*;
use vstd::string::*;

verus! {

#[derive(Clone, Copy, Debug, PartialEq, Eq, Structural)]
pub enum TriggerType {
    Off,
    /// A sample rises above a level.
    InStream,
    /// An output source is at phase zero.
    OutSource,
}

/// Where the samples go.
#[derive(Clone, Copy, Debug, PartialEq, Eq, Structural)]
pub enum Sink {
    /// To a client, as binary frames or as documents.
    Ws { client: u64, binary: bool },
    /// Into the body of a response, as rows of text.
    Rest { stream: u64 },
}

#[derive(Debug)]
pub struct Listener {
    pub id: i64,
    /// Channel and stream.
    pub streams: Vec<(usize, usize)>,
    /// Input samples per output sample.
    pub decimate_factor: u64,
    /// Next input sample.
    pub index: u64,
    /// Next output sample.
    pub out_index: u64,
    /// Output samples in all, if positive.
    pub count: i64,
    pub sink: Sink,
    pub trigger_type: TriggerType,
    pub triggered: bool,
    pub trigger_repeat: bool,
    pub trigger_channel: usize,
    pub trigger_level: Single,
    pub trigger_stream: (usize, usize),
    pub trigger_holdoff: i64,
    pub trigger_offset: i64,
    pub trigger_force: u64,
    pub trigger_force_index: u64,
    pub trigger_subsample_error: Double,
}

#[verifier::ext_equal]
pub ghost struct ListenerView {
    pub id: i64,
    pub streams: Seq<(usize, usize)>,
    pub decimate_factor: u64,
    pub index: u64,
    pub out_index: u64,
    pub count: i64,
    pub sink: Sink,
    pub trigger_type: TriggerType,
    pub triggered: bool,
    pub trigger_repeat: bool,
    pub trigger_channel: usize,
    pub trigger_level: Single,
    pub trigger_stream: (usize, usize),
    pub trigger_holdoff: i64,
    pub trigger_offset: i64,
    pub trigger_force: u64,
    pub trigger_force_index: u64,
    pub trigger_subsample_error: Double,
}

impl View for Listener {
    type V = ListenerView;

    open spec fn view(&self) -> ListenerView {
        ListenerView {
            id: self.id,
            streams: self.streams@,
            decimate_factor: self.decimate_factor,
            index: self.index,
            out_index: self.out_index,
            count: self.count,
            sink: self.sink,
            trigger_type: self.trigger_type,
            triggered: self.triggered,
            trigger_repeat: self.trigger_repeat,
            trigger_channel: self.trigger_channel,
            trigger_level: self.trigger_level,
            trigger_stream: self.trigger_stream,
            trigger_holdoff: self.trigger_holdoff,
            trigger_offset: self.trigger_offset,
            trigger_force: self.trigger_force,
            trigger_force_index: self.trigger_force_index,
            trigger_subsample_error: self.trigger_subsample_error,
        }
    }
}

impl ListenerView {
    /// Whether the samples go to this client.
    pub open spec fn of_client(self, id: u64) -> bool {
        self.sink matches Sink::Ws { client, .. } && client == id
    }

    /// Whether the listener still waits for its trigger.
    pub open spec fn armed(self) -> bool {
        self.trigger_type != TriggerType::Off && !self.triggered
    }

    /// What holds of a listener of a device with these channels at all times.
    pub open spec fn wf(self, channels: Seq<ChannelView>) -> bool {
        &&& self.decimate_factor >= 1
        &&& self.out_index <= self.index
        &&& self.armed() ==> self.out_index == 0
        &&& forall|i: int|
            0 <= i < self.streams.len() ==> has_stream(
                channels,
                (#[trigger] self.streams[i]).0 as int,
                self.streams[i].1 as int,
            )
        &&& self.trigger_type == TriggerType::InStream ==> has_stream(
            channels,
            self.trigger_stream.0 as int,
            self.trigger_stream.1 as int,
        )
        &&& self.trigger_type == TriggerType::OutSource ==> self.trigger_channel < channels.len()
    }
}

pub proof fn lemma_same_shape(l: ListenerView, a: Seq<ChannelView>, b: Seq<ChannelView>)
    requires
        l.wf(a),
        same_shape(a, b),
    ensures
        l.wf(b),
{
    assert forall|i: int| 0 <= i < l.streams.len() implies has_stream(
        b,
        (#[trigger] l.streams[i]).0 as int,
        l.streams[i].1 as int,
    ) by {
        let c = l.streams[i].0 as int;
        assert(a[c].streams.len() == b[c].streams.len());
    }
    let c = l.trigger_stream.0 as int;
    if l.trigger_type == TriggerType::InStream {
        assert(a[c].streams.len() == b[c].streams.len());
    }
}

// ---- delivery ----

/// Where a listener is: the part of it that delivery changes.
#[derive(Clone, Copy, Debug, PartialEq, Eq, Structural)]
pub struct Cursor {
    pub index: u64,
    pub out_index: u64,
    pub triggered: bool,
    pub trigger_force_index: u64,
    pub trigger_subsample_error: Double,
}

/// A phase zero: the nearest whole sample, and how far from it the zero is.
#[derive(Clone, Copy, Debug, PartialEq, Eq, Structural)]
pub struct Zero {
    pub at: u64,
    pub error: Double,
}

/// Samples that are ready for a client. Each output sample is the mean of a
/// window of input samples, or NaN where these are gone.
#[derive(Debug)]
pub struct Update {
    pub sink: Sink,
    pub id: i64,
    /// Number of the first output sample.
    pub idx: u64,
    /// Number of its first input sample.
    pub sample_index: u64,
    /// Whether this is the start of a sweep that no trigger started.
    pub forced: bool,
    /// Whether this is the start of a sweep.
    pub triggered: bool,
    /// How far the trigger was from the first sample.
    pub subsample: Double,
    /// Whether nothing more will come.
    pub done: bool,
    /// Output samples per stream.
    pub chunks: u64,
    /// For each stream, for each output sample.
    pub windows: Vec<Vec<Option<Vec<Single>>>>,
}

#[verifier::ext_equal]
pub ghost struct UpdateView {
    pub sink: Sink,
    pub id: i64,
    pub idx: u64,
    pub sample_index: u64,
    pub forced: bool,
    pub triggered: bool,
    pub subsample: Double,
    pub done: bool,
    pub chunks: u64,
    pub windows: Seq<Seq<Option<Seq<Single>>>>,
}

pub open spec fn window_view(w: Option<Vec<Single>>) -> Option<Seq<Single>> {
    match w {
        Some(v) => Some(v@),
        None => None,
    }
}

pub open spec fn window_row(v: Seq<Option<Vec<Single>>>) -> Seq<Option<Seq<Single>>> {
    v.map_values(|w: Option<Vec<Single>>| window_view(w))
}

pub open spec fn window_rows(v: Seq<Vec<Option<Vec<Single>>>>) -> Seq<Seq<Option<Seq<Single>>>> {
    v.map_values(|r: Vec<Option<Vec<Single>>>| window_row(r@))
}

impl View for Update {
    type V = UpdateView;

    open spec fn view(&self) -> UpdateView {
        UpdateView {
            sink: self.sink,
            id: self.id,
            idx: self.idx,
            sample_index: self.sample_index,
            forced: self.forced,
            triggered: self.triggered,
            subsample: self.subsample,
            done: self.done,
            chunks: self.chunks,
            windows: window_rows(self.windows@),
        }
    }
}

/// What is to become of a listener.
#[derive(Clone, Copy, Debug, PartialEq, Eq, Structural)]
pub enum Next {
    /// It waits for more samples.
    Keep,
    /// It may have more to deliver at once.
    Again,
    /// It is over.
    Remove,
}

/// `x` as a sample number.
pub open spec fn counted(x: int) -> u64 {
    if x < 0 {
        0
    } else if x > u64::MAX {
        u64::MAX
    } else {
        x as u64
    }
}

/// `x` in the numbers of 64 bits without sign, as these go around.
pub open spec fn around(x: int) -> u64 {
    (x % 0x1_0000_0000_0000_0000) as u64
}

/// Whether sample `i` of a stream lies above `level`.
pub open spec fn high(d: DeviceView, stream: (usize, usize), level: Single, i: int) -> bool {
    d.sample(stream.0 as int, stream.1 as int, i).above(level)
}

/// The first sample, from `i` on, that lies above the level while the one
/// before it does not; where there is none, the first sample that has not come.
pub open spec fn rise(d: DeviceView, stream: (usize, usize), level: Single, i: int) -> int
    decreases d.capture_i - i,
{
    if i >= d.capture_i || (high(d, stream, level, i) && !high(d, stream, level, i - 1)) {
        i
    } else {
        rise(d, stream, level, i + 1)
    }
}

/// The phase zero of a source from `index` on; of a wave it is `wave`.
pub open spec fn zero_from(kind: KindView, index: u64, wave: Option<Zero>) -> Option<Zero> {
    match zero_after(kind, index) {
        PhaseZero::At(z) => Some(Zero { at: counted(z as int), error: Double { bits: 0 } }),
        PhaseZero::Wave { .. } => wave,
    }
}

impl ListenerView {
    pub open spec fn cursor(self) -> Cursor {
        Cursor {
            index: self.index,
            out_index: self.out_index,
            triggered: self.triggered,
            trigger_force_index: self.trigger_force_index,
            trigger_subsample_error: self.trigger_subsample_error,
        }
    }

    pub open spec fn at(self, c: Cursor) -> ListenerView {
        ListenerView {
            index: c.index,
            out_index: c.out_index,
            triggered: c.triggered,
            trigger_force_index: c.trigger_force_index,
            trigger_subsample_error: c.trigger_subsample_error,
            ..self
        }
    }

    /// Where the search for the trigger leads.
    pub open spec fn searched(self, d: DeviceView, wave: Option<Zero>) -> Cursor {
        let c = Cursor { trigger_subsample_error: Double { bits: 0 }, ..self.cursor() };
        match self.trigger_type {
            TriggerType::Off => c,
            TriggerType::InStream => {
                let k = rise(d, self.trigger_stream, self.trigger_level, self.index + 1);
                if k < d.capture_i {
                    Cursor { index: around(k + self.trigger_offset), triggered: true, ..c }
                } else {
                    Cursor {
                        index: counted(k),
                        triggered: self.trigger_force != 0 && counted(k) > self.trigger_force_index,
                        ..c
                    }
                }
            },
            TriggerType::OutSource => {
                match d.channels[self.trigger_channel as int].source {
                    None => c,
                    Some(source) => {
                        let zero = zero_from(source.kind, self.index, wave);
                        if zero is Some && d.capture_o >= zero->Some_0.at {
                            Cursor {
                                index: around(zero->Some_0.at + self.trigger_offset),
                                triggered: true,
                                trigger_subsample_error: zero->Some_0.error,
                                ..c
                            }
                        } else if self.trigger_force != 0 && d.capture_i
                            >= self.trigger_force_index {
                            Cursor { index: self.trigger_force_index, triggered: true, ..c }
                        } else {
                            c
                        }
                    },
                }
            },
        }
    }

    /// How many output samples can be made.
    pub open spec fn ready(self, d: DeviceView) -> int {
        if self.index + self.decimate_factor >= d.capture_i {
            0
        } else {
            let n = (d.capture_i - self.index) / (self.decimate_factor as int);
            if self.count > 0 && 0 <= self.count - self.out_index < n {
                self.count - self.out_index
            } else {
                n
            }
        }
    }

    /// Whether `n` more output samples are the last.
    pub open spec fn completes(self, n: int) -> bool {
        self.count > 0 && self.out_index + n >= self.count
    }

    /// The input of `n` output samples of every stream.
    pub open spec fn inputs(self, d: DeviceView, n: int) -> Seq<Seq<Option<Seq<Single>>>> {
        Seq::new(
            self.streams.len(),
            |s: int|
                Seq::new(
                    n as nat,
                    |k: int|
                        d.window(
                            self.streams[s].0 as int,
                            self.streams[s].1 as int,
                            self.index + k * self.decimate_factor,
                            self.decimate_factor as int,
                        ),
                ),
        )
    }

    /// What is sent of `n` output samples.
    pub open spec fn update(self, d: DeviceView, n: int) -> UpdateView {
        UpdateView {
            sink: self.sink,
            id: self.id,
            idx: self.out_index,
            sample_index: self.index,
            forced: self.out_index == 0 && self.trigger_force != 0 && self.index
                > self.trigger_force_index,
            triggered: self.out_index == 0 && self.triggered,
            subsample: self.trigger_subsample_error,
            done: self.completes(n) && !self.trigger_repeat,
            chunks: n as u64,
            windows: self.inputs(d, n),
        }
    }

    /// Where the listener is once `n` output samples are sent: past them, or
    /// armed again at the end of a sweep that repeats.
    pub open spec fn past(self, n: int) -> Cursor {
        let index = self.index + n * self.decimate_factor;
        if self.completes(n) && self.trigger_repeat && self.sink is Ws {
            Cursor {
                index: around(index + self.trigger_holdoff),
                out_index: 0,
                triggered: false,
                trigger_force_index: counted(
                    around(index + self.trigger_holdoff) + self.trigger_force,
                ),
                ..self.cursor()
            }
        } else {
            Cursor {
                index: index as u64,
                out_index: (self.out_index + n) as u64,
                ..self.cursor()
            }
        }
    }

    /// What becomes of the listener once `n` output samples are sent.
    pub open spec fn fate(self, n: int) -> Next {
        if !self.completes(n) {
            Next::Keep
        } else if self.trigger_repeat && self.sink is Ws {
            Next::Again
        } else {
            Next::Remove
        }
    }

    /// The listener as it looks for output samples: with its trigger searched
    /// for, where it waits for one.
    pub open spec fn looking(self, d: DeviceView, wave: Option<Zero>) -> ListenerView {
        if self.armed() {
            self.at(self.searched(d, wave))
        } else {
            self
        }
    }

    /// How many output samples it finds.
    pub open spec fn found(self, d: DeviceView, wave: Option<Zero>) -> int {
        let l = self.looking(d, wave);
        if l.armed() {
            0
        } else {
            l.ready(d)
        }
    }
}

/// What one look at the samples leads to.
#[derive(Debug)]
pub struct Look {
    pub cursor: Cursor,
    pub update: Option<Update>,
    pub next: Next,
}

fn around_from(x: u64, by: i64) -> (r: u64)
    ensures
        r == around(x + by),
{
    modulo(x as i128 + by as i128, 0x1_0000_0000_0000_0000) as u64
}

impl Listener {
    pub fn is_from_client(&self, client_id: u64) -> (r: bool)
        ensures
            r == self@.of_client(client_id),
    {
        match self.sink {
            Sink::Ws { client, .. } => client == client_id,
            Sink::Rest { .. } => false,
        }
    }

    /// Goes back to the first sample.
    pub fn reset(&mut self)
        ensures
            final(self)@ == (ListenerView { index: 0, out_index: 0, ..old(self)@ }),
    {
        self.index = 0;
        self.out_index = 0;
    }

    pub fn cursor(&self) -> (r: Cursor)
        ensures
            r == self@.cursor(),
    {
        Cursor {
            index: self.index,
            out_index: self.out_index,
            triggered: self.triggered,
            trigger_force_index: self.trigger_force_index,
            trigger_subsample_error: self.trigger_subsample_error,
        }
    }

    /// Moves the listener.
    pub fn go(&mut self, c: Cursor)
        ensures
            final(self)@ == old(self)@.at(c),
    {
        self.index = c.index;
        self.out_index = c.out_index;
        self.triggered = c.triggered;
        self.trigger_force_index = c.trigger_force_index;
        self.trigger_subsample_error = c.trigger_subsample_error;
    }

    /// Looks for the rise of a sample above the level.
    fn find_rise(&self, dev: &StreamingDevice) -> (k: u64)
        requires
            dev.wf(),
            self@.wf(dev@.channels),
            self.trigger_type == TriggerType::InStream,
        ensures
            k == counted(rise(dev@, self@.trigger_stream, self@.trigger_level, self@.index + 1)),
    {
        let (c, s) = self.trigger_stream;
        if self.index == u64::MAX {
            return u64::MAX;
        }
        let mut state = dev.get(c, s, self.index).gt(self.trigger_level);
        let mut k: u64 = self.index + 1;
        while k < dev.capture_i
            invariant
                dev.wf(),
                has_stream(dev@.channels, c as int, s as int),
                (c, s) == self.trigger_stream,
                self.index < k,
                rise(dev@, self@.trigger_stream, self@.trigger_level, self@.index + 1) == rise(
                    dev@,
                    self@.trigger_stream,
                    self@.trigger_level,
                    k as int,
                ),
                state == high(dev@, self@.trigger_stream, self@.trigger_level, k - 1),
            decreases dev.capture_i - k,
        {
            let new_state = dev.get(c, s, k).gt(self.trigger_level);
            if new_state && !state {
                return k;
            }
            state = new_state;
            k += 1;
        }
        k
    }

    /// Looks for the trigger. `wave` is the phase zero of the output source
    /// from `index` on, if that is a wave and has one.
    fn find_trigger(&self, dev: &StreamingDevice, wave: Option<Zero>) -> (r: Cursor)
        requires
            dev.wf(),
            self@.wf(dev@.channels),
            self@.armed(),
        ensures
            r == self@.searched(dev@, wave),
    {
        let mut c = self.cursor();
        c.trigger_subsample_error = Double { bits: 0 };
        match self.trigger_type {
            TriggerType::Off => {},
            TriggerType::InStream => {
                proof {
                    law_rise_is_first(dev@, self@.trigger_stream, self@.trigger_level, self@.index + 1);
                }
                let k = self.find_rise(dev);
                if k < dev.capture_i {
                    c.index = around_from(k, self.trigger_offset);
                    c.triggered = true;
                } else {
                    c.index = k;
                    c.triggered = self.trigger_force != 0 && k > self.trigger_force_index;
                }
            },
            TriggerType::OutSource => {
                assert(dev@.channels[self.trigger_channel as int]
                    == dev.channels@[self.trigger_channel as int]@);
                if let Some(source) = &dev.channels[self.trigger_channel].source {
                    assert(crate::streaming::channel_wf(
                        dev@.channels[self.trigger_channel as int],
                        dev@.capture_samples,
                    ));
                    let zero = match source.phase_zero_after(self.index) {
                        PhaseZero::At(z) => {
                            let at: u64 = if z < 0 {
                                0
                            } else if z > 0xffff_ffff_ffff_ffff {
                                0xffff_ffff_ffff_ffff
                            } else {
                                z as u64
                            };
                            Some(Zero { at, error: Double { bits: 0 } })
                        },
                        PhaseZero::Wave { .. } => wave,
                    };
                    if let Some(z) = zero {
                        if dev.capture_o >= z.at {
                            c.index = around_from(z.at, self.trigger_offset);
                            c.triggered = true;
                            c.trigger_subsample_error = z.error;
                            return c;
                        }
                    }
                    if self.trigger_force != 0 && dev.capture_i >= self.trigger_force_index {
                        c.index = self.trigger_force_index;
                        c.triggered = true;
                    }
                }
            },
        }
        c
    }
}

/// What one look of a listener at the samples leads to. `closed` says that
/// nobody reads the body of the response any more.
pub open spec fn look_of(
    l: ListenerView,
    d: DeviceView,
    wave: Option<Zero>,
    closed: bool,
) -> (Cursor, Option<UpdateView>, Next) {
    let m = l.looking(d, wave);
    let n = l.found(d, wave);
    if l.sink is Rest && closed {
        (l.cursor(), None, Next::Remove)
    } else if n == 0 {
        (m.cursor(), None, Next::Keep)
    } else {
        (m.past(n), Some(m.update(d, n)), m.fate(n))
    }
}

pub proof fn lemma_ready(l: ListenerView, d: DeviceView)
    requires
        l.decimate_factor >= 1,
    ensures
        0 <= l.ready(d),
        l.ready(d) > 0 ==> l.index + l.ready(d) * l.decimate_factor <= d.capture_i,
        l.ready(d) > 0 ==> l.ready(d) <= l.ready(d) * l.decimate_factor,
{
    if l.index + l.decimate_factor < d.capture_i {
        let have = d.capture_i - l.index;
        let df = l.decimate_factor as int;
        let n = l.ready(d);
        vstd::arithmetic::div_mod::lemma_fundamental_div_mod(have, df);
        vstd::arithmetic::div_mod::lemma_div_pos_is_pos(have, df);
        assert(n * df <= have) by (nonlinear_arith)
            requires
                0 <= n <= have / df,
                df >= 1,
                have == df * (have / df) + have % df,
                have % df >= 0,
        ;
        assert(n <= n * df) by (nonlinear_arith)
            requires
                n >= 0,
                df >= 1,
        ;
    }
}

impl Listener {
    /// How many output samples can be made.
    fn how_many_samples(&self, dev: &StreamingDevice, c: Cursor) -> (n: u64)
        requires
            self.decimate_factor >= 1,
        ensures
            n == self@.at(c).ready(dev@),
    {
        proof {
            lemma_ready(self@.at(c), dev@);
        }
        if c.index >= dev.capture_i || self.decimate_factor >= dev.capture_i - c.index {
            return 0;
        }
        let n: u64 = (dev.capture_i - c.index) / self.decimate_factor;
        if self.count > 0 {
            let remaining: i128 = self.count as i128 - c.out_index as i128;
            if 0 <= remaining && remaining < n as i128 {
                return remaining as u64;
            }
        }
        n
    }

    fn row(&self, dev: &StreamingDevice, c: Cursor, s: usize, n: u64) -> (r: Vec<Option<Vec<Single>>>)
        requires
            dev.wf(),
            self@.at(c).wf(dev@.channels),
            s < self.streams.len(),
            c.index + n * self.decimate_factor <= u64::MAX,
        ensures
            window_row(r@) == self@.at(c).inputs(dev@, n as int)[s as int],
    {
        let (chan, stream) = self.streams[s];
        assert(self@.streams[s as int] == (chan, stream));
        let mut r: Vec<Option<Vec<Single>>> = Vec::new();
        let mut k: u64 = 0;
        let ghost whole = self@.at(c).inputs(dev@, n as int)[s as int];
        assert(window_row(r@) =~= whole.take(0));
        while k < n
            invariant
                k <= n,
                dev.wf(),
                has_stream(dev@.channels, chan as int, stream as int),
                s < self.streams.len(),
                self.streams@[s as int] == (chan, stream),
                c.index + n * self.decimate_factor <= u64::MAX,
                whole == self@.at(c).inputs(dev@, n as int)[s as int],
                window_row(r@) == whole.take(k as int),
            decreases n - k,
        {
            assert(k * self.decimate_factor <= n * self.decimate_factor) by (nonlinear_arith)
                requires
                    k <= n,
            ;
            let w = dev.resample(
                chan,
                stream,
                c.index + k * self.decimate_factor,
                self.decimate_factor,
            );
            let ghost before = r@;
            r.push(w);
            assert(window_row(r@) =~= window_row(before).push(window_view(w)));
            assert(window_view(w) == whole[k as int]);
            assert(whole.take(k + 1) =~= whole.take(k as int).push(whole[k as int]));
            k += 1;
        }
        assert(whole.take(n as int) =~= whole);
        r
    }

    fn rows(&self, dev: &StreamingDevice, c: Cursor, n: u64) -> (r: Vec<Vec<Option<Vec<Single>>>>)
        requires
            dev.wf(),
            self@.at(c).wf(dev@.channels),
            c.index + n * self.decimate_factor <= u64::MAX,
        ensures
            window_rows(r@) == self@.at(c).inputs(dev@, n as int),
    {
        let mut r: Vec<Vec<Option<Vec<Single>>>> = Vec::new();
        let mut s: usize = 0;
        let ghost whole = self@.at(c).inputs(dev@, n as int);
        assert(window_rows(r@) =~= whole.take(0));
        while s < self.streams.len()
            invariant
                s <= self.streams.len(),
                dev.wf(),
                self@.at(c).wf(dev@.channels),
                c.index + n * self.decimate_factor <= u64::MAX,
                whole == self@.at(c).inputs(dev@, n as int),
                whole.len() == self.streams.len(),
                window_rows(r@) == whole.take(s as int),
            decreases self.streams.len() - s,
        {
            let row = self.row(dev, c, s, n);
            let ghost before = r@;
            r.push(row);
            assert(window_rows(r@) =~= window_rows(before).push(window_row(row@)));
            assert(whole.take(s + 1) =~= whole.take(s as int).push(whole[s as int]));
            s += 1;
        }
        assert(whole.take(s as int) =~= whole);
        r
    }

    /// The end of a look that found `n` output samples.
    fn deliver(&self, dev: &StreamingDevice, c: Cursor, n: u64) -> (r: Look)
        requires
            dev.wf(),
            self@.at(c).wf(dev@.channels),
            n > 0,
            n == self@.at(c).ready(dev@),
        ensures
            r.cursor == self@.at(c).past(n as int),
            r.update matches Some(u) && u@ == self@.at(c).update(dev@, n as int),
            r.next == self@.at(c).fate(n as int),
    {
        proof {
            lemma_ready(self@.at(c), dev@);
        }
        let completes = self.count > 0 && c.out_index as i128 + n as i128 >= self.count as i128;
        let windows = self.rows(dev, c, n);
        let update = Update {
            sink: self.sink,
            id: self.id,
            idx: c.out_index,
            sample_index: c.index,
            forced: c.out_index == 0 && self.trigger_force != 0 && c.index
                > c.trigger_force_index,
            triggered: c.out_index == 0 && c.triggered,
            subsample: c.trigger_subsample_error,
            done: completes && !self.trigger_repeat,
            chunks: n,
            windows,
        };
        let mut cursor = c;
        cursor.index = c.index + n * self.decimate_factor;
        cursor.out_index = c.out_index + n;
        let mut next = if completes {
            Next::Remove
        } else {
            Next::Keep
        };
        if completes && self.trigger_repeat {
            if let Sink::Ws { .. } = self.sink {
                cursor.out_index = 0;
                cursor.triggered = false;
                cursor.index = around_from(cursor.index, self.trigger_holdoff);
                cursor.trigger_force_index = if cursor.index > u64::MAX - self.trigger_force {
                    u64::MAX
                } else {
                    cursor.index + self.trigger_force
                };
                next = Next::Again;
            }
        }
        Look { cursor, update: Some(update), next }
    }

    /// Looks once at the samples that have come.
    pub fn look(&self, dev: &StreamingDevice, wave: Option<Zero>, closed: bool) -> (r: Look)
        requires
            dev.wf(),
            self@.wf(dev@.channels),
        ensures
            ({
                let (cursor, update, next) = look_of(self@, dev@, wave, closed);
                &&& r.cursor == cursor
                &&& r.next == next
                &&& match r.update {
                    Some(u) => update == Some(u@),
                    None => update is None,
                }
                &&& self@.at(cursor).wf(dev@.channels)
            }),
    {
        proof {
            lemma_look_keeps(self@, dev@, wave, closed);
        }
        if let Sink::Rest { .. } = self.sink {
            if closed {
                return Look { cursor: self.cursor(), update: None, next: Next::Remove };
            }
        }
        let mut c = self.cursor();
        if self.trigger_type != TriggerType::Off && !self.triggered {
            c = self.find_trigger(dev, wave);
            if !c.triggered {
                return Look { cursor: c, update: None, next: Next::Keep };
            }
        }
        let n = self.how_many_samples(dev, c);
        if n == 0 {
            return Look { cursor: c, update: None, next: Next::Keep };
        }
        self.deliver(dev, c, n)
    }
}

/// However the trigger is found, a listener stays well formed.
proof fn lemma_look_keeps(l: ListenerView, d: DeviceView, wave: Option<Zero>, closed: bool)
    requires
        l.wf(d.channels),
    ensures
        l.looking(d, wave).wf(d.channels),
        l.at(look_of(l, d, wave, closed).0).wf(d.channels),
{
    let m = l.looking(d, wave);
    lemma_ready(m, d);
}

// ---- forms of an update ----

/// Numbers for each stream, for each output sample.
pub open spec fn mean_rows(v: Seq<Vec<Single>>) -> Seq<Seq<Single>> {
    v.map_values(|r: Vec<Single>| r@)
}

/// The bytes of the numbers, stream after stream.
pub open spec fn data_bytes(means: Seq<Seq<Single>>) -> Seq<u8>
    decreases means.len(),
{
    if means.len() == 0 {
        Seq::empty()
    } else {
        data_bytes(means.drop_last()) + number_bytes(means.last())
    }
}

impl UpdateView {
    /// Bit 0 says that nothing more comes, bit 1 that no trigger started the
    /// sweep, bit 2 that the distance to the trigger counts.
    pub open spec fn flags(self) -> u8 {
        ((if self.done {
            1int
        } else {
            0
        }) + (if self.forced {
            2int
        } else {
            0
        }) + (if self.triggered {
            4int
        } else {
            0
        })) as u8
    }

    pub open spec fn header(self, streams: nat) -> Seq<u8> {
        seq![1u8, self.flags()] + le16(streams as u16) + le32(self.id as u32) + le32(
            self.idx as u32,
        ) + le32(self.sample_index as u32) + le32(self.subsample.narrowed().bits) + le32(
            self.chunks as u32,
        )
    }

    /// A binary frame, all numbers with the low byte first: the number 1, the
    /// flags, the number of streams (2 bytes); then, 4 bytes each, the id of the
    /// listener, the number of the first output sample, that of its first input
    /// sample, the distance to the trigger, and the output samples per stream;
    /// then the output samples, stream after stream.
    pub open spec fn frame(self, means: Seq<Seq<Single>>) -> Seq<u8> {
        self.header(means.len()) + data_bytes(means)
    }

    /// The members of a document.
    pub open spec fn document(self, means: Seq<Seq<Single>>) -> Seq<(Seq<char>, JsonTree)> {
        seq![
            ("id"@, JsonTree::Number(Number::Signed(self.id))),
            ("idx"@, JsonTree::Number(Number::Unsigned(self.idx))),
        ] + (if self.forced {
            seq![("triggerForced"@, JsonTree::Bool(true))]
        } else {
            seq![]
        }) + (if self.triggered {
            seq![("subsample"@, JsonTree::Number(Number::Double(self.subsample)))]
        } else {
            seq![]
        }) + (if self.idx == 0 {
            seq![("sampleIndex"@, JsonTree::Number(Number::Unsigned(self.sample_index)))]
        } else {
            seq![]
        }) + seq![("data"@, JsonTree::Array(data_trees(means)))] + (if self.done {
            seq![("done"@, JsonTree::Bool(true))]
        } else {
            seq![]
        }) + seq![("_action"@, JsonTree::Str("update"@))]
    }
}

pub open spec fn row_trees(row: Seq<Single>) -> Seq<JsonTree> {
    row.map_values(|x: Single| JsonTree::Number(Number::Single(x)))
}

pub open spec fn data_trees(means: Seq<Seq<Single>>) -> Seq<JsonTree> {
    means.map_values(|r: Seq<Single>| JsonTree::Array(row_trees(r)))
}

fn push_row(buf: &mut Vec<u8>, row: &Vec<Single>)
    ensures
        final(buf)@ == old(buf)@ + number_bytes(row@),
{
    let mut k: usize = 0;
    assert(row@.take(0) =~= Seq::empty());
    assert(buf@ =~= old(buf)@ + number_bytes(row@.take(0)));
    while k < row.len()
        invariant
            k <= row.len(),
            buf@ == old(buf)@ + number_bytes(row@.take(k as int)),
        decreases row.len() - k,
    {
        push_le32(buf, row[k].bits);
        assert(row@.take(k + 1).drop_last() =~= row@.take(k as int));
        assert(buf@ =~= old(buf)@ + number_bytes(row@.take(k + 1)));
        k += 1;
    }
    assert(row@.take(k as int) =~= row@);
}

fn row_json(row: &Vec<Single>) -> (r: Json)
    ensures
        r@ == JsonTree::Array(row_trees(row@)),
{
    let mut a: Vec<Json> = Vec::new();
    let mut k: usize = 0;
    assert(trees(a@) =~= row_trees(row@.take(0)));
    while k < row.len()
        invariant
            k <= row.len(),
            trees(a@) == row_trees(row@.take(k as int)),
        decreases row.len() - k,
    {
        add_element(&mut a, Json::Number(Number::Single(row[k])));
        assert(trees(a@) =~= row_trees(row@.take(k + 1)));
        k += 1;
    }
    assert(row@.take(k as int) =~= row@);
    Json::Array(a)
}

impl Update {
    /// The update as a binary frame. `means` has the output samples.
    pub fn binary_frame(&self, means: &Vec<Vec<Single>>) -> (buf: Vec<u8>)
        ensures
            buf@ == self@.frame(mean_rows(means@)),
    {
        let mut flags: u8 = 0;
        if self.done {
            flags += 1;
        }
        if self.forced {
            flags += 2;
        }
        if self.triggered {
            flags += 4;
        }
        let mut buf: Vec<u8> = Vec::new();
        buf.push(1);
        buf.push(flags);
        push_le16(&mut buf, #[verifier::truncate] (means.len() as u16));
        push_le32(&mut buf, #[verifier::truncate] (self.id as u32));
        push_le32(&mut buf, #[verifier::truncate] (self.idx as u32));
        push_le32(&mut buf, #[verifier::truncate] (self.sample_index as u32));
        push_le32(&mut buf, self.subsample.narrow().bits);
        push_le32(&mut buf, #[verifier::truncate] (self.chunks as u32));
        let ghost rows = mean_rows(means@);
        assert(buf@ =~= self@.header(rows.len()));
        let mut s: usize = 0;
        assert(rows.take(0) =~= Seq::empty());
        assert(buf@ =~= self@.header(rows.len()) + data_bytes(rows.take(0)));
        while s < means.len()
            invariant
                s <= means.len(),
                rows == mean_rows(means@),
                buf@ == self@.header(rows.len()) + data_bytes(rows.take(s as int)),
            decreases means.len() - s,
        {
            push_row(&mut buf, &means[s]);
            assert(rows.take(s + 1).drop_last() =~= rows.take(s as int));
            assert(rows.take(s + 1).last() == means@[s as int]@);
            assert(buf@ =~= self@.header(rows.len()) + data_bytes(rows.take(s + 1)));
            s += 1;
        }
        assert(rows.take(s as int) =~= rows);
        buf
    }

    /// The update as a document. `means` has the output samples.
    pub fn json_update(&self, means: &Vec<Vec<Single>>) -> (r: Json)
        ensures
            r@ == JsonTree::Object(self@.document(mean_rows(means@))),
    {
        let mut n: Vec<(String, Json)> = Vec::new();
        put_number(&mut n, "id", Number::Signed(self.id));
        put_number(&mut n, "idx", Number::Unsigned(self.idx));
        if self.forced {
            put_bool(&mut n, "triggerForced", true);
        }
        if self.triggered {
            put_number(&mut n, "subsample", Number::Double(self.subsample));
        }
        if self.idx == 0 {
            put_number(&mut n, "sampleIndex", Number::Unsigned(self.sample_index));
        }
        let mut data: Vec<Json> = Vec::new();
        let ghost rows = mean_rows(means@);
        let mut s: usize = 0;
        assert(trees(data@) =~= data_trees(rows.take(0)));
        while s < means.len()
            invariant
                s <= means.len(),
                rows == mean_rows(means@),
                trees(data@) == data_trees(rows.take(s as int)),
            decreases means.len() - s,
        {
            add_element(&mut data, row_json(&means[s]));
            assert(trees(data@) =~= data_trees(rows.take(s + 1)));
            s += 1;
        }
        assert(rows.take(s as int) =~= rows);
        put(&mut n, "data", Json::Array(data));
        if self.done {
            put_bool(&mut n, "done", true);
        }
        put_text(&mut n, "_action", "update");
        assert(members(n@) =~= self@.document(rows));
        Json::Object(n)
    }
}

/// The words of each list, after each other.
pub open spec fn text_rows(v: Seq<Vec<String>>) -> Seq<Seq<Seq<char>>> {
    v.map_values(|r: Vec<String>| texts(r@))
}

/// The `k`-th word of the first `s` lists, with commas between them.
pub open spec fn line(t: Seq<Seq<Seq<char>>>, k: int, s: int) -> Seq<char>
    decreases s,
{
    if s <= 0 {
        Seq::empty()
    } else if s == 1 {
        t[0][k]
    } else {
        line(t, k, s - 1) + ", "@ + t[s - 1][k]
    }
}

/// The first `n` lines.
pub open spec fn lines(t: Seq<Seq<Seq<char>>>, n: int) -> Seq<char>
    decreases n,
{
    if n <= 0 {
        Seq::empty()
    } else {
        lines(t, n - 1) + line(t, n - 1, t.len() as int).push('\n')
    }
}

/// The rows of text of `chunks` output samples, whose numbers stand in `words`
/// for each stream.
pub fn csv_rows(words: &Vec<Vec<String>>, chunks: u64) -> (o: String)
    requires
        forall|s: int| 0 <= s < words.len() ==> (#[trigger] words@[s]).len() >= chunks,
    ensures
        o@ == lines(text_rows(words@), chunks as int),
{
    let mut o = String::new();
    let mut k: u64 = 0;
    let ghost t = text_rows(words@);
    while k < chunks
        invariant
            k <= chunks,
            t == text_rows(words@),
            forall|s: int| 0 <= s < words.len() ==> (#[trigger] words@[s]).len() >= chunks,
            o@ == lines(t, k as int),
        decreases chunks - k,
    {
        let ghost before = o@;
        let mut s: usize = 0;
        while s < words.len()
            invariant
                s <= words.len(),
                k < chunks,
                t == text_rows(words@),
                forall|s: int| 0 <= s < words.len() ==> (#[trigger] words@[s]).len() >= chunks,
                o@ == before + line(t, k as int, s as int),
            decreases words.len() - s,
        {
            if s > 0 {
                o.append(", ");
            }
            assert(words@[s as int].len() >= chunks);
            o.append(words[s][k as usize].as_str());
            assert(t[s as int][k as int] == words@[s as int]@[k as int]@);
            assert(o@ =~= before + line(t, k as int, s + 1));
            s += 1;
        }
        o.push('\n');
        assert(o@ =~= lines(t, k + 1));
        k += 1;
    }
    o
}

// ---- making listeners ----

/// A listener without a trigger.
pub open spec fn plain_listener(sink: Sink) -> ListenerView {
    ListenerView {
        id: 0,
        streams: Seq::empty(),
        decimate_factor: 1,
        index: 0,
        out_index: 0,
        count: 0,
        sink,
        trigger_type: TriggerType::Off,
        triggered: false,
        trigger_repeat: false,
        trigger_channel: 0,
        trigger_level: Single { bits: 0 },
        trigger_stream: (0, 0),
        trigger_holdoff: 0,
        trigger_offset: 0,
        trigger_force: 0,
        trigger_force_index: 0,
        trigger_subsample_error: Double { bits: 0 },
    }
}

/// The sample that `start` means: a negative number counts back from the next
/// sample, -1 meaning that one.
pub open spec fn start_of(d: DeviceView, start: i64) -> u64 {
    if start < 0 {
        counted(d.capture_i + start + 1)
    } else {
        start as u64
    }
}

/// Numbers below one are taken as one.
pub open spec fn at_least_one(x: i64) -> u64 {
    if x < 1 {
        1
    } else {
        x as u64
    }
}

/// The streams that a list of documents names, or the first complaint.
pub open spec fn streams_from(d: DeviceView, a: Seq<JsonTree>) -> Result<
    Seq<(usize, usize)>,
    Seq<char>,
>
    decreases a.len(),
{
    if a.len() == 0 {
        Ok(Seq::empty())
    } else {
        match streams_from(d, a.drop_last()) {
            Err(m) => Err(m),
            Ok(before) => match stream_named(d, a.last()) {
                Err(m) => Err(m),
                Ok(s) => Ok(before.push(s)),
            },
        }
    }
}

/// The stream that a document names, or what is wrong.
pub open spec fn stream_named(d: DeviceView, n: JsonTree) -> Result<(usize, usize), Seq<char>> {
    match (string_needed(n, "channel"@), string_needed(n, "stream"@)) {
        (Err(m), _) => Err(m),
        (_, Err(m)) => Err(m),
        (Ok(c), Ok(s)) => match d.stream(c, s) {
            Err(m) => Err(m),
            Ok((i, j)) => Ok((i as usize, j as usize)),
        },
    }
}

/// How long to wait after a sweep: long enough for an offset that goes back.
pub open spec fn holdoff_of(holdoff: i64, offset: i64) -> i64 {
    if offset < 0 && -offset >= holdoff {
        if offset == i64::MIN {
            i64::MAX
        } else {
            (-offset) as i64
        }
    } else {
        holdoff
    }
}

/// The listener with the trigger that a document asks for, or what is wrong.
pub open spec fn with_trigger(d: DeviceView, l: ListenerView, t: JsonTree) -> Result<
    ListenerView,
    Seq<char>,
> {
    let kind = string_at(t, "type"@).unwrap_or("in"@);
    let offset = int_at(t, "offset"@).unwrap_or(0);
    let force = int_at(t, "force"@).unwrap_or(0);
    let trigger_force = if force < 0 {
        0
    } else {
        force as u64
    };
    let m = ListenerView {
        trigger_repeat: bool_at(t, "repeat"@).unwrap_or(true),
        trigger_holdoff: holdoff_of(int_at(t, "holdoff"@).unwrap_or(0), offset),
        trigger_offset: offset,
        trigger_force,
        trigger_force_index: (l.index + trigger_force) as u64,
        ..l
    };
    if kind == "in"@ {
        match (float_needed(t, "level"@), stream_named(d, t)) {
            (Err(e), _) => Err(e),
            (_, Err(e)) => Err(e),
            (Ok(level), Ok(s)) => Ok(
                ListenerView {
                    trigger_type: TriggerType::InStream,
                    trigger_level: level.narrowed(),
                    trigger_stream: s,
                    ..m
                },
            ),
        }
    } else if kind == "out"@ {
        match string_needed(t, "channel"@) {
            Err(e) => Err(e),
            Ok(name) => match d.channel(name) {
                None => Err("Trigger channel not found"@),
                Some(c) => Ok(
                    ListenerView {
                        trigger_type: TriggerType::OutSource,
                        trigger_channel: c as usize,
                        ..m
                    },
                ),
            },
        }
    } else {
        Err("Invalid trigger type"@)
    }
}

/// The listener that a `listen` command asks for, or what is wrong.
pub open spec fn listener_from(d: DeviceView, client: u64, n: JsonTree) -> Result<
    ListenerView,
    Seq<char>,
> {
    let sink = Sink::Ws { client, binary: bool_at(n, "binary"@).unwrap_or(false) };
    match (int_needed(n, "id"@), int_needed(n, "count"@), array_at(n, "streams"@)) {
        (Err(m), _, _) => Err(m),
        (_, Err(m), _) => Err(m),
        (_, _, None) => Err("JSON missing property: streams"@),
        (Ok(id), Ok(count), Some(a)) => match streams_from(d, a) {
            Err(m) => Err(m),
            Ok(streams) => {
                let l = ListenerView {
                    id,
                    streams,
                    decimate_factor: at_least_one(int_at(n, "decimateFactor"@).unwrap_or(1)),
                    index: start_of(d, int_at(n, "start"@).unwrap_or((-1) as i64)),
                    count,
                    ..plain_listener(sink)
                };
                match field(n, "trigger"@) {
                    Some(JsonTree::Object(m)) => with_trigger(d, l, JsonTree::Object(m)),
                    _ => Ok(l),
                }
            },
        },
    }
}

/// The listener that writes all streams of a channel into a response.
pub open spec fn rest_listener(
    d: DeviceView,
    channel: int,
    stream: u64,
    decimate_factor: u64,
    start: i64,
    count: i64,
) -> ListenerView {
    ListenerView {
        streams: Seq::new(
            d.channels[channel].streams.len(),
            |s: int| (channel as usize, s as usize),
        ),
        decimate_factor: if decimate_factor < 1 {
            1
        } else {
            decimate_factor
        },
        index: start_of(d, start),
        count,
        ..plain_listener(Sink::Rest { stream })
    }
}

fn new_listener(sink: Sink) -> (r: Listener)
    ensures
        r@ == plain_listener(sink),
{
    let streams: Vec<(usize, usize)> = Vec::new();
    assert(streams@ =~= Seq::empty());
    Listener {
        id: 0,
        streams,
        decimate_factor: 1,
        index: 0,
        out_index: 0,
        count: 0,
        sink,
        trigger_type: TriggerType::Off,
        triggered: false,
        trigger_repeat: false,
        trigger_channel: 0,
        trigger_level: Single { bits: 0 },
        trigger_stream: (0, 0),
        trigger_holdoff: 0,
        trigger_offset: 0,
        trigger_force: 0,
        trigger_force_index: 0,
        trigger_subsample_error: Double { bits: 0 },
    }
}

fn resolve_start(dev: &StreamingDevice, start: i64) -> (r: u64)
    requires
        dev.wf(),
    ensures
        r == start_of(dev@, start),
        r <= i64::MAX,
{
    if start < 0 {
        let at: i64 = dev.buffer_max() as i64 + start + 1;
        if at < 0 {
            0
        } else {
            at as u64
        }
    } else {
        start as u64
    }
}

fn named_stream(dev: &StreamingDevice, n: &Json) -> (r: Result<(usize, usize), Error>)
    ensures
        match r {
            Ok(p) => stream_named(dev@, n@) == Ok::<(usize, usize), Seq<char>>(p) && has_stream(
                dev@.channels,
                p.0 as int,
                p.1 as int,
            ),
            Err(e) => stream_named(dev@, n@) == Err::<(usize, usize), Seq<char>>(e@),
        },
{
    let c = match json_string_prop(n, "channel") {
        Ok(c) => c,
        Err(e) => return Err(e),
    };
    let s = match json_string_prop(n, "stream") {
        Ok(s) => s,
        Err(e) => return Err(e),
    };
    dev.find_stream(c.as_str(), s.as_str())
}

proof fn lemma_streams_fault(d: DeviceView, a: Seq<JsonTree>, i: int)
    requires
        0 <= i <= a.len(),
        streams_from(d, a.take(i)) is Err,
    ensures
        streams_from(d, a) == streams_from(d, a.take(i)),
    decreases a.len(),
{
    if i < a.len() {
        assert(a.drop_last().take(i) =~= a.take(i));
        lemma_streams_fault(d, a.drop_last(), i);
    } else {
        assert(a.take(i) =~= a);
    }
}

fn named_streams(dev: &StreamingDevice, a: &Vec<Json>) -> (r: Result<Vec<(usize, usize)>, Error>)
    ensures
        match r {
            Ok(v) => streams_from(dev@, trees(a@)) == Ok::<Seq<(usize, usize)>, Seq<char>>(v@)
                && forall|i: int|
                0 <= i < v.len() ==> has_stream(
                    dev@.channels,
                    (#[trigger] v@[i]).0 as int,
                    v@[i].1 as int,
                ),
            Err(e) => streams_from(dev@, trees(a@)) == Err::<Seq<(usize, usize)>, Seq<char>>(e@),
        },
{
    let mut v: Vec<(usize, usize)> = Vec::new();
    let mut i: usize = 0;
    proof {
        lemma_trees_at(a@);
        assert(trees(a@).take(0) =~= Seq::empty());
    }
    while i < a.len()
        invariant
            i <= a.len(),
            trees(a@).len() == a.len(),
            forall|j: int| 0 <= j < a.len() ==> #[trigger] trees(a@)[j] == tree(a@[j]),
            streams_from(dev@, trees(a@).take(i as int)) == Ok::<
                Seq<(usize, usize)>,
                Seq<char>,
            >(v@),
            forall|j: int|
                0 <= j < v.len() ==> has_stream(
                    dev@.channels,
                    (#[trigger] v@[j]).0 as int,
                    v@[j].1 as int,
                ),
        decreases a.len() - i,
    {
        let ghost head = trees(a@).take(i + 1);
        assert(head.drop_last() =~= trees(a@).take(i as int));
        assert(head.last() == a@[i as int]@);
        match named_stream(dev, &a[i]) {
            Ok(p) => {
                v.push(p);
            },
            Err(e) => {
                proof {
                    lemma_streams_fault(dev@, trees(a@), i + 1);
                }
                return Err(e);
            },
        }
        i += 1;
    }
    assert(trees(a@).take(i as int) =~= trees(a@));
    Ok(v)
}

fn set_trigger(dev: &StreamingDevice, l: Listener, t: &Json) -> (r: Result<Listener, Error>)
    requires
        dev.wf(),
        l@.wf(dev@.channels),
        l.index <= i64::MAX,
        l.out_index == 0,
    ensures
        match r {
            Ok(m) => with_trigger(dev@, l@, t@) == Ok::<ListenerView, Seq<char>>(m@) && m@.wf(
                dev@.channels,
            ),
            Err(e) => with_trigger(dev@, l@, t@) == Err::<ListenerView, Seq<char>>(e@),
        },
{
    let mut l = l;
    let kind = json_string_prop_def(t, "type", "in");
    if same(kind.as_str(), "in") {
        l.trigger_type = TriggerType::InStream;
        l.trigger_level = match json_float_prop(t, "level") {
            Ok(d) => d.narrow(),
            Err(e) => return Err(e),
        };
        l.trigger_stream = match named_stream(dev, t) {
            Ok(s) => s,
            Err(e) => return Err(e),
        };
    } else if same(kind.as_str(), "out") {
        l.trigger_type = TriggerType::OutSource;
        let name = match json_string_prop(t, "channel") {
            Ok(s) => s,
            Err(e) => return Err(e),
        };
        l.trigger_channel = match dev.channel_by_id(name.as_str()) {
            Some(c) => c,
            None => return Err(Error::new("Trigger channel not found")),
        };
    } else {
        return Err(Error::new("Invalid trigger type"));
    }
    l.trigger_repeat = json_bool_prop_def(t, "repeat", true);
    let holdoff = json_int_prop_def(t, "holdoff", 0);
    let offset = json_int_prop_def(t, "offset", 0);
    l.trigger_offset = offset;
    l.trigger_holdoff = if offset < 0 && -(offset as i128) >= holdoff as i128 {
        if offset == i64::MIN {
            i64::MAX
        } else {
            -offset
        }
    } else {
        holdoff
    };
    let force = json_int_prop_def(t, "force", 0);
    l.trigger_force = if force < 0 {
        0
    } else {
        force as u64
    };
    l.trigger_force_index = l.index + l.trigger_force;
    Ok(l)
}

/// Builds the listener that a `listen` command asks for.
pub fn make_stream_listener(dev: &StreamingDevice, client: u64, n: &Json) -> (r: Result<
    Listener,
    Error,
>)
    requires
        dev.wf(),
    ensures
        match r {
            Ok(l) => listener_from(dev@, client, n@) == Ok::<ListenerView, Seq<char>>(l@) && l@.wf(
                dev@.channels,
            ),
            Err(e) => listener_from(dev@, client, n@) == Err::<ListenerView, Seq<char>>(e@),
        },
{
    let mut l = new_listener(Sink::Ws { client, binary: json_bool_prop_def(n, "binary", false) });
    l.id = match json_int_prop(n, "id") {
        Ok(i) => i,
        Err(e) => return Err(e),
    };
    let df = json_int_prop_def(n, "decimateFactor", 1);
    l.decimate_factor = if df < 1 {
        1
    } else {
        df as u64
    };
    l.index = resolve_start(dev, json_int_prop_def(n, "start", -1));
    l.count = match json_int_prop(n, "count") {
        Ok(i) => i,
        Err(e) => return Err(e),
    };
    match n.get("streams") {
        Some(Json::Array(a)) => {
            l.streams = match named_streams(dev, a) {
                Ok(v) => v,
                Err(e) => return Err(e),
            };
        },
        _ => return Err(Error::new("JSON missing property: streams")),
    }
    match n.get("trigger") {
        Some(t) => {
            if let Json::Object(_) = t {
                return set_trigger(dev, l, t);
            }
        },
        None => {},
    }
    Ok(l)
}

/// Builds the listener that writes all streams of a channel into a response.
pub fn make_rest_listener(
    dev: &StreamingDevice,
    channel: usize,
    stream: u64,
    decimate_factor: u64,
    start: i64,
    count: i64,
) -> (r: Listener)
    requires
        dev.wf(),
        channel < dev@.channels.len(),
    ensures
        r@ == rest_listener(dev@, channel as int, stream, decimate_factor, start, count),
        r@.wf(dev@.channels),
{
    let mut l = new_listener(Sink::Rest { stream });
    assert(dev@.channels[channel as int] == dev.channels@[channel as int]@);
    let n: usize = dev.channels[channel].streams.len();
    let mut streams: Vec<(usize, usize)> = Vec::new();
    let mut s: usize = 0;
    while s < n
        invariant
            s <= n,
            streams@ == Seq::new(s as nat, |i: int| (channel, i as usize)),
        decreases n - s,
    {
        streams.push((channel, s));
        s += 1;
        assert(streams@ =~= Seq::new(s as nat, |i: int| (channel, i as usize)));
    }
    l.streams = streams;
    l.decimate_factor = if decimate_factor < 1 {
        1
    } else {
        decimate_factor
    };
    l.index = resolve_start(dev, start);
    l.count = count;
    assert(l@.streams =~= rest_listener(
        dev@,
        channel as int,
        stream,
        decimate_factor,
        start,
        count,
    ).streams);
    l
}

// ---- laws ----

proof fn lemma_data_bytes(means: Seq<Seq<Single>>, n: int)
    requires
        n >= 0,
        forall|s: int| 0 <= s < means.len() ==> (#[trigger] means[s]).len() == n,
    ensures
        data_bytes(means).len() == 4 * (means.len() * n),
        forall|s: int, k: int|
            0 <= s < means.len() && 0 <= k < n ==> data_bytes(means).subrange(
                4 * (s * n + k),
                4 * (s * n + k) + 4,
            ) == le32((#[trigger] means[s][k]).bits),
        forall|s: int, k: int|
            0 <= s < means.len() && 0 <= k < n ==> 0 <= #[trigger] (s * n + k) < means.len() * n,
    decreases means.len(),
{
    if means.len() > 0 {
        let m = means.drop_last();
        let last = means.last();
        assert forall|s: int| 0 <= s < m.len() implies (#[trigger] m[s]).len() == n by {
            assert(m[s] == means[s]);
        }
        lemma_data_bytes(m, n);
        lemma_number_bytes(last);
        assert(means.len() * n == m.len() * n + n) by (nonlinear_arith)
            requires
                means.len() == m.len() + 1,
        ;
        assert forall|s: int, k: int| 0 <= s < means.len() && 0 <= k < n implies 0 <= #[trigger] (s
            * n + k) < means.len() * n by {
            assert(0 <= s * n + k < means.len() * n) by (nonlinear_arith)
                requires
                    0 <= s < means.len(),
                    0 <= k < n,
            ;
        }
        assert forall|s: int, k: int| 0 <= s < means.len() && 0 <= k < n implies data_bytes(
            means,
        ).subrange(4 * (s * n + k), 4 * (s * n + k) + 4) == le32(
            (#[trigger] means[s][k]).bits,
        ) by {
            if s < m.len() {
                assert(m[s] == means[s]);
                assert(m[s][k] == means[s][k]);
                assert(0 <= s * n + k < m.len() * n) by (nonlinear_arith)
                    requires
                        0 <= s < m.len(),
                        0 <= k < n,
                ;
                assert(data_bytes(means).subrange(4 * (s * n + k), 4 * (s * n + k) + 4)
                    =~= data_bytes(m).subrange(4 * (s * n + k), 4 * (s * n + k) + 4));
            } else {
                assert(s * n == m.len() * n);
                assert(number_bytes(last).subrange(4 * k, 4 * k + 4) == le32(last[k].bits));
                assert(data_bytes(means).subrange(4 * (s * n + k), 4 * (s * n + k) + 4)
                    =~= number_bytes(last).subrange(4 * k, 4 * k + 4));
            }
        }
    }
}

/// A frame has room for its header and its numbers and nothing else, and what
/// was written into it can be read from it again.
pub proof fn law_frame_reads_back(u: UpdateView, means: Seq<Seq<Single>>)
    requires
        forall|s: int| 0 <= s < means.len() ==> (#[trigger] means[s]).len() == u.chunks,
    ensures
        u.frame(means).len() == 24 + 4 * (means.len() * u.chunks),
        u.frame(means)[0] == 1,
        u.frame(means)[1] == u.flags(),
        from_le16(u.frame(means), 2) == means.len() as u16,
        from_le32(u.frame(means), 4) == u.id as u32,
        from_le32(u.frame(means), 8) == u.idx as u32,
        from_le32(u.frame(means), 12) == u.sample_index as u32,
        from_le32(u.frame(means), 16) == u.subsample.narrowed().bits,
        from_le32(u.frame(means), 20) == u.chunks as u32,
        forall|s: int, k: int|
            0 <= s < means.len() && 0 <= k < u.chunks ==> from_le32(
                u.frame(means),
                24 + 4 * (s * u.chunks + k),
            ) == (#[trigger] means[s][k]).bits,
{
    let f = u.frame(means);
    let n = u.chunks as int;
    lemma_data_bytes(means, n);
    assert(f.subrange(2, 4) =~= le16(means.len() as u16));
    lemma_le16_back(f, 2, means.len() as u16);
    assert(f.subrange(4, 8) =~= le32(u.id as u32));
    lemma_le32_back(f, 4, u.id as u32);
    assert(f.subrange(8, 12) =~= le32(u.idx as u32));
    lemma_le32_back(f, 8, u.idx as u32);
    assert(f.subrange(12, 16) =~= le32(u.sample_index as u32));
    lemma_le32_back(f, 12, u.sample_index as u32);
    assert(f.subrange(16, 20) =~= le32(u.subsample.narrowed().bits));
    lemma_le32_back(f, 16, u.subsample.narrowed().bits);
    assert(f.subrange(20, 24) =~= le32(u.chunks as u32));
    lemma_le32_back(f, 20, u.chunks as u32);
    assert forall|s: int, k: int| 0 <= s < means.len() && 0 <= k < u.chunks implies from_le32(
        f,
        24 + 4 * (s * u.chunks + k),
    ) == (#[trigger] means[s][k]).bits by {
        let at = s * n + k;
        assert(0 <= at < means.len() * n);
        assert(f.subrange(24 + 4 * at, 24 + 4 * at + 4) =~= data_bytes(means).subrange(
            4 * at,
            4 * at + 4,
        ));
        lemma_le32_back(f, 24 + 4 * at, means[s][k].bits);
    }
}

/// Unless a sweep starts over, an update goes on where the one before ended, in
/// output samples as in input samples.
pub proof fn law_updates_are_contiguous(
    l: ListenerView,
    d: DeviceView,
    wave: Option<Zero>,
    closed: bool,
)
    requires
        l.wf(d.channels),
        look_of(l, d, wave, closed).1 is Some,
        look_of(l, d, wave, closed).2 != Next::Again,
    ensures
        ({
            let (cursor, update, _) = look_of(l, d, wave, closed);
            let u = update->Some_0;
            &&& u.chunks > 0
            &&& cursor.out_index == u.idx + u.chunks
            &&& cursor.index == u.sample_index + u.chunks * l.decimate_factor
            &&& !l.armed() ==> u.idx == l.out_index && u.sample_index == l.index
            &&& l.armed() ==> u.idx == 0
        }),
{
    let m = l.looking(d, wave);
    lemma_ready(m, d);
}

/// A listener that asked for `count` output samples gets no more than these; it
/// is over, or starts a new sweep, exactly when it has them all; and it is told
/// so in the last update, if it is over.
pub proof fn law_count_is_kept(l: ListenerView, d: DeviceView, wave: Option<Zero>)
    requires
        l.wf(d.channels),
        l.count > 0,
        l.out_index < l.count,
    ensures
        ({
            let (cursor, update, next) = look_of(l, d, wave, false);
            &&& cursor.out_index < l.count || next == Next::Remove
            &&& next != Next::Keep ==> update is Some
            &&& update matches Some(u) ==> {
                &&& u.idx + u.chunks <= l.count
                &&& (next != Next::Keep) == (u.idx + u.chunks == l.count)
                &&& next == Next::Remove && l.sink is Ws ==> u.done
                &&& u.done ==> next == Next::Remove
            }
        }),
{
    let m = l.looking(d, wave);
    lemma_ready(m, d);
}

/// A listener without `count` goes on for as long as somebody reads.
pub proof fn law_endless_listener_stays(l: ListenerView, d: DeviceView, wave: Option<Zero>)
    requires
        l.count <= 0,
    ensures
        look_of(l, d, wave, false).2 == Next::Keep,
        look_of(l, d, wave, false).1 matches Some(u) ==> !u.done,
{
}

/// Every window that is delivered has come in full; it is missing from an
/// update only where the buffer has lost it.
pub proof fn law_delivered_samples_have_come(
    l: ListenerView,
    d: DeviceView,
    wave: Option<Zero>,
    s: int,
    k: int,
)
    requires
        l.wf(d.channels),
        d.wf(),
        look_of(l, d, wave, false).1 is Some,
        0 <= s < l.streams.len(),
        0 <= k < look_of(l, d, wave, false).1->Some_0.chunks,
    ensures
        ({
            let u = look_of(l, d, wave, false).1->Some_0;
            let start = u.sample_index + k * l.decimate_factor;
            &&& start + l.decimate_factor <= d.capture_i
            &&& u.windows[s][k] is None <==> d.capture_samples == 0 || d.lost(start)
            &&& u.windows[s][k] matches Some(w) ==> w.len() == l.decimate_factor
        }),
{
    let m = l.looking(d, wave);
    let n = l.found(d, wave);
    lemma_ready(m, d);
    let df = l.decimate_factor as int;
    assert(k * df + df <= n * df) by (nonlinear_arith)
        requires
            0 <= k < n,
            df >= 1,
    ;
    let (c, t) = (l.streams[s].0 as int, l.streams[s].1 as int);
    assert(has_stream(d.channels, c, t));
    assert(crate::streaming::channel_wf(d.channels[c], d.capture_samples));
    assert(d.channels[c].streams[t].data.len() == d.capture_samples);
    let u = m.update(d, n);
    assert(u.windows[s][k] == d.window(c, t, m.index + k * df, df));
}

/// What a trigger on a stream finds is the first rise of its samples above the
/// level after the sample that the search starts from.
pub proof fn law_rise_is_first(d: DeviceView, stream: (usize, usize), level: Single, i: int)
    ensures
        ({
            let k = rise(d, stream, level, i);
            &&& k >= i
            &&& k < d.capture_i ==> high(d, stream, level, k) && !high(d, stream, level, k - 1)
            &&& forall|j: int|
                i <= j < k ==> !(#[trigger] high(d, stream, level, j) && !high(
                    d,
                    stream,
                    level,
                    j - 1,
                ))
        }),
    decreases d.capture_i - i,
{
    if !(i >= d.capture_i || (high(d, stream, level, i) && !high(d, stream, level, i - 1))) {
        law_rise_is_first(d, stream, level, i + 1);
    }
}

/// The wait after a sweep covers an offset that goes back, where the client did not
/// ask for a negative wait.
pub proof fn law_holdoff_covers_offset(holdoff: i64, offset: i64)
    requires
        holdoff >= 0,
        offset > i64::MIN,
    ensures
        holdoff_of(holdoff, offset) >= holdoff,
        holdoff_of(holdoff, offset) + offset >= 0,
{
}

/// A sweep that a stream triggers starts after the end of the sweep before it, so that
/// a listener does not deliver the same samples over and over.
pub proof fn law_sweeps_go_forward(
    l: ListenerView,
    d: DeviceView,
    later: DeviceView,
    wave: Option<Zero>,
    later_wave: Option<Zero>,
)
    requires
        l.wf(d.channels),
        d.wf(),
        later.wf(),
        l.trigger_type == TriggerType::InStream,
        l.trigger_holdoff >= 0,
        l.trigger_holdoff + l.trigger_offset >= 0,
        look_of(l, d, wave, false).2 == Next::Again,
        look_of(l.at(look_of(l, d, wave, false).0), later, later_wave, false).1 is Some,
    ensures
        ({
            let (cursor, update, _) = look_of(l, d, wave, false);
            let u = update->Some_0;
            let v = look_of(l.at(cursor), later, later_wave, false).1->Some_0;
            &&& v.idx == 0
            &&& v.sample_index > u.sample_index + u.chunks * l.decimate_factor
        }),
{
    let m = l.looking(d, wave);
    let n = l.found(d, wave);
    lemma_ready(m, d);
    let next = l.at(m.past(n));
    let end = m.index + n * m.decimate_factor;
    let start = end + l.trigger_holdoff;
    assert(0 <= start < 0x1_0000_0000_0000_0000);
    vstd::arithmetic::div_mod::lemma_small_mod(start as nat, 0x1_0000_0000_0000_0000nat);
    assert(next.index == start);
    assert(next.armed());
    let k = rise(later, l.trigger_stream, l.trigger_level, start + 1);
    law_rise_is_first(later, l.trigger_stream, l.trigger_level, start + 1);
    if k < later.capture_i {
        let at = k + l.trigger_offset;
        assert(0 <= at < 0x1_0000_0000_0000_0000);
        vstd::arithmetic::div_mod::lemma_small_mod(at as nat, 0x1_0000_0000_0000_0000nat);
    }
}

} // verus!
