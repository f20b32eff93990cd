//! The capture of a device: starting, pausing and ending it, and telling the
//! clients.

use crate::effect::{enqueue, tell, told, Effect, EffectView};
use crate::jsonutil::{members, put, put_bool, put_number, put_text, Json, JsonTree, Number};
use crate::listener::ListenerView;
use crate::source::{described, SourceView};
use crate::state::{action, text, truth};
use crate::streaming::{
    channel_wf, COUNT_LIMIT, Backend, BackendView, ChannelView, DeviceView, StreamingDevice,
    TestView,
};
use crate::usb::m1k::{mode_requests, sends, HI_Z};
use vstd::prelude::*;
use vstd::string::*;

verus! {

/// A source whose first sample is the first of all.
pub open spec fn rewound(s: Option<SourceView>) -> Option<SourceView> {
    match s {
        Some(x) => Some(SourceView { start_sample: 0, ..x }),
        None => None,
    }
}

/// The channels with every source rewound.
pub open spec fn all_rewound(v: Seq<ChannelView>) -> Seq<ChannelView> {
    v.map_values(|c: ChannelView| ChannelView { source: rewound(c.source), ..c })
}

/// Listeners that are back at the first sample.
pub open spec fn all_reset(v: Seq<ListenerView>) -> Seq<ListenerView> {
    v.map_values(|l: ListenerView| ListenerView { index: 0, out_index: 0, ..l })
}

impl DeviceView {
    /// With an effect to come.
    pub open spec fn doing(self, e: EffectView) -> DeviceView {
        DeviceView { out: self.out.push(e), ..self }
    }

    /// With a message to every client to come.
    pub open spec fn telling(self, message: JsonTree) -> DeviceView {
        self.doing(EffectView::Send { clients: self.connections, message })
    }

    /// What clients are told when the capture starts or stops.
    pub open spec fn capture_message(self) -> JsonTree {
        JsonTree::Object(
            seq![
                text("_action"@, "captureState"@),
                truth("state"@, self.capture_state),
                truth("done"@, self.capture_done),
            ],
        )
    }

    /// What clients are told when the configuration changes.
    pub open spec fn config_message(self) -> JsonTree {
        JsonTree::Object(
            seq![text("_action"@, "deviceConfig"@), ("device"@, self.state(false))],
        )
    }

    /// What the hardware does when the counters go back to zero.
    pub open spec fn reset_hook(self) -> DeviceView {
        match self.backend {
            BackendView::Test(t) => DeviceView {
                backend: BackendView::Test(TestView { resets: t.resets.wrapping_add(1), ..t }),
                ..self
            },
            BackendView::M1k(b) => DeviceView {
                channels: all_rewound(self.channels),
                backend: BackendView::M1k(b.unsettled()),
                ..self
            },
            BackendView::Cee(_) => DeviceView { channels: all_rewound(self.channels), ..self },
        }
    }

    /// What the hardware does when the capture starts.
    pub open spec fn start_hook(self) -> DeviceView {
        match self.backend {
            BackendView::Test(t) => DeviceView {
                backend: BackendView::Test(TestView { starts: t.starts.wrapping_add(1), ..t }),
                ..self
            },
            _ => self.doing(EffectView::Start),
        }
    }

    /// What the hardware does when the capture stops.
    pub open spec fn pause_hook(self) -> DeviceView {
        match self.backend {
            BackendView::Test(t) => DeviceView {
                backend: BackendView::Test(TestView { pauses: t.pauses.wrapping_add(1), ..t }),
                ..self
            },
            BackendView::M1k(b) => DeviceView {
                backend: BackendView::M1k(b.with_mode(0, HI_Z).with_mode(1, HI_Z)),
                out: self.out.push(sends(0xC5, 0, 0)) + mode_requests(0, HI_Z) + mode_requests(
                    1,
                    HI_Z,
                ) + seq![EffectView::Stop],
                capture_o: self.capture_i,
                ..self
            },
            BackendView::Cee(_) => DeviceView {
                out: self.out + seq![sends(0x80, 0, 0), EffectView::Stop],
                capture_o: self.capture_i,
                ..self
            },
        }
    }

    /// Back at the first sample.
    pub open spec fn reset(self) -> DeviceView {
        let d = DeviceView { capture_done: false, capture_i: 0, capture_o: 0, ..self }.reset_hook();
        DeviceView { listeners: all_reset(d.listeners), ..d }.telling(action("captureReset"@))
    }

    /// After the capture was started: from the first sample where it was over.
    pub open spec fn started(self) -> DeviceView {
        if self.capture_state {
            self
        } else {
            let d = if self.capture_done {
                self.reset()
            } else {
                self
            };
            let e = DeviceView { capture_state: true, ..d.start_hook() };
            e.telling(e.capture_message())
        }
    }

    /// After the capture was paused.
    pub open spec fn paused(self) -> DeviceView {
        if self.capture_state {
            let d = DeviceView { capture_state: false, ..self }.pause_hook();
            d.telling(d.capture_message())
        } else {
            self
        }
    }

    /// After the capture came to its end.
    pub open spec fn finished(self) -> DeviceView {
        let d = DeviceView { capture_done: true, ..self };
        let e = if d.capture_state {
            DeviceView { capture_state: false, ..d }.pause_hook()
        } else {
            d
        };
        e.telling(e.capture_message())
    }

    /// After the samples of a packet were counted and delivered.
    pub open spec fn packet_done(self) -> DeviceView {
        if !self.capture_continuous && self.capture_i >= self.capture_samples {
            self.finished()
        } else {
            self
        }
    }

    /// What clients are told of the source of a channel.
    pub open spec fn output_message(self, chan: int) -> JsonTree {
        JsonTree::Object(
            seq![
                text("_action"@, "outputChanged"@),
                text("channel"@, self.channels[chan].id),
            ] + described(self.channels[chan].source->Some_0),
        )
    }

    /// With the clients told of the source of a channel, if it has one.
    pub open spec fn telling_output(self, chan: int) -> DeviceView {
        if self.channels[chan].source is Some {
            self.telling(self.output_message(chan))
        } else {
            self
        }
    }

    /// What clients are told of the gain of a stream.
    pub open spec fn gain_message(self, chan: int, stream: int) -> JsonTree {
        let c = self.channels[chan];
        let s = c.streams[stream];
        JsonTree::Object(
            seq![
                text("_action"@, "gainChanged"@),
                text("channel"@, c.id),
                text("stream"@, s.id),
                ("gain"@, JsonTree::Number(Number::Ratio(s.gain, s.normal_gain))),
            ],
        )
    }

    /// After its source may have come into effect.
    pub open spec fn checked(self, chan: int) -> DeviceView {
        let c = self.channels[chan];
        match c.source {
            Some(s) => if !s.effective && self.capture_i > s.start_sample {
                DeviceView {
                    channels: self.channels.update(
                        chan,
                        ChannelView { source: Some(SourceView { effective: true, ..s }), ..c },
                    ),
                    ..self
                }.telling_output(chan)
            } else {
                self
            },
            None => self,
        }
    }
}

/// Changing nothing that `wf` speaks of keeps it.
pub proof fn lemma_wf_frame(a: DeviceView, b: DeviceView)
    requires
        a.wf(),
        b.channels == a.channels,
        b.listeners == a.listeners,
        b.capture_samples == a.capture_samples,
        b.capture_i <= COUNT_LIMIT,
        b.backend is M1k ==> a.backend is M1k,
    ensures
        b.wf(),
{
    assert forall|c: int| 0 <= c < b.channels.len() implies channel_wf(
        #[trigger] b.channels[c],
        b.capture_samples,
    ) by {
        assert(channel_wf(a.channels[c], a.capture_samples));
    }
    assert forall|l: int| 0 <= l < b.listeners.len() implies (#[trigger] b.listeners[l]).wf(
        b.channels,
    ) by {
        assert(a.listeners[l].wf(a.channels));
    }
}

/// A message that only says what happened.
pub fn action_json(name: &str) -> (r: Json)
    ensures
        r@ == action(name@),
{
    let mut n: Vec<(String, Json)> = Vec::new();
    put_text(&mut n, "_action", name);
    assert(members(n@) =~= seq![text("_action"@, name@)]);
    Json::Object(n)
}

impl StreamingDevice {
    /// Sends a message to every client.
    pub fn broadcast_json(&mut self, message: Json)
        requires
            old(self).wf(),
        ensures
            final(self)@ == old(self)@.telling(message@),
            final(self).wf(),
    {
        let mut clients: Vec<u64> = Vec::new();
        let mut i: usize = 0;
        while i < self.connections.len()
            invariant
                i <= self.connections.len(),
                *self == *old(self),
                clients@ == self.connections@.take(i as int),
            decreases self.connections.len() - i,
        {
            clients.push(self.connections[i]);
            i += 1;
            assert(clients@ =~= self.connections@.take(i as int));
        }
        assert(clients@ =~= self.connections@);
        enqueue(&mut self.out, Effect::Send { clients, message });
        proof {
            lemma_wf_frame(old(self)@, self@);
        }
    }

    fn notify_capture_state(&mut self)
        requires
            old(self).wf(),
        ensures
            final(self)@ == old(self)@.telling(old(self)@.capture_message()),
            final(self).wf(),
    {
        let mut n: Vec<(String, Json)> = Vec::new();
        put_text(&mut n, "_action", "captureState");
        put_bool(&mut n, "state", self.capture_state);
        put_bool(&mut n, "done", self.capture_done);
        assert(members(n@) =~= self@.capture_message()->Object_0);
        self.broadcast_json(Json::Object(n));
    }

    pub fn clear_all_listeners(&mut self)
        requires
            old(self).wf(),
        ensures
            final(self)@ == (DeviceView { listeners: Seq::empty(), ..old(self)@ }),
            final(self).wf(),
    {
        self.listeners.clear();
        assert(self@.listeners =~= Seq::empty());
        assert forall|c: int| 0 <= c < self@.channels.len() implies channel_wf(
            #[trigger] self@.channels[c],
            self@.capture_samples,
        ) by {
            assert(channel_wf(old(self)@.channels[c], old(self)@.capture_samples));
        }
    }

    pub fn reset_all_listeners(&mut self)
        requires
            old(self).wf(),
        ensures
            final(self)@ == (DeviceView {
                listeners: all_reset(old(self)@.listeners),
                ..old(self)@
            }),
            final(self).wf(),
    {
        let mut i: usize = 0;
        let ghost views = self@.listeners;
        while i < self.listeners.len()
            invariant
                i <= self.listeners.len(),
                views == old(self)@.listeners,
                self@.listeners.len() == views.len(),
                self@ == (DeviceView { listeners: self@.listeners, ..old(self)@ }),
                forall|j: int|
                    0 <= j < views.len() ==> #[trigger] self@.listeners[j] == (if j < i {
                        ListenerView { index: 0, out_index: 0, ..views[j] }
                    } else {
                        views[j]
                    }),
            decreases self.listeners.len() - i,
        {
            let ghost before = self@.listeners;
            self.listeners[i].reset();
            assert(before[i as int] == views[i as int]);
            assert(self@.listeners =~= before.update(
                i as int,
                ListenerView { index: 0, out_index: 0, ..before[i as int] },
            ));
            i += 1;
        }
        assert(self@.listeners =~= all_reset(views));
        proof {
            let d = self@;
            assert forall|c: int| 0 <= c < d.channels.len() implies channel_wf(
                #[trigger] d.channels[c],
                d.capture_samples,
            ) by {
                assert(channel_wf(old(self)@.channels[c], old(self)@.capture_samples));
            }
            assert forall|l: int| 0 <= l < d.listeners.len() implies (#[trigger] d.listeners[l]).wf(
                d.channels,
            ) by {
                assert(old(self)@.listeners[l].wf(old(self)@.channels));
            }
        }
    }

    fn rewind_sources(&mut self)
        requires
            old(self).wf(),
        ensures
            final(self)@ == (DeviceView {
                channels: all_rewound(old(self)@.channels),
                ..old(self)@
            }),
            final(self).wf(),
    {
        let mut i: usize = 0;
        let ghost views = self@.channels;
        while i < self.channels.len()
            invariant
                i <= self.channels.len(),
                views == old(self)@.channels,
                self@.channels.len() == views.len(),
                self@ == (DeviceView { channels: self@.channels, ..old(self)@ }),
                forall|j: int|
                    0 <= j < views.len() ==> #[trigger] self@.channels[j] == (if j < i {
                        ChannelView { source: rewound(views[j].source), ..views[j] }
                    } else {
                        views[j]
                    }),
            decreases self.channels.len() - i,
        {
            let ghost before = self@.channels;
            assert(before[i as int] == views[i as int]);
            match &mut self.channels[i].source {
                Some(s) => {
                    s.start_sample = 0;
                },
                None => {},
            }
            assert(self@.channels =~= before.update(
                i as int,
                ChannelView { source: rewound(before[i as int].source), ..before[i as int] },
            ));
            i += 1;
        }
        assert(self@.channels =~= all_rewound(views));
        proof {
            let d = self@;
            assert forall|c: int| 0 <= c < d.channels.len() implies channel_wf(
                #[trigger] d.channels[c],
                d.capture_samples,
            ) by {
                assert(channel_wf(old(self)@.channels[c], old(self)@.capture_samples));
            }
            crate::streaming::lemma_listeners_stay(old(self)@, d);
        }
    }
}

/// The clients but one.
pub open spec fn others(v: Seq<u64>, id: u64) -> Seq<u64>
    decreases v.len(),
{
    if v.len() == 0 {
        Seq::empty()
    } else if v.last() == id {
        others(v.drop_last(), id)
    } else {
        others(v.drop_last(), id).push(v.last())
    }
}

/// The listeners but those of one client.
pub open spec fn others_listening(v: Seq<ListenerView>, id: u64) -> Seq<ListenerView>
    decreases v.len(),
{
    if v.len() == 0 {
        Seq::empty()
    } else if v.last().of_client(id) {
        others_listening(v.drop_last(), id)
    } else {
        others_listening(v.drop_last(), id).push(v.last())
    }
}

impl DeviceView {
    /// With one client more, who is told the state.
    pub open spec fn attached(self, client: u64) -> DeviceView {
        DeviceView { connections: self.connections.push(client), ..self }.doing(
            EffectView::Send { clients: seq![client], message: self.config_message() },
        )
    }

    /// Without a client, and without the listeners of it.
    pub open spec fn detached(self, client: u64) -> DeviceView {
        DeviceView {
            connections: others(self.connections, client),
            listeners: others_listening(self.listeners, client),
            ..self
        }
    }

    /// After the hardware was taken away.
    pub open spec fn disconnected(self) -> DeviceView {
        DeviceView { listeners: Seq::empty(), ..self.telling(action("deviceDisconnected"@)) }
    }

    /// With no listeners, and the clients told the state.
    pub open spec fn telling_config(self) -> DeviceView {
        DeviceView { listeners: Seq::empty(), ..self }.telling(self.config_message())
    }
}

/// The listeners that are left are those of the other clients.
pub proof fn lemma_others_listening(v: Seq<ListenerView>, id: u64)
    ensures
        others_listening(v, id).len() <= v.len(),
        forall|l: ListenerView| #[trigger]
            others_listening(v, id).contains(l) <==> v.contains(l) && !l.of_client(id),
    decreases v.len(),
{
    if v.len() > 0 {
        let w = v.drop_last();
        lemma_others_listening(w, id);
        assert forall|l: ListenerView| #[trigger]
            others_listening(v, id).contains(l) <==> v.contains(l) && !l.of_client(id) by {
            if v.contains(l) && !l.of_client(id) {
                let k = v.index_of(l);
                if k < w.len() {
                    assert(w[k] == l);
                    assert(others_listening(w, id).contains(l));
                    let j = others_listening(w, id).index_of(l);
                    assert(others_listening(v, id)[j] == l);
                } else {
                    assert(others_listening(v, id)[others_listening(v, id).len() - 1] == l);
                }
            }
            if others_listening(v, id).contains(l) {
                let k = others_listening(v, id).index_of(l);
                if k < others_listening(w, id).len() {
                    assert(others_listening(w, id)[k] == l);
                    assert(others_listening(w, id).contains(l));
                    assert(w.contains(l));
                    let j = w.index_of(l);
                    assert(v[j] == l);
                } else {
                    assert(v[v.len() - 1] == l);
                }
            }
        }
    }
}

impl StreamingDevice {
    fn on_reset_capture(&mut self)
        requires
            old(self).wf(),
        ensures
            final(self)@ == old(self)@.reset_hook(),
            final(self).wf(),
    {
        match &mut self.backend {
            Backend::Test(t) => {
                t.resets = t.resets.wrapping_add(1);
                proof {
                    lemma_wf_frame(old(self)@, self@);
                }
                return;
            },
            Backend::M1k(b) => {
                b.unsettle();
                proof {
                    lemma_wf_frame(old(self)@, self@);
                }
            },
            Backend::Cee(_) => {},
        }
        self.rewind_sources();
    }

    pub fn on_start_capture(&mut self)
        requires
            old(self).wf(),
        ensures
            final(self)@ == old(self)@.start_hook(),
            final(self).wf(),
    {
        match &mut self.backend {
            Backend::Test(t) => {
                t.starts = t.starts.wrapping_add(1);
            },
            _ => {
                enqueue(&mut self.out, Effect::Start);
            },
        }
        proof {
            lemma_wf_frame(old(self)@, self@);
        }
    }

    pub fn on_pause_capture(&mut self)
        requires
            old(self).wf(),
        ensures
            final(self)@ == old(self)@.pause_hook(),
            final(self).wf(),
    {
        match &mut self.backend {
            Backend::Test(t) => {
                t.pauses = t.pauses.wrapping_add(1);
            },
            Backend::M1k(b) => {
                enqueue(&mut self.out, Effect::Control(tell(0xC5, 0, 0)));
                b.set_mode(0, HI_Z, &mut self.out);
                b.set_mode(1, HI_Z, &mut self.out);
                enqueue(&mut self.out, Effect::Stop);
                self.capture_o = self.capture_i;
            },
            Backend::Cee(_) => {
                enqueue(&mut self.out, Effect::Control(tell(0x80, 0, 0)));
                enqueue(&mut self.out, Effect::Stop);
                self.capture_o = self.capture_i;
            },
        }
        proof {
            assert(self@.out =~= old(self)@.pause_hook().out);
            lemma_wf_frame(old(self)@, self@);
        }
    }

    pub fn reset_capture(&mut self)
        requires
            old(self).wf(),
        ensures
            final(self)@ == old(self)@.reset(),
            final(self).wf(),
    {
        self.capture_done = false;
        self.capture_i = 0;
        self.capture_o = 0;
        proof {
            lemma_wf_frame(old(self)@, self@);
        }
        self.on_reset_capture();
        self.reset_all_listeners();
        self.broadcast_json(action_json("captureReset"));
    }

    pub fn start_capture(&mut self)
        requires
            old(self).wf(),
        ensures
            final(self)@ == old(self)@.started(),
            final(self).wf(),
    {
        if !self.capture_state {
            if self.capture_done {
                self.reset_capture();
            }
            self.on_start_capture();
            let ghost before = self@;
            self.capture_state = true;
            proof {
                lemma_wf_frame(before, self@);
            }
            self.notify_capture_state();
        }
    }

    pub fn pause_capture(&mut self)
        requires
            old(self).wf(),
        ensures
            final(self)@ == old(self)@.paused(),
            final(self).wf(),
    {
        if self.capture_state {
            self.capture_state = false;
            proof {
                lemma_wf_frame(old(self)@, self@);
            }
            self.on_pause_capture();
            self.notify_capture_state();
        }
    }

    fn done_capture(&mut self)
        requires
            old(self).wf(),
        ensures
            final(self)@ == old(self)@.finished(),
            final(self).wf(),
    {
        self.capture_done = true;
        proof {
            lemma_wf_frame(old(self)@, self@);
        }
        if self.capture_state {
            let ghost before = self@;
            self.capture_state = false;
            proof {
                lemma_wf_frame(before, self@);
            }
            self.on_pause_capture();
        }
        self.notify_capture_state();
    }

    /// The end of an input packet, once the listeners have had their samples.
    pub fn packet_done(&mut self)
        requires
            old(self).wf(),
        ensures
            final(self)@ == old(self)@.packet_done(),
            final(self).wf(),
    {
        if !self.capture_continuous && self.capture_i >= self.capture_samples as u64 {
            self.done_capture();
        }
    }

    fn config_json(&self) -> (r: Json)
        requires
            self.wf(),
        ensures
            r@ == self@.config_message(),
    {
        let mut n: Vec<(String, Json)> = Vec::new();
        put_text(&mut n, "_action", "deviceConfig");
        put(&mut n, "device", self.state_to_json(false));
        assert(members(n@) =~= self@.config_message()->Object_0);
        Json::Object(n)
    }

    /// Drops the listeners and tells the clients the configuration.
    pub fn notify_config(&mut self)
        requires
            old(self).wf(),
        ensures
            final(self)@ == old(self)@.telling_config(),
            final(self).wf(),
    {
        let m = self.config_json();
        self.clear_all_listeners();
        self.broadcast_json(m);
    }

    /// Tells the clients of the source of a channel.
    pub fn notify_output_changed(&mut self, chan: usize)
        requires
            old(self).wf(),
            chan < old(self)@.channels.len(),
        ensures
            final(self)@ == old(self)@.telling_output(chan as int),
            final(self).wf(),
    {
        assert(channel_wf(self@.channels[chan as int], self@.capture_samples));
        assert(self@.channels[chan as int] == self.channels@[chan as int]@);
        let mut n: Vec<(String, Json)> = Vec::new();
        put_text(&mut n, "_action", "outputChanged");
        put_text(&mut n, "channel", self.channels[chan].id.as_str());
        match &self.channels[chan].source {
            Some(src) => {
                src.describe(&mut n);
            },
            None => {
                return;
            },
        }
        assert(members(n@) =~= self@.output_message(chan as int)->Object_0);
        self.broadcast_json(Json::Object(n));
    }

    /// Tells the clients of the gain of a stream.
    pub fn notify_gain_changed(&mut self, chan: usize, stream: usize)
        requires
            old(self).wf(),
            crate::streaming::has_stream(old(self)@.channels, chan as int, stream as int),
        ensures
            final(self)@ == old(self)@.telling(
                old(self)@.gain_message(chan as int, stream as int),
            ),
            final(self).wf(),
    {
        let mut n: Vec<(String, Json)> = Vec::new();
        put_text(&mut n, "_action", "gainChanged");
        put_text(&mut n, "channel", self.channels[chan].id.as_str());
        put_text(&mut n, "stream", self.channels[chan].streams[stream].id.as_str());
        put_number(&mut n, "gain", self.channels[chan].streams[stream].get_gain());
        assert(members(n@) =~= self@.gain_message(chan as int, stream as int)->Object_0);
        self.broadcast_json(Json::Object(n));
    }

    /// Marks a source that has come into effect, and tells the clients.
    pub fn check_output_effective(&mut self, chan: usize)
        requires
            old(self).wf(),
            chan < old(self)@.channels.len(),
        ensures
            final(self)@ == old(self)@.checked(chan as int),
            final(self).wf(),
    {
        let ghost before = self@;
        assert(channel_wf(before.channels[chan as int], before.capture_samples));
        assert(before.channels[chan as int] == self.channels@[chan as int]@);
        let due = match &self.channels[chan].source {
            Some(s) => !s.effective && self.capture_i > s.start_sample,
            None => false,
        };
        if !due {
            return;
        }
        match &mut self.channels[chan].source {
            Some(s) => {
                s.effective = true;
            },
            None => {},
        }
        proof {
            let c = before.channels[chan as int];
            let s = c.source->Some_0;
            let d = self@;
            assert(d.channels =~= before.channels.update(
                chan as int,
                ChannelView { source: Some(SourceView { effective: true, ..s }), ..c },
            ));
            assert forall|k: int| 0 <= k < d.channels.len() implies channel_wf(
                #[trigger] d.channels[k],
                d.capture_samples,
            ) by {
                assert(channel_wf(before.channels[k], before.capture_samples));
            }
            crate::streaming::lemma_listeners_stay(before, d);
        }
        self.notify_output_changed(chan);
    }

    // ---- clients ----

    pub fn on_client_attach(&mut self, client: u64)
        requires
            old(self).wf(),
        ensures
            final(self)@ == old(self)@.attached(client),
            final(self).wf(),
    {
        let m = self.config_json();
        self.connections.push(client);
        let mut clients: Vec<u64> = Vec::new();
        clients.push(client);
        assert(clients@ =~= seq![client]);
        enqueue(&mut self.out, Effect::Send { clients, message: m });
        proof {
            lemma_wf_frame(old(self)@, self@);
        }
    }

    pub fn on_client_detach(&mut self, client: u64)
        requires
            old(self).wf(),
        ensures
            final(self)@ == old(self)@.detached(client),
            final(self).wf(),
    {
        let ghost before = self@;
        let mut kept: Vec<u64> = Vec::new();
        let mut i: usize = 0;
        assert(before.connections.take(0) =~= Seq::empty());
        while i < self.connections.len()
            invariant
                i <= self.connections.len(),
                self@ == before,
                before.connections == self.connections@,
                kept@ == others(before.connections.take(i as int), client),
            decreases self.connections.len() - i,
        {
            assert(before.connections.take(i + 1).drop_last() =~= before.connections.take(
                i as int,
            ));
            if self.connections[i] != client {
                kept.push(self.connections[i]);
            }
            i += 1;
        }
        assert(before.connections.take(i as int) =~= before.connections);
        self.connections = kept;
        let ghost all = before.listeners;
        let ghost mut done: int = 0;
        let mut at: usize = 0;
        assert(all.take(0) =~= Seq::empty());
        assert(self@.listeners =~= others_listening(all.take(0), client) + all.skip(0));
        while at < self.listeners.len()
            invariant
                0 <= done <= all.len(),
                self@ == (DeviceView {
                    connections: others(before.connections, client),
                    listeners: self@.listeners,
                    ..before
                }),
                all == before.listeners,
                self@.listeners == others_listening(all.take(done), client) + all.skip(done),
                at == others_listening(all.take(done), client).len(),
                self@.listeners.len() == self.listeners.len(),
            decreases all.len() - done,
        {
            let ghost now = self@.listeners;
            assert(now[at as int] == all[done]);
            assert(all.take(done + 1).drop_last() =~= all.take(done));
            if self.listeners[at].is_from_client(client) {
                self.listeners.remove(at);
                assert(self@.listeners =~= now.remove(at as int));
            } else {
                at += 1;
            }
            proof {
                done = done + 1;
                assert(self@.listeners =~= others_listening(all.take(done), client) + all.skip(
                    done,
                ));
            }
        }
        proof {
            assert(done == all.len());
            assert(all.take(done) =~= all);
            assert(self@.listeners =~= others_listening(all, client));
            lemma_others_listening(all, client);
            let d = self@;
            assert forall|c: int| 0 <= c < d.channels.len() implies channel_wf(
                #[trigger] d.channels[c],
                d.capture_samples,
            ) by {
                assert(channel_wf(before.channels[c], before.capture_samples));
            }
            assert forall|l: int| 0 <= l < d.listeners.len() implies (#[trigger] d.listeners[l]).wf(
                d.channels,
            ) by {
                assert(others_listening(all, client).contains(d.listeners[l]));
                let j = all.index_of(d.listeners[l]);
                assert(before.listeners[j].wf(before.channels));
            }
        }
    }

    /// The hardware was taken away.
    pub fn on_disconnect(&mut self)
        requires
            old(self).wf(),
        ensures
            final(self)@ == old(self)@.disconnected(),
            final(self).wf(),
    {
        self.broadcast_json(action_json("deviceDisconnected"));
        self.clear_all_listeners();
    }
}

} // verus!
