//! What holds of the capture of a device.

use crate::capture::{all_reset, lemma_others_listening, others, others_listening};
use crate::config::{ConfigRequest, Timing};
use crate::effect::EffectView;
use crate::float::{Single, NAN_BITS};
use crate::listener::{ListenerView, Sink};
use crate::source::{PhaseReply, SourceView};
use crate::streaming::{
    channel_wf, has_stream, law_last_sample_reads_back, law_samples_stay, lemma_listeners_stay,
    one_on, same_shape, COUNT_LIMIT, DeviceView,
};
use vstd::prelude::*;

verus! {

// ---- the buffer ----

/// A device after samples came for a stream, one after the other.
pub open spec fn fed(d: DeviceView, chan: int, stream: int, samples: Seq<Single>) -> DeviceView
    decreases samples.len(),
{
    if samples.len() == 0 {
        d
    } else {
        one_on(fed(d, chan, stream, samples.drop_last()), chan, stream, samples.last())
    }
}

proof fn lemma_fed(d: DeviceView, chan: int, stream: int, samples: Seq<Single>)
    requires
        d.wf(),
        has_stream(d.channels, chan, stream),
        d.capture_i + samples.len() <= COUNT_LIMIT,
    ensures
        ({
            let e = fed(d, chan, stream, samples);
            &&& e.wf()
            &&& e.capture_i == d.capture_i + samples.len()
            &&& e.capture_samples == d.capture_samples
            &&& e.capture_continuous == d.capture_continuous
            &&& has_stream(e.channels, chan, stream)
        }),
    decreases samples.len(),
{
    if samples.len() > 0 {
        lemma_fed(d, chan, stream, samples.drop_last());
        let e = fed(d, chan, stream, samples.drop_last());
        let f = e.with_sample(chan, stream, samples.last());
        assert(channel_wf(e.channels[chan], e.capture_samples));
        assert(e.channels[chan].streams[stream].data.len() == e.capture_samples);
        assert forall|c: int| 0 <= c < f.channels.len() implies channel_wf(
            #[trigger] f.channels[c],
            f.capture_samples,
        ) by {
            assert(channel_wf(e.channels[c], e.capture_samples));
        }
        assert(same_shape(e.channels, f.channels));
        lemma_listeners_stay(e, f);
    }
}

/// What was written is read back: of the samples that came for a stream, each that
/// the buffer has not lost is there under its number.
pub proof fn law_samples_read_back(
    d: DeviceView,
    chan: int,
    stream: int,
    samples: Seq<Single>,
    k: int,
)
    requires
        d.wf(),
        has_stream(d.channels, chan, stream),
        d.capture_samples > 0,
        d.capture_i + samples.len() <= COUNT_LIMIT,
        d.capture_continuous || d.capture_i + samples.len() <= d.capture_samples,
        0 <= k < samples.len(),
        !fed(d, chan, stream, samples).lost(d.capture_i + k),
    ensures
        fed(d, chan, stream, samples).sample(chan, stream, d.capture_i + k) == samples[k],
    decreases samples.len(),
{
    let before = samples.drop_last();
    let e = fed(d, chan, stream, before);
    lemma_fed(d, chan, stream, before);
    lemma_fed(d, chan, stream, samples);
    if k == samples.len() - 1 {
        law_last_sample_reads_back(e, chan, stream, samples.last());
    } else {
        law_samples_read_back(d, chan, stream, before, k);
        law_samples_stay(e, chan, stream, samples.last(), chan, stream, d.capture_i + k);
    }
}

// ---- starting and pausing ----

/// Starting a capture that runs does nothing, and a started capture runs.
pub proof fn law_start_once(d: DeviceView)
    ensures
        d.started().capture_state,
        d.started().started() == d.started(),
        d.capture_state ==> d.started() == d,
{
}

/// Pausing a capture that does not run does nothing, and a paused capture does not
/// run.
pub proof fn law_pause_once(d: DeviceView)
    ensures
        !d.paused().capture_state,
        d.paused().paused() == d.paused(),
        !d.capture_state ==> d.paused() == d,
{
}

/// A capture that was paused before its end goes on where it was.
pub proof fn law_pause_keeps_samples(d: DeviceView)
    requires
        d.capture_state,
        !d.capture_done,
    ensures
        ({
            let e = d.paused().started();
            &&& e.capture_state
            &&& e.capture_i == d.capture_i
            &&& e.channels == d.channels
            &&& e.listeners == d.listeners
        }),
{
}

/// A capture that is started after its end begins anew, and so do its listeners.
pub proof fn law_restart_begins_anew(d: DeviceView)
    requires
        d.capture_done,
        !d.capture_state,
    ensures
        ({
            let e = d.started();
            &&& e.capture_state
            &&& !e.capture_done
            &&& e.capture_i == 0
            &&& e.capture_o == 0
            &&& e.listeners.len() == d.listeners.len()
            &&& forall|l: int|
                0 <= l < d.listeners.len() ==> #[trigger] e.listeners[l] == (ListenerView {
                    index: 0,
                    out_index: 0,
                    ..d.listeners[l]
                })
        }),
{
    assert(d.started().listeners == all_reset(d.listeners));
}

/// A capture ends when its buffer is full, unless it goes on without end.
pub proof fn law_full_capture_ends(d: DeviceView)
    ensures
        d.capture_continuous || d.capture_i < d.capture_samples ==> d.packet_done() == d,
        !d.capture_continuous && d.capture_i >= d.capture_samples ==> d.packet_done().capture_done
            && !d.packet_done().capture_state,
        d.packet_done().capture_i == d.capture_i,
{
}

/// A configured device is paused, at its first sample, without listeners, and has no
/// sample that could be read.
pub proof fn law_configuration_begins_anew(
    d: DeviceView,
    r: ConfigRequest,
    t: Timing,
    chan: int,
    stream: int,
    i: int,
)
    requires
        0 <= i,
    ensures
        ({
            let e = d.configured(r, t);
            &&& !e.capture_state
            &&& e.capture_i == 0
            &&& e.capture_o == 0
            &&& e.capture_samples == r.samples
            &&& e.capture_continuous == r.continuous
            &&& e.listeners.len() == 0
            &&& e.connections == d.connections
            &&& e.sample(chan, stream, i) == (Single { bits: NAN_BITS })
        }),
{
}

// ---- clients ----

pub proof fn lemma_others(v: Seq<u64>, id: u64)
    ensures
        forall|c: u64| #[trigger] others(v, id).contains(c) <==> v.contains(c) && c != id,
    decreases v.len(),
{
    if v.len() > 0 {
        let w = v.drop_last();
        lemma_others(w, id);
        assert forall|c: u64| #[trigger] others(v, id).contains(c) <==> v.contains(c) && c
            != id by {
            if v.contains(c) && c != id {
                let k = v.index_of(c);
                if k < w.len() {
                    assert(w[k] == c);
                    assert(others(w, id).contains(c));
                    let j = others(w, id).index_of(c);
                    assert(others(v, id)[j] == c);
                } else {
                    assert(others(v, id)[others(v, id).len() - 1] == c);
                }
            }
            if others(v, id).contains(c) {
                let k = others(v, id).index_of(c);
                if k < others(w, id).len() {
                    assert(others(w, id)[k] == c);
                    assert(others(w, id).contains(c));
                    assert(w.contains(c));
                    let j = w.index_of(c);
                    assert(v[j] == c);
                } else {
                    assert(v[v.len() - 1] == c);
                }
            }
        }
    }
}

/// A client that was detached is forgotten with its listeners, and nobody else is.
pub proof fn law_detached_client_is_forgotten(
    d: DeviceView,
    client: u64,
    other: u64,
    l: ListenerView,
)
    ensures
        ({
            let e = d.detached(client);
            &&& e.connections.contains(other) <==> d.connections.contains(other) && other != client
            &&& e.listeners.contains(l) <==> d.listeners.contains(l) && !l.of_client(client)
        }),
{
    lemma_others(d.connections, client);
    lemma_others_listening(d.listeners, client);
    assert(others(d.connections, client).contains(other) <==> d.connections.contains(other) && other
        != client);
    assert(others_listening(d.listeners, client).contains(l) <==> d.listeners.contains(l)
        && !l.of_client(client));
}

proof fn lemma_order_is_kept(v: Seq<u64>, w: Seq<ListenerView>, id: u64)
    ensures
        others(v, id) == v.filter(|c: u64| c != id),
        others_listening(w, id) == w.filter(|l: ListenerView| !l.of_client(id)),
    decreases v.len() + w.len(),
{
    reveal(Seq::filter);
    if v.len() > 0 {
        lemma_order_is_kept(v.drop_last(), Seq::empty(), id);
    } else {
        assert(v =~= Seq::empty());
    }
    if w.len() > 0 {
        lemma_order_is_kept(Seq::empty(), w.drop_last(), id);
    } else {
        assert(w =~= Seq::empty());
    }
}

/// The clients and listeners that stay when a client is detached stay in their order,
/// and none is there twice that was not before.
pub proof fn law_others_keep_their_order(d: DeviceView, client: u64)
    ensures
        d.detached(client).connections == d.connections.filter(|c: u64| c != client),
        d.detached(client).listeners == d.listeners.filter(
            |l: ListenerView| !(l.sink matches Sink::Ws { client: c, .. } && c == client),
        ),
{
    lemma_order_is_kept(d.connections, d.listeners, client);
    let p = |l: ListenerView| !l.of_client(client);
    let q = |l: ListenerView| !(l.sink matches Sink::Ws { client: c, .. } && c == client);
    assert(p =~= q);
}

/// A client that attaches is the only one to be told of the device then.
pub proof fn law_attached_client_is_told(d: DeviceView, client: u64)
    ensures
        d.attached(client).connections.contains(client),
        d.attached(client).out == d.out.push(
            EffectView::Send { clients: seq![client], message: d.config_message() },
        ),
{
    let c = d.attached(client).connections;
    assert(c[c.len() - 1] == client);
}

/// Every attached client is told when the capture starts, pauses or ends, and what is
/// told is the state that it then has.
pub proof fn law_everyone_hears_of_captures(d: DeviceView)
    ensures
        ({
            let e = d.started();
            !d.capture_state ==> e.out.last() == (EffectView::Send {
                clients: d.connections,
                message: e.capture_message(),
            })
        }),
        ({
            let e = d.paused();
            d.capture_state ==> e.out.last() == (EffectView::Send {
                clients: d.connections,
                message: e.capture_message(),
            })
        }),
        ({
            let e = d.finished();
            e.out.last() == (EffectView::Send {
                clients: d.connections,
                message: e.capture_message(),
            })
        }),
{
}

/// What a device has still to do is done in order: nothing that was to be done is lost
/// or overtaken.
pub proof fn law_effects_keep_their_order(
    d: DeviceView,
    r: ConfigRequest,
    t: Timing,
    chan: int,
    source: SourceView,
    reply: PhaseReply,
    client: u64,
)
    ensures
        d.out.is_prefix_of(d.started().out),
        d.out.is_prefix_of(d.paused().out),
        d.out.is_prefix_of(d.packet_done().out),
        d.out.is_prefix_of(d.configured(r, t).out),
        d.out.is_prefix_of(d.with_output(chan, source, reply).out),
        d.out.is_prefix_of(d.checked(chan).out),
        d.out.is_prefix_of(d.attached(client).out),
        d.out.is_prefix_of(d.disconnected().out),
{
}

// ---- sources ----

/// A source that was put in place is in effect once a sample after its start has come
/// in, from then on, and the clients are told once.
pub proof fn law_source_takes_effect(d: DeviceView, chan: int)
    requires
        0 <= chan < d.channels.len(),
        d.channels[chan].source is Some,
    ensures
        ({
            let s = d.channels[chan].source->Some_0;
            let e = d.checked(chan);
            &&& e.channels[chan].source == Some(
                SourceView { effective: s.effective || d.capture_i > s.start_sample, ..s },
            )
            &&& e.checked(chan) == e
            &&& s.effective ==> e == d
            &&& e.out.len() == (if !s.effective && d.capture_i > s.start_sample {
                d.out.len() + 1
            } else {
                d.out.len()
            })
        }),
{
}

/// A new source is in place with the number of the output sample that it starts with:
/// on hardware the one after that which is under way.
pub proof fn law_source_starts_next(d: DeviceView, chan: int, source: SourceView, reply: PhaseReply)
    requires
        0 <= chan < d.channels.len(),
        d.capture_o < u64::MAX,
    ensures
        ({
            let s = d.with_output(chan, source, reply).channels[chan].source;
            &&& s is Some
            &&& s->Some_0.mode == source.mode
            &&& s->Some_0.hint == source.hint
            &&& s->Some_0.start_sample == d.capture_o + (if d.backend is Test {
                0int
            } else {
                1int
            })
        }),
{
}

} // verus!
