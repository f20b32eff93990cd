//! What holds of the commands that make listeners, and of the forms in which listeners
//! send what they have.

use crate::config::{channel_place, stream_place};
use crate::delivery::place_of;
use crate::float::Single;
use crate::jsonutil::{array_at, bool_at, field, int_at, number_at, string_at, JsonTree, Number};
use crate::laws::texts::{free_of, lemma_last_piece, lemma_one_piece};
use crate::listener::{
    data_trees, line, lines, listener_from, look_of, rest_listener, stream_named, streams_from,
    ListenerView, Next, Sink, TriggerType, UpdateView, Zero,
};
use crate::source::zero_after;
use crate::streaming::{ChannelView, DeviceView, StreamView};
use crate::text::pieces;
use vstd::prelude::*;

verus! {

// ---- names ----

proof fn lemma_channel_found(v: Seq<ChannelView>, id: Seq<char>)
    ensures
        0 <= channel_place(v, id) <= v.len(),
        channel_place(v, id) < v.len() ==> v[channel_place(v, id)].id == id,
        forall|j: int| 0 <= j < channel_place(v, id) ==> (#[trigger] v[j]).id != id,
    decreases v.len(),
{
    if v.len() > 0 && v[0].id != id {
        let w = v.drop_first();
        lemma_channel_found(w, id);
        assert forall|j: int| 0 <= j < channel_place(v, id) implies (#[trigger] v[j]).id != id by {
            if j > 0 {
                assert(w[j - 1] == v[j]);
            }
        }
    }
}

proof fn lemma_stream_found(v: Seq<StreamView>, id: Seq<char>)
    ensures
        0 <= stream_place(v, id) <= v.len(),
        stream_place(v, id) < v.len() ==> v[stream_place(v, id)].id == id,
        forall|j: int| 0 <= j < stream_place(v, id) ==> (#[trigger] v[j]).id != id,
    decreases v.len(),
{
    if v.len() > 0 && v[0].id != id {
        let w = v.drop_first();
        lemma_stream_found(w, id);
        assert forall|j: int| 0 <= j < stream_place(v, id) implies (#[trigger] v[j]).id != id by {
            if j > 0 {
                assert(w[j - 1] == v[j]);
            }
        }
    }
}

/// The channel that a name means has that name, and is the first that has it; where no
/// channel has it, none is meant.
pub proof fn law_channel_has_the_name(d: DeviceView, id: Seq<char>)
    ensures
        d.channel(id) matches Some(c) ==> 0 <= c < d.channels.len() && d.channels[c].id == id && (
        forall|j: int| 0 <= j < c ==> (#[trigger] d.channels[j]).id != id),
        d.channel(id) is None ==> forall|j: int|
            0 <= j < d.channels.len() ==> (#[trigger] d.channels[j]).id != id,
{
    lemma_channel_found(d.channels, id);
}

/// The stream that two names mean has the second as its name, and is one of the channel
/// that has the first; where there is none, it is said which of the two names is wrong.
pub proof fn law_stream_has_the_name(d: DeviceView, channel: Seq<char>, stream: Seq<char>)
    ensures
        d.stream(channel, stream) matches Ok((c, s)) ==> {
            &&& d.channel(channel) == Some(c)
            &&& d.channels[c].id == channel
            &&& 0 <= s < d.channels[c].streams.len()
            &&& d.channels[c].streams[s].id == stream
            &&& forall|j: int| 0 <= j < s ==> (#[trigger] d.channels[c].streams[j]).id != stream
        },
        d.stream(channel, stream) matches Err(m) ==> {
            &&& m == "Channel not found"@ && d.channel(channel) is None || (m
                == "Stream not found"@ && d.channel(channel) is Some && forall|j: int|
                0 <= j < d.channels[d.channel(channel)->Some_0].streams.len() ==> (
                #[trigger] d.channels[d.channel(channel)->Some_0].streams[j]).id != stream)
        },
{
    law_channel_has_the_name(d, channel);
    if let Some(c) = d.channel(channel) {
        lemma_stream_found(d.channels[c].streams, stream);
    }
}

// ---- what a client asks for ----

/// Whether a listener's stream is the one that a document names.
pub open spec fn meant(d: DeviceView, n: JsonTree, s: (usize, usize)) -> bool {
    &&& s.0 < d.channels.len()
    &&& s.1 < d.channels[s.0 as int].streams.len()
    &&& string_at(n, "channel"@) == Some(d.channels[s.0 as int].id)
    &&& string_at(n, "stream"@) == Some(d.channels[s.0 as int].streams[s.1 as int].id)
}

/// Whether a device is no larger than a machine can count.
pub open spec fn countable(d: DeviceView) -> bool {
    &&& d.channels.len() <= usize::MAX
    &&& forall|c: int|
        0 <= c < d.channels.len() ==> (#[trigger] d.channels[c]).streams.len() <= usize::MAX
}

proof fn lemma_streams_meant(d: DeviceView, a: Seq<JsonTree>)
    requires
        countable(d),
    ensures
        streams_from(d, a) matches Ok(v) ==> v.len() == a.len() && forall|i: int|
            0 <= i < a.len() ==> meant(d, #[trigger] a[i], v[i]),
    decreases a.len(),
{
    if a.len() > 0 {
        let b = a.drop_last();
        lemma_streams_meant(d, b);
        if let Ok(v) = streams_from(d, a) {
            lemma_stream_meant(d, a.last());
            assert forall|i: int| 0 <= i < a.len() implies meant(d, #[trigger] a[i], v[i]) by {
                if i < b.len() {
                    assert(b[i] == a[i]);
                } else {
                    assert(a[i] == a.last());
                }
            }
        }
    }
}

proof fn lemma_stream_meant(d: DeviceView, n: JsonTree)
    requires
        countable(d),
    ensures
        stream_named(d, n) matches Ok(s) ==> meant(d, n, s),
{
    if let (Some(c), Some(s)) = (string_at(n, "channel"@), string_at(n, "stream"@)) {
        law_channel_has_the_name(d, c);
        law_stream_has_the_name(d, c, s);
        if let Some(k) = d.channel(c) {
            assert(d.channels[k].streams.len() <= usize::MAX);
        }
    }
}

/// A listener is as its client asked: it has the id and the number of output samples
/// of the command and the streams that it names, in their order, takes at least one
/// input sample for an output sample, starts at the sample that was asked for, or at
/// the next one, and sends to that client in the form that it wants.
pub proof fn law_listener_is_as_asked(d: DeviceView, client: u64, n: JsonTree)
    requires
        countable(d),
    ensures
        listener_from(d, client, n) matches Ok(l) ==> {
            &&& int_at(n, "id"@) == Some(l.id)
            &&& int_at(n, "count"@) == Some(l.count)
            &&& l.sink == (Sink::Ws { client, binary: bool_at(n, "binary"@) == Some(true) })
            &&& l.out_index == 0
            &&& !l.triggered
            &&& array_at(n, "streams"@) matches Some(a) && l.streams.len() == a.len() && (forall|
                i: int,
            |
                0 <= i < a.len() ==> meant(d, #[trigger] a[i], l.streams[i]))
            &&& match int_at(n, "decimateFactor"@) {
                Some(x) => (x >= 1 ==> l.decimate_factor == x) && (x < 1 ==> l.decimate_factor
                    == 1),
                None => l.decimate_factor == 1,
            }
            &&& match int_at(n, "start"@) {
                Some(x) => {
                    &&& x >= 0 ==> l.index == x
                    &&& x < 0 && d.capture_i + x + 1 >= 0 ==> l.index == d.capture_i + x + 1
                    &&& x < 0 && d.capture_i + x + 1 < 0 ==> l.index == 0
                },
                None => l.index == d.capture_i,
            }
            &&& !(field(n, "trigger"@) matches Some(t) && t is Object) ==> l.trigger_type
                == TriggerType::Off && !l.trigger_repeat && l.trigger_force == 0
        },
{
    if let Some(a) = array_at(n, "streams"@) {
        lemma_streams_meant(d, a);
    }
}

/// A command to listen fails if and only if it lacks an id, a count or streams, or one
/// of its streams or its trigger is not there; and what it lacks first is told.
pub proof fn law_listening_needs(d: DeviceView, client: u64, n: JsonTree)
    ensures
        int_at(n, "id"@) is None ==> listener_from(d, client, n) == Err::<
            ListenerView,
            Seq<char>,
        >("JSON missing int property: "@ + "id"@),
        int_at(n, "id"@) is Some && int_at(n, "count"@) is None ==> listener_from(d, client, n)
            == Err::<ListenerView, Seq<char>>("JSON missing int property: "@ + "count"@),
        int_at(n, "id"@) is Some && int_at(n, "count"@) is Some && array_at(n, "streams"@) is None
            ==> listener_from(d, client, n) == Err::<ListenerView, Seq<char>>(
            "JSON missing property: streams"@,
        ),
        int_at(n, "id"@) is Some && int_at(n, "count"@) is Some && array_at(n, "streams"@)
            == Some(Seq::<JsonTree>::empty()) && !(field(n, "trigger"@) matches Some(t) && t
            is Object) ==> listener_from(d, client, n) is Ok,
{
}

/// A trigger is as its client asked. It waits for a stream to rise above a level unless
/// the client asks for a source; the sweeps repeat unless the client does not want that;
/// and the time that starts a sweep without a trigger is counted from the start.
pub proof fn law_trigger_is_as_asked(d: DeviceView, client: u64, n: JsonTree, t: JsonTree)
    requires
        countable(d),
        d.capture_i <= i64::MAX,
        field(n, "trigger"@) == Some(t),
        t is Object,
        listener_from(d, client, n) is Ok,
    ensures
        ({
            let l = listener_from(d, client, n)->Ok_0;
            let offset = int_at(t, "offset"@).unwrap_or(0);
            let holdoff = int_at(t, "holdoff"@).unwrap_or(0);
            let force = int_at(t, "force"@).unwrap_or(0);
            &&& l.trigger_repeat == (bool_at(t, "repeat"@) != Some(false))
            &&& l.trigger_offset == offset
            &&& l.trigger_force == (if force < 0 {
                0
            } else {
                force as int
            })
            &&& l.trigger_force_index == l.index + l.trigger_force
            &&& offset >= 0 || holdoff > -offset ==> l.trigger_holdoff == holdoff
            &&& i64::MIN < offset < 0 && holdoff <= -offset ==> l.trigger_holdoff == -offset
            &&& string_at(t, "type"@) is None || string_at(t, "type"@) == Some("in"@) ==> {
                &&& l.trigger_type == TriggerType::InStream
                &&& meant(d, t, l.trigger_stream)
                &&& number_at(t, "level"@) matches Some(x) && l.trigger_level == x.narrowed()
            }
            &&& string_at(t, "type"@) == Some("out"@) ==> {
                &&& l.trigger_type == TriggerType::OutSource
                &&& l.trigger_channel < d.channels.len()
                &&& string_at(t, "channel"@) == Some(d.channels[l.trigger_channel as int].id)
            }
            &&& string_at(t, "type"@) matches Some(w) ==> w == "in"@ || w == "out"@
        }),
{
    reveal_strlit("in");
    reveal_strlit("out");
    assert("in"@.len() != "out"@.len());
    lemma_stream_meant(d, t);
    if let Some(c) = string_at(t, "channel"@) {
        law_channel_has_the_name(d, c);
    }
}

/// A trigger of a kind that there is not, or of a channel that there is not, is
/// complained of.
pub proof fn law_bad_triggers_are_refused(d: DeviceView, client: u64, n: JsonTree, t: JsonTree)
    requires
        field(n, "trigger"@) == Some(t),
        t is Object,
        int_at(n, "id"@) is Some,
        int_at(n, "count"@) is Some,
        array_at(n, "streams"@) matches Some(a) && streams_from(d, a) is Ok,
    ensures
        string_at(t, "type"@) matches Some(w) && w != "in"@ && w != "out"@ ==> listener_from(
            d,
            client,
            n,
        ) == Err::<ListenerView, Seq<char>>("Invalid trigger type"@),
        string_at(t, "type"@) == Some("out"@) && (string_at(t, "channel"@) matches Some(c)
            && d.channel(c) is None) ==> listener_from(d, client, n) == Err::<
            ListenerView,
            Seq<char>,
        >("Trigger channel not found"@),
        string_at(t, "type"@) == Some("in"@) && number_at(t, "level"@) is None ==> listener_from(
            d,
            client,
            n,
        ) == Err::<ListenerView, Seq<char>>("JSON missing float property: "@ + "level"@),
{
    reveal_strlit("in");
    reveal_strlit("out");
    assert("in"@.len() != "out"@.len());
}

/// A request for the samples of a channel gets all its streams in their order, without
/// a trigger.
pub proof fn law_response_has_all_streams(
    d: DeviceView,
    channel: int,
    stream: u64,
    decimate_factor: u64,
    start: i64,
    count: i64,
    s: int,
)
    requires
        0 <= channel < d.channels.len() <= usize::MAX,
        0 <= s < d.channels[channel].streams.len() <= usize::MAX,
    ensures
        ({
            let l = rest_listener(d, channel, stream, decimate_factor, start, count);
            &&& l.streams.len() == d.channels[channel].streams.len()
            &&& l.streams[s].0 == channel
            &&& l.streams[s].1 == s
            &&& l.sink == (Sink::Rest { stream })
            &&& l.count == count
            &&& l.out_index == 0
            &&& l.trigger_type == TriggerType::Off
            &&& decimate_factor >= 1 ==> l.decimate_factor == decimate_factor
            &&& decimate_factor == 0 ==> l.decimate_factor == 1
            &&& start >= 0 ==> l.index == start
            &&& start < 0 && d.capture_i + start + 1 >= 0 ==> l.index == d.capture_i + start + 1
            &&& start < 0 && d.capture_i + start + 1 < 0 ==> l.index == 0
            &&& !l.trigger_repeat
        }),
{
}

// ---- listeners of a device ----

proof fn lemma_listener_place(v: Seq<ListenerView>, client: u64, id: i64)
    ensures
        0 <= place_of(v, client, id) <= v.len(),
        forall|j: int|
            0 <= j < place_of(v, client, id) ==> !((#[trigger] v[j]).of_client(client) && v[j].id
                == id),
        place_of(v, client, id) < v.len() ==> v[place_of(v, client, id)].of_client(client)
            && v[place_of(v, client, id)].id == id,
    decreases v.len(),
{
    if v.len() > 0 && !(v[0].of_client(client) && v[0].id == id) {
        let w = v.drop_first();
        lemma_listener_place(w, client, id);
        assert forall|j: int| 0 <= j < place_of(v, client, id) implies !((#[trigger] v[j]).of_client(
            client,
        ) && v[j].id == id) by {
            if j > 0 {
                assert(w[j - 1] == v[j]);
            }
        }
    }
}

/// A client that stops a listener loses the first that it has with that id and no
/// other; the listeners of the others, and what else the device has, stay as they are.
pub proof fn law_stopping_ends_one_listener(d: DeviceView, client: u64, id: i64, i: int)
    requires
        0 <= i < d.listeners.len(),
        d.listeners[i].sink matches Sink::Ws { client: c, .. } && c == client,
        d.listeners[i].id == id,
        forall|j: int|
            0 <= j < i ==> !((#[trigger] d.listeners[j]).of_client(client) && d.listeners[j].id
                == id),
    ensures
        ({
            let e = d.unlistened(client, id);
            &&& e.listeners.len() == d.listeners.len() - 1
            &&& forall|j: int| 0 <= j < i ==> #[trigger] e.listeners[j] == d.listeners[j]
            &&& forall|j: int|
                i <= j < e.listeners.len() ==> #[trigger] e.listeners[j] == d.listeners[j + 1]
            &&& e == (DeviceView { listeners: e.listeners, ..d })
        }),
{
    lemma_listener_place(d.listeners, client, id);
    assert(d.listeners[i].of_client(client));
}

/// Stopping what one does not have changes nothing, and a new listener comes last.
pub proof fn law_listeners_come_last(d: DeviceView, client: u64, id: i64, l: ListenerView)
    ensures
        (forall|j: int|
            0 <= j < d.listeners.len() ==> !((#[trigger] d.listeners[j]).of_client(client)
                && d.listeners[j].id == id)) ==> d.unlistened(client, id) == d,
        d.listened(l).listeners == d.listeners.push(l),
        d.listened(l) == (DeviceView { listeners: d.listened(l).listeners, ..d }),
        l.of_client(client) <==> (l.sink matches Sink::Ws { client: c, .. } && c == client),
{
    lemma_listener_place(d.listeners, client, id);
}

/// A listener has to be told a phase zero only if it waits for a source whose phase
/// zero has to be computed, and what is to be computed is the phase zero of that source
/// from the sample on that the listener is at.
pub proof fn law_computed_zeros_are_asked_for(d: DeviceView, i: int)
    requires
        0 <= i < d.listeners.len(),
    ensures
        ({
            let l = d.listeners[i];
            let waits = l.trigger_type == TriggerType::OutSource && !l.triggered;
            &&& d.zero_wanted(i) matches Some(z) ==> {
                &&& waits
                &&& z is Wave
                &&& d.channels[l.trigger_channel as int].source matches Some(s) && z == zero_after(
                    s.kind,
                    l.index,
                )
            }
            &&& waits && (d.channels[l.trigger_channel as int].source matches Some(s) && zero_after(
                s.kind,
                l.index,
            ) is Wave) ==> d.zero_wanted(i) is Some
        }),
{
}

/// A listener that is over is taken away, and otherwise is where its look has brought
/// it; the other listeners stay as they are.
pub proof fn law_looks_are_kept_apart(
    d: DeviceView,
    i: int,
    wave: Option<Zero>,
    closed: bool,
    taken: bool,
)
    requires
        0 <= i < d.listeners.len(),
    ensures
        ({
            let (cursor, _, next) = look_of(d.listeners[i], d, wave, closed);
            let e = d.polled(i, wave, closed);
            &&& e == (DeviceView { listeners: e.listeners, ..d })
            &&& next == Next::Remove ==> e.listeners.len() == d.listeners.len() - 1 && (forall|
                j: int,
            |
                0 <= j < i ==> #[trigger] e.listeners[j] == d.listeners[j]) && (forall|j: int|
                i <= j < e.listeners.len() ==> #[trigger] e.listeners[j] == d.listeners[j + 1])
            &&& next != Next::Remove ==> {
                &&& e.listeners.len() == d.listeners.len()
                &&& e.listeners[i].index == cursor.index
                &&& e.listeners[i].out_index == cursor.out_index
                &&& e.listeners[i].triggered == cursor.triggered
                &&& e.listeners[i].trigger_force_index == cursor.trigger_force_index
                &&& e.listeners[i].trigger_subsample_error == cursor.trigger_subsample_error
                &&& e.listeners[i].id == d.listeners[i].id
                &&& e.listeners[i].streams == d.listeners[i].streams
                &&& e.listeners[i].sink == d.listeners[i].sink
                &&& e.listeners[i].count == d.listeners[i].count
                &&& forall|j: int|
                    0 <= j < d.listeners.len() && j != i ==> #[trigger] e.listeners[j]
                        == d.listeners[j]
            }
        }),
        d.handed_out(i, Next::Again, taken) == d,
        d.handed_out(i, Next::Remove, taken) == d,
        d.handed_out(i, Next::Keep, true) == d,
        d.handed_out(i, Next::Keep, false).listeners == d.listeners.remove(i),
{
}

// ---- what is sent ----

/// The first three bits of the second byte of a frame say that nothing more comes, that
/// no trigger started the sweep, and that the distance to the trigger counts.
pub proof fn law_flags_of_a_frame(u: UpdateView)
    ensures
        u.flags() % 2 == 1 <==> u.done,
        (u.flags() / 2) % 2 == 1 <==> u.forced,
        (u.flags() / 4) % 2 == 1 <==> u.triggered,
        u.flags() < 8,
{
}

/// Whether a document has a member of this name and value.
pub open spec fn has(m: Seq<(Seq<char>, JsonTree)>, key: Seq<char>, value: JsonTree) -> bool {
    exists|i: int| 0 <= i < m.len() && #[trigger] m[i] == (key, value)
}

/// A document says which listener it is for, with which output sample it starts and,
/// stream after stream, the output samples; at the start of a sweep, with which input
/// sample it starts and how far the trigger is; and that nothing more comes, if so.
pub proof fn law_document_says_what_was_found(u: UpdateView, means: Seq<Seq<Single>>, s: int, k: int)
    requires
        0 <= s < means.len(),
        0 <= k < means[s].len(),
    ensures
        ({
            let m = u.document(means);
            &&& has(m, "_action"@, JsonTree::Str("update"@))
            &&& has(m, "id"@, JsonTree::Number(Number::Signed(u.id)))
            &&& has(m, "idx"@, JsonTree::Number(Number::Unsigned(u.idx)))
            &&& u.idx == 0 ==> has(
                m,
                "sampleIndex"@,
                JsonTree::Number(Number::Unsigned(u.sample_index)),
            )
            &&& u.triggered ==> has(m, "subsample"@, JsonTree::Number(Number::Double(u.subsample)))
            &&& u.forced ==> has(m, "triggerForced"@, JsonTree::Bool(true))
            &&& u.done ==> has(m, "done"@, JsonTree::Bool(true))
            &&& m.len() == 4 + (if u.idx == 0 {
                1int
            } else {
                0
            }) + (if u.triggered {
                1int
            } else {
                0
            }) + (if u.forced {
                1int
            } else {
                0
            }) + (if u.done {
                1int
            } else {
                0
            })
            &&& exists|i: int|
                0 <= i < m.len() && (#[trigger] m[i]).0 == "data"@ && (m[i].1 matches JsonTree::Array(
                    rows,
                ) && rows.len() == means.len() && (rows[s] matches JsonTree::Array(row) && row.len()
                    == means[s].len() && row[k] == JsonTree::Number(Number::Single(means[s][k]))))
        }),
{
    let m = u.document(means);
    let f = if u.forced {
        1int
    } else {
        0
    };
    let t = f + (if u.triggered {
        1int
    } else {
        0
    });
    let i = t + (if u.idx == 0 {
        1int
    } else {
        0
    });
    let e = i + (if u.done {
        1int
    } else {
        0
    });
    assert(m[0] == ("id"@, JsonTree::Number(Number::Signed(u.id))));
    assert(m[1] == ("idx"@, JsonTree::Number(Number::Unsigned(u.idx))));
    assert(u.forced ==> m[2] == ("triggerForced"@, JsonTree::Bool(true)));
    assert(u.triggered ==> m[2 + f] == (
        "subsample"@,
        JsonTree::Number(Number::Double(u.subsample)),
    ));
    assert(u.idx == 0 ==> m[2 + t] == (
        "sampleIndex"@,
        JsonTree::Number(Number::Unsigned(u.sample_index)),
    ));
    assert(m[2 + i] == ("data"@, JsonTree::Array(data_trees(means))));
    assert(u.done ==> m[3 + i] == ("done"@, JsonTree::Bool(true)));
    assert(m[3 + e] == ("_action"@, JsonTree::Str("update"@)));
}

proof fn lemma_line_comes_apart(t: Seq<Seq<Seq<char>>>, k: int, s: int)
    requires
        1 <= s <= t.len(),
        forall|j: int| 0 <= j < s ==> free_of(#[trigger] t[j][k], ','),
    ensures
        pieces(line(t, k, s), ',').len() == s,
        pieces(line(t, k, s), ',')[0] == t[0][k],
        forall|j: int| 1 <= j < s ==> pieces(line(t, k, s), ',')[j] == seq![' '] + #[trigger] t[j][k],
    decreases s,
{
    if s == 1 {
        assert(free_of(t[0][k], ','));
        lemma_one_piece(t[0][k], ',');
    } else {
        lemma_line_comes_apart(t, k, s - 1);
        reveal_strlit(", ");
        let a = line(t, k, s - 1);
        let w = t[s - 1][k];
        assert(free_of(w, ','));
        let b = seq![' '] + w;
        assert forall|i: int| 0 <= i < b.len() implies #[trigger] b[i] != ',' by {
            if i > 0 {
                assert(b[i] == w[i - 1]);
            }
        }
        lemma_last_piece(a, b, ',');
        assert(line(t, k, s) =~= a + seq![','] + b);
    }
}

proof fn lemma_line_is_free(t: Seq<Seq<Seq<char>>>, k: int, s: int)
    requires
        0 <= s <= t.len(),
        forall|j: int| 0 <= j < s ==> free_of(#[trigger] t[j][k], '\n'),
    ensures
        free_of(line(t, k, s), '\n'),
    decreases s,
{
    if s == 1 {
        assert(free_of(t[0][k], '\n'));
    } else if s > 1 {
        lemma_line_is_free(t, k, s - 1);
        reveal_strlit(", ");
        let a = line(t, k, s - 1);
        let w = t[s - 1][k];
        assert(free_of(w, '\n'));
        let l = line(t, k, s);
        assert forall|i: int| 0 <= i < l.len() implies #[trigger] l[i] != '\n' by {
            if i < a.len() {
                assert(l[i] == a[i]);
            } else if i >= a.len() + 2 {
                assert(l[i] == w[i - a.len() - 2]);
            } else {
                assert(l[i] == ", "@[i - a.len()]);
            }
        }
    }
}

/// Rows of text come apart into their words: there is one row, with an end of line, for
/// every output sample, and in it one word for every stream, in their order, with a
/// comma and a space between them.
pub proof fn law_rows_come_apart(t: Seq<Seq<Seq<char>>>, n: int, k: int, s: int)
    requires
        0 <= k < n,
        0 <= s < t.len(),
        forall|i: int, j: int|
            0 <= j < t.len() && 0 <= i < n ==> free_of(#[trigger] t[j][i], ',') && free_of(
                t[j][i],
                '\n',
            ),
    ensures
        ({
            let rows = pieces(lines(t, n), '\n');
            &&& rows.len() == n + 1
            &&& rows[n] == Seq::<char>::empty()
            &&& pieces(rows[k], ',').len() == t.len()
            &&& s == 0 ==> pieces(rows[k], ',')[s] == t[s][k]
            &&& s > 0 ==> pieces(rows[k], ',')[s] == seq![' '] + t[s][k]
        }),
{
    lemma_rows(t, n);
    assert forall|j: int| 0 <= j < t.len() implies free_of(#[trigger] t[j][k], ',') by {}
    lemma_line_comes_apart(t, k, t.len() as int);
}

proof fn lemma_rows(t: Seq<Seq<Seq<char>>>, n: int)
    requires
        0 <= n,
        forall|i: int, j: int|
            0 <= j < t.len() && 0 <= i < n ==> free_of(#[trigger] t[j][i], ',') && free_of(
                t[j][i],
                '\n',
            ),
    ensures
        pieces(lines(t, n), '\n').len() == n + 1,
        pieces(lines(t, n), '\n')[n] == Seq::<char>::empty(),
        forall|k: int|
            0 <= k < n ==> #[trigger] pieces(lines(t, n), '\n')[k] == line(t, k, t.len() as int),
    decreases n,
{
    if n > 0 {
        lemma_rows(t, n - 1);
        let a = lines(t, n - 1);
        let l = line(t, n - 1, t.len() as int);
        assert forall|j: int| 0 <= j < t.len() implies free_of(#[trigger] t[j][n - 1], '\n') by {}
        lemma_line_is_free(t, n - 1, t.len() as int);
        lemma_row_added(a, l);
        assert(lines(t, n) =~= a + l + seq!['\n']);
    } else {
        assert(lines(t, n) =~= Seq::<char>::empty());
        lemma_one_piece(Seq::<char>::empty(), '\n');
    }
}

/// A line more, after text that ends a line.
proof fn lemma_row_added(a: Seq<char>, l: Seq<char>)
    requires
        free_of(l, '\n'),
        pieces(a, '\n').len() > 0,
        pieces(a, '\n').last() == Seq::<char>::empty(),
    ensures
        pieces(a + l + seq!['\n'], '\n') == pieces(a, '\n').drop_last().push(l).push(
            Seq::<char>::empty(),
        ),
{
    lemma_text_added(a, l);
    assert(a + l + seq!['\n'] + Seq::<char>::empty() =~= a + l + seq!['\n']);
    lemma_last_piece(a + l, Seq::<char>::empty(), '\n');
}

proof fn lemma_text_added(a: Seq<char>, l: Seq<char>)
    requires
        free_of(l, '\n'),
        pieces(a, '\n').len() > 0,
        pieces(a, '\n').last() == Seq::<char>::empty(),
    ensures
        pieces(a + l, '\n') == pieces(a, '\n').drop_last().push(l),
    decreases l.len(),
{
    let p = pieces(a, '\n');
    if l.len() == 0 {
        assert(a + l =~= a);
        assert(l =~= p.last());
        assert(p.drop_last().push(l) =~= p);
    } else {
        let m = l.drop_last();
        lemma_text_added(a, m);
        assert((a + l).drop_last() =~= a + m);
        assert((a + l).last() == l[l.len() - 1]);
        let before = p.drop_last().push(m);
        assert(before.drop_last() =~= p.drop_last());
        assert(m.push(l.last()) =~= l);
    }
}

} // verus!
