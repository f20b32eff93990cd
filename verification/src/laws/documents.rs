//! What holds of the documents that clients are told: what a device is and has stands
//! in them under its name, and a source that is described can be asked for again.

use crate::device::{entries, AnyView, ServerView, SlotView};
use crate::float::{
    law_integers_are_kept, law_narrowing_undoes_widening, of_integer, Double, Single,
};
use crate::jsonutil::{
    array_at, bool_at, field, int_at, lemma_member, member, number_at, string_at, with_member,
    JsonTree, Number,
};
use crate::laws::forms::{called, law_names_tell_kinds_apart, lemma_words_differ};
use crate::laws::listening::has;
use crate::source::{
    described, kind_members, kind_name, point_list, points_from, source_from, KindView, SourceView,
};
use crate::state::{channel_members, frontend_tree, mode_name, stream_members};
use crate::streaming::{BackendView, ChannelView, DeviceView, StreamView};
use crate::usb::m1k::{number_members, CalView, Frontend, M1kView};
use crate::ws::{device_list, greeting};
use vstd::prelude::*;

verus! {

// ---- devices ----

/// The state of a device says what it is, how it is configured, whether it captures,
/// and what channels it has; its configuration alone is a part of that.
pub proof fn law_state_of_a_device(d: DeviceView)
    ensures
        d.state(true) matches JsonTree::Object(m) && m.len() == 8 && says_configuration(d, m),
        d.state(false) matches JsonTree::Object(m) && says_configuration(d, m) && has(
            m,
            "id"@,
            JsonTree::Str(d.model + seq!['~'] + d.serial),
        ) && has(m, "model"@, JsonTree::Str(d.model)) && has(
            m,
            "hwVersion"@,
            JsonTree::Str(d.hw_version),
        ) && has(m, "fwVersion"@, JsonTree::Str(d.fw_version)) && has(
            m,
            "serial"@,
            JsonTree::Str(d.serial),
        ) && has(m, "captureState"@, JsonTree::Bool(d.capture_state)) && has(
            m,
            "captureDone"@,
            JsonTree::Bool(d.capture_done),
        ) && has(m, "channels"@, JsonTree::Object(channel_members(d.channels))) && m.len() == (
        if d.backend is M1k {
            18int
        } else {
            16
        }),
{
    reveal_strlit("~");
    assert("~"@ =~= seq!['~']);
    let c = d.state(true)->Object_0;
    let m = d.state(false)->Object_0;
    assert(c.subrange(0, 8) =~= d.configuration());
    lemma_configuration(d, c, 0);
    assert(m[0].0 == "id"@);
    assert(m[1].0 == "model"@);
    assert(m[2].0 == "hwVersion"@);
    assert(m[3].0 == "fwVersion"@);
    assert(m[4].0 == "serial"@);
    assert(m.subrange(5, 13) =~= d.configuration());
    lemma_configuration(d, m, 5);
    assert(m[13] == ("captureState"@, JsonTree::Bool(d.capture_state)));
    assert(m[14] == ("captureDone"@, JsonTree::Bool(d.capture_done)));
    assert(m[15] == ("channels"@, JsonTree::Object(channel_members(d.channels))));
}

/// Whether a document says how a device is configured.
pub open spec fn says_configuration(d: DeviceView, m: Seq<(Seq<char>, JsonTree)>) -> bool {
    &&& has(m, "sampleTime"@, JsonTree::Number(Number::Double(d.sample_time)))
    &&& has(m, "minSampleTime"@, JsonTree::Number(Number::Double(d.min_sample_time)))
    &&& has(m, "mode"@, JsonTree::Number(Number::Unsigned(d.dev_mode as u64)))
    &&& has(m, "samples"@, JsonTree::Number(Number::Unsigned(d.capture_samples as u64)))
    &&& has(m, "length"@, JsonTree::Number(Number::Single(d.capture_length)))
    &&& has(m, "continuous"@, JsonTree::Bool(d.capture_continuous))
    &&& has(m, "raw"@, JsonTree::Bool(d.raw_mode))
    &&& has(m, "currentLimit"@, JsonTree::Number(Number::Unsigned(d.current_limit as u64)))
}

proof fn lemma_configuration(d: DeviceView, m: Seq<(Seq<char>, JsonTree)>, at: int)
    requires
        0 <= at,
        at + 8 <= m.len(),
        m.subrange(at, at + 8) == d.configuration(),
    ensures
        says_configuration(d, m),
{
    let c = m.subrange(at, at + 8);
    assert(c.len() == 8);
    assert(c[0] == m[at]);
    assert(c[1] == m[at + 1]);
    assert(c[2] == m[at + 2]);
    assert(c[3] == m[at + 3]);
    assert(c[4] == m[at + 4]);
    assert(c[5] == m[at + 5]);
    assert(c[6] == m[at + 6]);
    assert(c[7] == m[at + 7]);
}

/// What a stream is stands in its document; its gain is told as a multiple of the gain
/// that is normal for it.
pub proof fn law_document_of_a_stream(s: StreamView)
    ensures
        s.document() matches JsonTree::Object(m) && m.len() == 8 && has(
            m,
            "id"@,
            JsonTree::Str(s.id),
        ) && has(m, "displayName"@, JsonTree::Str(s.display_name)) && has(
            m,
            "units"@,
            JsonTree::Str(s.units),
        ) && has(m, "min"@, JsonTree::Number(Number::Single(s.min))) && has(
            m,
            "max"@,
            JsonTree::Number(Number::Single(s.max)),
        ) && has(m, "outputMode"@, JsonTree::Number(Number::Unsigned(s.output_mode as u64))) && has(
            m,
            "gain"@,
            JsonTree::Number(Number::Ratio(s.gain, s.normal_gain)),
        ) && has(m, "uncertainty"@, JsonTree::Number(Number::Single(s.uncertainty))),
{
    let m = s.document()->Object_0;
    assert(m[0].0 == "id"@);
    assert(m[1].0 == "displayName"@);
    assert(m[2].0 == "units"@);
    assert(m[3].0 == "min"@);
    assert(m[4].0 == "max"@);
    assert(m[5].0 == "outputMode"@);
    assert(m[6].0 == "gain"@);
    assert(m[7].0 == "uncertainty"@);
}

/// What a channel is stands in its document, with the source that it has, if it has
/// one, and its streams.
pub proof fn law_document_of_a_channel(c: ChannelView)
    ensures
        c.document() matches JsonTree::Object(m) && has(m, "id"@, JsonTree::Str(c.id)) && has(
            m,
            "displayName"@,
            JsonTree::Str(c.display_name),
        ) && has(m, "streams"@, JsonTree::Object(stream_members(c.streams))) && (c.source matches Some(
            s,
        ) ==> has(m, "output"@, JsonTree::Object(described(s)))) && m.len() == (
        if c.source is Some {
            4int
        } else {
            3
        }),
{
    let m = c.document()->Object_0;
    assert(m[0].0 == "id"@);
    assert(m[1].0 == "displayName"@);
    assert(m[m.len() - 1] == ("streams"@, JsonTree::Object(stream_members(c.streams))));
    if let Some(s) = c.source {
        assert(m[2] == ("output"@, JsonTree::Object(described(s))));
    }
}

pub proof fn lemma_put(m: Seq<(Seq<char>, JsonTree)>, key: Seq<char>, v: JsonTree, other: Seq<char>)
    ensures
        member(with_member(m, key, v), key) == Some(v),
        other != key ==> member(with_member(m, key, v), other) == member(m, other),
    decreases m.len(),
{
    let w = with_member(m, key, v);
    if m.len() == 0 {
        assert(w == seq![(key, v)]);
        assert(w.drop_first() =~= Seq::empty());
        reveal_with_fuel(member, 2);
    } else if m[0].0 == key {
        assert(w[0] == (key, v));
        assert(w.drop_first() =~= m.drop_first());
    } else {
        lemma_put(m.drop_first(), key, v, other);
        assert(w[0] == m[0]);
        assert(w.drop_first() =~= with_member(m.drop_first(), key, v));
    }
}

/// The document of a stream is found under its id among those of its channel, unless a
/// later one has the same id.
pub proof fn law_streams_are_found_by_id(v: Seq<StreamView>, i: int)
    requires
        0 <= i < v.len(),
        forall|j: int| i < j < v.len() ==> (#[trigger] v[j]).id != v[i].id,
    ensures
        member(stream_members(v), v[i].id) == Some(v[i].document()),
    decreases v.len(),
{
    let w = v.drop_last();
    lemma_put(stream_members(w), v.last().id, v.last().document(), v[i].id);
    if i < v.len() - 1 {
        assert(v[v.len() - 1].id != v[i].id);
        assert forall|j: int| i < j < w.len() implies (#[trigger] w[j]).id != w[i].id by {
            assert(w[j] == v[j]);
        }
        law_streams_are_found_by_id(w, i);
    }
}

/// The document of a channel is found under its id, unless a later one has the same id.
pub proof fn law_channels_are_found_by_id(v: Seq<ChannelView>, i: int)
    requires
        0 <= i < v.len(),
        forall|j: int| i < j < v.len() ==> (#[trigger] v[j]).id != v[i].id,
    ensures
        member(channel_members(v), v[i].id) == Some(v[i].document()),
    decreases v.len(),
{
    let w = v.drop_last();
    lemma_put(channel_members(w), v.last().id, v.last().document(), v[i].id);
    if i < v.len() - 1 {
        assert(v[v.len() - 1].id != v[i].id);
        assert forall|j: int| i < j < w.len() implies (#[trigger] w[j]).id != w[i].id by {
            assert(w[j] == v[j]);
        }
        law_channels_are_found_by_id(w, i);
    }
}

// ---- M1K ----

/// The names of modes: a mode that splits has the name of the one that does not, with
/// an ending.
pub proof fn law_names_of_modes(mode: u32)
    requires
        mode < 3,
    ensures
        mode_name(0) == "hi_z"@,
        mode_name(1) == "svmi"@,
        mode_name(2) == "simv"@,
        mode_name((mode + 3) as u32) == mode_name(mode) + "_split"@,
{
    reveal_strlit("hi_z");
    reveal_strlit("svmi");
    reveal_strlit("simv");
    reveal_strlit("hi_z_split");
    reveal_strlit("svmi_split");
    reveal_strlit("simv_split");
    reveal_strlit("_split");
    assert("hi_z"@ + "_split"@ =~= "hi_z_split"@);
    assert("svmi"@ + "_split"@ =~= "svmi_split"@);
    assert("simv"@ + "_split"@ =~= "simv_split"@);
}

/// The switches and potentiometers of a channel stand in its document.
pub proof fn law_document_of_a_front_end(fe: Frontend)
    ensures
        frontend_tree(fe) matches JsonTree::Object(m) && m.len() == 6 && has(
            m,
            "r50_2v5"@,
            JsonTree::Bool(fe.r50_2v5),
        ) && has(m, "r50_gnd"@, JsonTree::Bool(fe.r50_gnd)) && has(
            m,
            "feedback"@,
            JsonTree::Bool(fe.feedback),
        ) && has(m, "output_en"@, JsonTree::Bool(fe.output_en)) && has(
            m,
            "split"@,
            JsonTree::Bool(fe.split),
        ) && has(
            m,
            "pot"@,
            JsonTree::Array(
                seq![
                    JsonTree::Number(Number::Unsigned(fe.pot_r1 as u64)),
                    JsonTree::Number(Number::Unsigned(fe.pot_r2 as u64)),
                ],
            ),
        ),
{
    let m = frontend_tree(fe)->Object_0;
    assert(m[0].0 == "r50_2v5"@);
    assert(m[1].0 == "r50_gnd"@);
    assert(m[2].0 == "feedback"@);
    assert(m[3].0 == "output_en"@);
    assert(m[4].0 == "split"@);
    assert(m[5].0 == "pot"@);
}

/// The state of an M1K says the front ends and the modes of its channels, each under
/// the name of its channel.
pub proof fn law_state_of_an_m1k(d: DeviceView, b: M1kView)
    requires
        d.backend == BackendView::M1k(b),
        b.frontend.len() == 2,
        b.m_mode.len() == 2,
    ensures
        d.state(false) matches JsonTree::Object(m) && has(
            m,
            "frontend"@,
            JsonTree::Object(
                seq![("a"@, frontend_tree(b.frontend[0])), ("b"@, frontend_tree(b.frontend[1]))],
            ),
        ) && has(
            m,
            "m1k_modes"@,
            JsonTree::Object(
                seq![
                    ("a"@, JsonTree::Str(mode_name(b.m_mode[0]))),
                    ("b"@, JsonTree::Str(mode_name(b.m_mode[1]))),
                ],
            ),
        ),
{
    let m = d.state(false)->Object_0;
    assert(m[16] == b.extras()[0]);
    assert(m[17] == b.extras()[1]);
}

// ---- lists ----

proof fn lemma_listed(v: Seq<SlotView>, i: int)
    requires
        0 <= i < v.len(),
        v[i].listed,
        forall|j: int|
            i < j < v.len() ==> (#[trigger] v[j]).dev.id() != v[i].dev.id() || !v[j].listed,
    ensures
        member(entries(v), v[i].dev.id()) == Some(v[i].dev.entry()),
    decreases v.len(),
{
    let w = v.drop_last();
    lemma_put(entries(w), v.last().dev.id(), v.last().dev.entry(), v[i].dev.id());
    if i < v.len() - 1 {
        assert(v[v.len() - 1].dev.id() != v[i].dev.id() || !v[v.len() - 1].listed);
        assert forall|j: int| i < j < w.len() implies (#[trigger] w[j]).dev.id() != w[i].dev.id()
            || !w[j].listed by {
            assert(w[j] == v[j]);
        }
        lemma_listed(w, i);
    }
}

proof fn lemma_not_listed(v: Seq<SlotView>, id: Seq<char>)
    requires
        forall|j: int| 0 <= j < v.len() ==> (#[trigger] v[j]).dev.id() != id || !v[j].listed,
    ensures
        member(entries(v), id) is None,
    decreases v.len(),
{
    if v.len() > 0 {
        let w = v.drop_last();
        assert(v[v.len() - 1].dev.id() != id || !v[v.len() - 1].listed);
        assert forall|j: int| 0 <= j < w.len() implies (#[trigger] w[j]).dev.id() != id
            || !w[j].listed by {
            assert(w[j] == v[j]);
        }
        lemma_not_listed(w, id);
        lemma_put(entries(w), v.last().dev.id(), v.last().dev.entry(), id);
    }
}

/// Every device that is there is in the list under its id, unless a later one has the
/// same id, and its entry says what it is; one that was taken away is not.
pub proof fn law_devices_are_listed(s: ServerView, i: int)
    requires
        0 <= i < s.devices.len(),
    ensures
        device_list(s) matches JsonTree::Object(l) && l.len() == 2 && l[0] == (
            "_action"@,
            JsonTree::Str("devices"@),
        ) && l[1].0 == "devices"@ && (l[1].1 matches JsonTree::Object(m) && {
            &&& s.devices[i].listed && (forall|j: int|
                i < j < s.devices.len() ==> (#[trigger] s.devices[j]).dev.id()
                    != s.devices[i].dev.id() || !s.devices[j].listed) ==> member(
                m,
                s.devices[i].dev.id(),
            ) == Some(s.devices[i].dev.entry())
            &&& (forall|j: int|
                0 <= j < s.devices.len() ==> (#[trigger] s.devices[j]).dev.id()
                    != s.devices[i].dev.id() || !s.devices[j].listed) ==> member(
                m,
                s.devices[i].dev.id(),
            ) is None
        }),
        s.devices[i].dev.entry() matches JsonTree::Object(m) && m.len() == 5 && has(
            m,
            "id"@,
            JsonTree::Str(s.devices[i].dev.model() + seq!['~'] + s.devices[i].dev.serial()),
        ) && has(m, "model"@, JsonTree::Str(s.devices[i].dev.model())) && has(
            m,
            "hwVersion"@,
            JsonTree::Str(s.devices[i].dev.hw_version()),
        ) && has(m, "fwVersion"@, JsonTree::Str(s.devices[i].dev.fw_version())) && has(
            m,
            "serial"@,
            JsonTree::Str(s.devices[i].dev.serial()),
        ),
{
    reveal_strlit("~");
    assert("~"@ =~= seq!['~']);
    if s.devices[i].listed && (forall|j: int|
        i < j < s.devices.len() ==> (#[trigger] s.devices[j]).dev.id() != s.devices[i].dev.id()
            || !s.devices[j].listed) {
        lemma_listed(s.devices, i);
    }
    if forall|j: int|
        0 <= j < s.devices.len() ==> (#[trigger] s.devices[j]).dev.id() != s.devices[i].dev.id()
            || !s.devices[j].listed {
        lemma_not_listed(s.devices, s.devices[i].dev.id());
    }
    let m = s.devices[i].dev.entry()->Object_0;
    assert(m[0].0 == "id"@);
    assert(m[1].0 == "model"@);
    assert(m[2].0 == "hwVersion"@);
    assert(m[3].0 == "fwVersion"@);
    assert(m[4].0 == "serial"@);
}

/// What a device is called is what it has told: a device that samples has its own
/// model and versions, and a boot loader the product and version of its hardware.
pub proof fn law_devices_are_called(d: AnyView)
    ensures
        d matches AnyView::Streaming(s) ==> d.model() == s.model && d.serial() == s.serial
            && d.hw_version() == s.hw_version && d.fw_version() == s.fw_version && d.id() == s.id()
            && d.connections() == s.connections,
        d matches AnyView::Bootloader(b) ==> d.model() == "com.nonolithlabs.bootloader"@
            && d.serial() == b.serial && d.hw_version() == b.info.hw_product + seq![' ']
            + b.info.hw_version && d.fw_version() == "unknown"@ && d.connections() == b.connections,
{
    reveal_strlit(" ");
    assert(" "@ =~= seq![' ']);
}

/// The greeting of the server.
pub proof fn law_greeting(git: Seq<char>)
    ensures
        ({
            let m = greeting(git);
            &&& m.len() == 3
            &&& has(m, "server"@, JsonTree::Str("Nonolith Connect"@))
            &&& has(m, "version"@, JsonTree::Str("1.3"@))
            &&& has(m, "gitVersion"@, JsonTree::Str(git))
        }),
{
    let m = greeting(git);
    assert(m[0].0 == "server"@);
    assert(m[1].0 == "version"@);
    assert(m[2].0 == "gitVersion"@);
}

// ---- sources ----

/// Lengths and first letters of the members that a source is read from.
proof fn lemma_member_words()
    ensures
        "mode"@.len() == 4 && "mode"@[0] == 'm',
        "startSample"@.len() == 11 && "startSample"@[0] == 's',
        "effective"@.len() == 9 && "effective"@[0] == 'e',
        "source"@.len() == 6 && "source"@[0] == 's',
        "hint"@.len() == 4 && "hint"@[0] == 'h' && "hint"@[2] == 'n',
        "value"@.len() == 5 && "value"@[0] == 'v',
        "offset"@.len() == 6 && "offset"@[0] == 'o',
        "amplitude"@.len() == 9 && "amplitude"@[0] == 'a',
        "period"@.len() == 6 && "period"@[0] == 'p',
        "phase"@.len() == 5 && "phase"@[0] == 'p',
        "high"@.len() == 4 && "high"@[0] == 'h' && "high"@[2] == 'g',
        "low"@.len() == 3 && "low"@[0] == 'l',
        "highSamples"@.len() == 11 && "highSamples"@[0] == 'h',
        "lowSamples"@.len() == 10 && "lowSamples"@[0] == 'l',
        "repeat"@.len() == 6 && "repeat"@[0] == 'r',
        "values"@.len() == 6 && "values"@[0] == 'v',
        "relPhase"@.len() == 8 && "relPhase"@[0] == 'r',
        "t"@.len() == 1 && "t"@[0] == 't',
        "v"@.len() == 1 && "v"@[0] == 'v',
{
    reveal_strlit("mode");
    reveal_strlit("startSample");
    reveal_strlit("effective");
    reveal_strlit("source");
    reveal_strlit("hint");
    reveal_strlit("value");
    reveal_strlit("offset");
    reveal_strlit("amplitude");
    reveal_strlit("period");
    reveal_strlit("phase");
    reveal_strlit("high");
    reveal_strlit("low");
    reveal_strlit("highSamples");
    reveal_strlit("lowSamples");
    reveal_strlit("repeat");
    reveal_strlit("values");
    reveal_strlit("relPhase");
    reveal_strlit("t");
    reveal_strlit("v");
}

proof fn lemma_described_common(s: SourceView)
    ensures
        ({
            let n = JsonTree::Object(described(s));
            &&& field(n, "mode"@) == Some(JsonTree::Number(Number::Unsigned(s.mode as u64)))
            &&& field(n, "startSample"@) == Some(
                JsonTree::Number(Number::Unsigned(s.start_sample)),
            )
            &&& field(n, "effective"@) == Some(JsonTree::Bool(s.effective))
            &&& field(n, "source"@) == Some(JsonTree::Str(kind_name(s.kind)))
            &&& field(n, "hint"@) == Some(JsonTree::Str(s.hint))
        }),
{
    let m = described(s);
    lemma_member_words();
    assert(m[0].0 == "mode"@ && m[1].0 == "startSample"@ && m[2].0 == "effective"@ && m[3].0
        == "source"@ && m[4].0 == "hint"@);
    lemma_member(m, "mode"@, 0);
    lemma_member(m, "startSample"@, 1);
    lemma_member(m, "effective"@, 2);
    lemma_member(m, "source"@, 3);
    lemma_member(m, "hint"@, 4);
}

/// Where a member that is particular to a kind of source stands in a description.
proof fn lemma_described_member(s: SourceView, i: int)
    requires
        0 <= i < kind_members(s.kind).len(),
        forall|j: int| 0 <= j < i ==> (#[trigger] kind_members(s.kind)[j]).0 != kind_members(
            s.kind,
        )[i].0,
        ({
            let key = kind_members(s.kind)[i].0;
            key != "mode"@ && key != "startSample"@ && key != "effective"@ && key != "source"@
                && key != "hint"@
        }),
    ensures
        field(JsonTree::Object(described(s)), kind_members(s.kind)[i].0) == Some(
            kind_members(s.kind)[i].1,
        ),
{
    let m = described(s);
    let k = kind_members(s.kind);
    let key = k[i].0;
    assert forall|j: int| 0 <= j < i + 5 implies (#[trigger] m[j]).0 != key by {
        if j >= 5 {
            assert(m[j] == k[j - 5]);
        }
    }
    assert(m[i + 5] == k[i]);
    lemma_member(m, key, i + 5);
}

/// A member that a description does not have.
proof fn lemma_described_without(s: SourceView, key: Seq<char>)
    requires
        forall|j: int| 0 <= j < kind_members(s.kind).len() ==> (#[trigger] kind_members(
            s.kind,
        )[j]).0 != key,
        key != "mode"@ && key != "startSample"@ && key != "effective"@ && key != "source"@ && key
            != "hint"@,
    ensures
        field(JsonTree::Object(described(s)), key) is None,
{
    let m = described(s);
    let k = kind_members(s.kind);
    assert forall|j: int| 0 <= j < m.len() implies (#[trigger] m[j]).0 != key by {
        if j >= 5 {
            assert(m[j] == k[j - 5]);
        }
    }
    lemma_member(m, key, m.len() as int);
}

/// A description says of every source its mode, its first sample, whether it is in
/// effect, what it is called and its hint.
pub proof fn law_description_of_a_source(s: SourceView)
    ensures
        ({
            let n = JsonTree::Object(described(s));
            &&& field(n, "mode"@) == Some(JsonTree::Number(Number::Unsigned(s.mode as u64)))
            &&& field(n, "startSample"@) == Some(
                JsonTree::Number(Number::Unsigned(s.start_sample)),
            )
            &&& field(n, "effective"@) == Some(JsonTree::Bool(s.effective))
            &&& string_at(n, "hint"@) == Some(s.hint)
            &&& string_at(n, "source"@) matches Some(word) && called(word, s.kind)
        }),
{
    lemma_described_common(s);
    law_names_tell_kinds_apart(s.kind, kind_name(s.kind));
}

/// A constant that is described can be asked for again: mode, hint and value are the
/// same.
pub proof fn law_described_constant_reads_back(s: SourceView)
    requires
        s.kind matches KindView::Constant { value } && value.finite(),
    ensures
        source_from(JsonTree::Object(described(s))) == Ok::<SourceView, Seq<char>>(
            SourceView { start_sample: 0, effective: false, ..s },
        ),
{
    lemma_words_differ();
    lemma_member_words();
    lemma_described_common(s);
    let value = s.kind->value;
    assert(kind_members(s.kind)[0].0 == "value"@);
    lemma_described_member(s, 0);
    law_narrowing_undoes_widening(value);
    law_integers_are_kept(s.mode as int);
    let n = JsonTree::Object(described(s));
    assert(number_at(n, "value"@) == Some(value.widened()));
    assert(number_at(n, "mode"@) == Some(of_integer(s.mode as int)));
}

/// A square wave that is described can be asked for again: its levels and the samples
/// that it is at them are the same. Its phase is not told.
pub proof fn law_described_square_reads_back(s: SourceView)
    requires
        s.kind matches KindView::AdvSquare { high, low, high_samples, low_samples, .. }
            && high.finite() && low.finite() && high_samples + low_samples > 0,
    ensures
        source_from(JsonTree::Object(described(s))) matches Ok(q) && q.mode == s.mode && q.hint
            == s.hint && (q.kind matches KindView::AdvSquare {
            high,
            low,
            high_samples,
            low_samples,
            phase,
            rel_phase,
        } && high == s.kind->high && low == s.kind->low && high_samples == s.kind->high_samples
            && low_samples == s.kind->low_samples && phase == 0 && rel_phase),
{
    lemma_words_differ();
    lemma_member_words();
    lemma_described_common(s);
    let k = kind_members(s.kind);
    assert(k[0].0 == "high"@ && k[1].0 == "low"@ && k[2].0 == "highSamples"@ && k[3].0
        == "lowSamples"@);
    lemma_described_member(s, 0);
    lemma_described_member(s, 1);
    lemma_described_member(s, 2);
    lemma_described_member(s, 3);
    lemma_described_without(s, "phase"@);
    lemma_described_without(s, "relPhase"@);
    law_narrowing_undoes_widening(s.kind->high);
    law_narrowing_undoes_widening(s.kind->low);
    law_integers_are_kept(s.mode as int);
    law_integers_are_kept(s.kind->high_samples as int);
    law_integers_are_kept(s.kind->low_samples as int);
    let n = JsonTree::Object(described(s));
    assert(number_at(n, "high"@) == Some(s.kind->high.widened()));
    assert(number_at(n, "low"@) == Some(s.kind->low.widened()));
    assert(int_at(n, "highSamples"@) == Some(s.kind->high_samples as i64));
    assert(int_at(n, "lowSamples"@) == Some(s.kind->low_samples as i64));
    assert(number_at(n, "mode"@) == Some(of_integer(s.mode as int)));
}

/// A periodic wave that is described can be asked for again: its shape, period and
/// phase are the same, and its offset and amplitude as near as binary32 has them.
pub proof fn law_described_wave_reads_back(s: SourceView)
    requires
        s.kind matches KindView::Periodic { offset, amplitude, period, phase, .. }
            && offset.narrowed().finite() && amplitude.narrowed().finite() && period.finite()
            && phase.finite(),
    ensures
        source_from(JsonTree::Object(described(s))) matches Ok(q) && q.mode == s.mode && q.hint
            == s.hint && (q.kind matches KindView::Periodic {
            wave,
            offset,
            amplitude,
            period,
            phase,
            rel_phase,
        } && wave == s.kind->wave && offset.narrowed() == s.kind->offset.narrowed()
            && amplitude.narrowed() == s.kind->amplitude.narrowed() && period == s.kind->period
            && phase == s.kind->Periodic_phase && rel_phase),
{
    lemma_words_differ();
    lemma_member_words();
    lemma_described_common(s);
    let k = kind_members(s.kind);
    assert(k[0].0 == "offset"@ && k[1].0 == "amplitude"@ && k[2].0 == "period"@ && k[3].0
        == "phase"@);
    lemma_described_member(s, 0);
    lemma_described_member(s, 1);
    lemma_described_member(s, 2);
    lemma_described_member(s, 3);
    lemma_described_without(s, "relPhase"@);
    law_narrowing_undoes_widening(s.kind->offset.narrowed());
    law_narrowing_undoes_widening(s.kind->amplitude.narrowed());
    law_integers_are_kept(s.mode as int);
    let n = JsonTree::Object(described(s));
    assert(number_at(n, "offset"@) == Some(s.kind->offset.narrowed().widened()));
    assert(number_at(n, "amplitude"@) == Some(s.kind->amplitude.narrowed().widened()));
    assert(number_at(n, "period"@) == Some(s.kind->period));
    assert(number_at(n, "phase"@) == Some(s.kind->Periodic_phase));
    assert(number_at(n, "mode"@) == Some(of_integer(s.mode as int)));
}

proof fn lemma_points_read_back(values: Seq<(i64, Single)>)
    requires
        forall|i: int|
            0 <= i < values.len() ==> (#[trigger] values[i]).1.finite() && -0x20_0000_0000_0000
                < values[i].0 < 0x20_0000_0000_0000,
    ensures
        points_from(point_list(values)) == Ok::<Seq<(i64, Single)>, Seq<char>>(values),
    decreases values.len(),
{
    let a = point_list(values);
    if values.len() > 0 {
        let last = values[values.len() - 1];
        let w = values.drop_last();
        assert forall|i: int| 0 <= i < w.len() implies (#[trigger] w[i]).1.finite()
            && -0x20_0000_0000_0000 < w[i].0 < 0x20_0000_0000_0000 by {
            assert(w[i] == values[i]);
        }
        lemma_points_read_back(w);
        assert(a.drop_last() =~= point_list(w));
        lemma_member_words();
        let m = seq![
            ("t"@, JsonTree::Number(Number::Signed(last.0))),
            ("v"@, JsonTree::Number(Number::Single(last.1))),
        ];
        assert(a.last() == JsonTree::Object(m));
        lemma_member(m, "t"@, 0);
        lemma_member(m, "v"@, 1);
        law_integers_are_kept(last.0 as int);
        law_narrowing_undoes_widening(last.1);
        assert(int_at(a.last(), "t"@) == Some(last.0));
        assert(number_at(a.last(), "v"@) == Some(last.1.widened()));
        assert(w.push(last) =~= values);
    } else {
        assert(points_from(a)->Ok_0 =~= values);
    }
}

/// A wave of points that is described can be asked for again: its phase, its passes and
/// its points are the same.
pub proof fn law_described_points_read_back(s: SourceView)
    requires
        s.kind.wf(),
        s.kind matches KindView::Arb { phase, values, repeat_count, .. } && (forall|i: int|
            0 <= i < values.len() ==> (#[trigger] values[i]).1.finite() && values[i].0
                < 0x20_0000_0000_0000) && -0x20_0000_0000_0000 < phase < 0x20_0000_0000_0000
            && -0x20_0000_0000_0000 < repeat_count < 0x20_0000_0000_0000,
    ensures
        source_from(JsonTree::Object(described(s))) matches Ok(q) && q.mode == s.mode && q.hint
            == s.hint && (q.kind matches KindView::Arb {
            phase,
            start_time,
            values,
            index,
            repeat_count,
        } && phase == s.kind->Arb_phase && values == s.kind->values && repeat_count
            == s.kind->repeat_count && start_time == 0 && index == 0),
{
    lemma_words_differ();
    lemma_member_words();
    lemma_described_common(s);
    let k = kind_members(s.kind);
    let values = s.kind->values;
    assert(k[0].0 == "phase"@ && k[1].0 == "repeat"@ && k[2].0 == "values"@ && k[3].0
        == "period"@);
    lemma_described_member(s, 0);
    lemma_described_member(s, 1);
    lemma_described_member(s, 2);
    assert forall|i: int| 0 <= i < values.len() implies (#[trigger] values[i]).1.finite()
        && -0x20_0000_0000_0000 < values[i].0 < 0x20_0000_0000_0000 by {
        assert(values[0].0 <= values[i].0);
    }
    lemma_points_read_back(values);
    law_integers_are_kept(s.mode as int);
    law_integers_are_kept(s.kind->Arb_phase as int);
    law_integers_are_kept(s.kind->repeat_count as int);
    let n = JsonTree::Object(described(s));
    assert(int_at(n, "phase"@) == Some(s.kind->Arb_phase));
    assert(int_at(n, "repeat"@) == Some(s.kind->repeat_count));
    assert(array_at(n, "values"@) == Some(point_list(values)));
    assert(number_at(n, "mode"@) == Some(of_integer(s.mode as int)));
}

// ---- reading ----

/// What is read of a document is the first member of the name, if it is of the kind
/// that is wanted: a string, a truth value, a list or a finite number, whose integer
/// part is the integer.
pub proof fn law_first_member_is_read(
    m: Seq<(Seq<char>, JsonTree)>,
    key: Seq<char>,
    value: JsonTree,
    rest: Seq<(Seq<char>, JsonTree)>,
)
    requires
        forall|i: int| 0 <= i < m.len() ==> (#[trigger] m[i]).0 != key,
    ensures
        ({
            let n = JsonTree::Object(m.push((key, value)) + rest);
            &&& field(n, key) == Some(value)
            &&& string_at(n, key) == (match value {
                JsonTree::Str(s) => Some(s),
                _ => None,
            })
            &&& bool_at(n, key) == (match value {
                JsonTree::Bool(b) => Some(b),
                _ => None,
            })
            &&& array_at(n, key) == (match value {
                JsonTree::Array(a) => Some(a),
                _ => None,
            })
            &&& number_at(n, key) == (match value {
                JsonTree::Number(x) => x.value(),
                _ => None,
            })
            &&& int_at(n, key) == (match number_at(n, key) {
                Some(d) => Some(d.integer()),
                None => None,
            })
        }),
        field(JsonTree::Object(m), key) is None,
        !(value is Object) ==> field(value, key) is None,
{
    let all = m.push((key, value)) + rest;
    assert forall|i: int| 0 <= i < m.len() implies (#[trigger] all[i]).0 != key by {
        assert(all[i] == m[i]);
    }
    assert(all[m.len() as int] == (key, value));
    lemma_member(all, key, m.len() as int);
    lemma_member(m, key, m.len() as int);
}

/// A number of a document keeps its value whatever form it has: an integer its integer,
/// a binary32 value itself, and what is not finite is no number.
pub proof fn law_numbers_of_documents(n: int, s: Single, d: Double)
    requires
        -0x20_0000_0000_0000 < n < 0x20_0000_0000_0000,
    ensures
        Number::Signed(n as i64).value() matches Some(x) && x.integer() == n,
        n >= 0 ==> (Number::Unsigned(n as u64).value() matches Some(x) && x.integer() == n),
        0 <= n <= u32::MAX ==> (Number::Ratio(n as u32, 1).value() matches Some(x) && x.integer()
            == n),
        s.bits as int % 0x8000_0000 < 0x7f80_0000 ==> (Number::Single(s).value() matches Some(x)
            && x.narrowed() == s),
        s.bits as int % 0x8000_0000 >= 0x7f80_0000 ==> Number::Single(s).value() is None,
        d.bits as int % 0x8000_0000_0000_0000 < 0x7ff0_0000_0000_0000 ==> Number::Double(d).value()
            == Some(d),
        d.bits as int % 0x8000_0000_0000_0000 >= 0x7ff0_0000_0000_0000 ==> Number::Double(d).value()
            is None,
        Number::Ratio(0, 0).value() is None,
{
    law_integers_are_kept(n);
    if s.finite() {
        law_narrowing_undoes_widening(s);
    }
}

/// The numbers of a calibration are told in their order under their names.
pub proof fn law_calibration_is_told(cal: CalView, i: int)
    requires
        0 <= i < cal.offset.len(),
        cal.gain_p.len() == cal.offset.len(),
        cal.gain_n.len() == cal.offset.len(),
    ensures
        ({
            let m = number_members(cal);
            &&& m.len() == 3
            &&& m[0].0 == "offset"@
            &&& m[1].0 == "gain_p"@
            &&& m[2].0 == "gain_n"@
            &&& m[0].1 matches JsonTree::Array(a) && a.len() == cal.offset.len() && a[i]
                == JsonTree::Number(Number::Single(cal.offset[i]))
            &&& m[1].1 matches JsonTree::Array(a) && a.len() == cal.gain_p.len() && a[i]
                == JsonTree::Number(Number::Single(cal.gain_p[i]))
            &&& m[2].1 matches JsonTree::Array(a) && a.len() == cal.gain_n.len() && a[i]
                == JsonTree::Number(Number::Single(cal.gain_n[i]))
        }),
{
}

} // verus!
