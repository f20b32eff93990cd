//! The state of a device as a document.

use crate::jsonutil::{
    add_element, members, put, put_bool, put_number, put_text, set_member, trees, with_member, Json,
    JsonTree, Number,
};
use crate::source::described;
use crate::streaming::{
    channel_views, stream_views, Backend, BackendView, Channel, ChannelView, DeviceView, Stream,
    StreamView, StreamingDevice,
};
use crate::text::joined;
use crate::usb::m1k::{Frontend, M1kBackend, M1kView};
use vstd::prelude::*;
use vstd::string::*;

verus! {

/// A member that is a string.
pub open spec fn text(key: Seq<char>, value: Seq<char>) -> (Seq<char>, JsonTree) {
    (key, JsonTree::Str(value))
}

/// A member that is a number without sign.
pub open spec fn natural(key: Seq<char>, value: u64) -> (Seq<char>, JsonTree) {
    (key, JsonTree::Number(Number::Unsigned(value)))
}

/// A member that is true or false.
pub open spec fn truth(key: Seq<char>, value: bool) -> (Seq<char>, JsonTree) {
    (key, JsonTree::Bool(value))
}

impl StreamView {
    pub open spec fn document(self) -> JsonTree {
        JsonTree::Object(
            seq![
                text("id"@, self.id),
                text("displayName"@, self.display_name),
                text("units"@, self.units),
                ("min"@, JsonTree::Number(Number::Single(self.min))),
                ("max"@, JsonTree::Number(Number::Single(self.max))),
                natural("outputMode"@, self.output_mode as u64),
                ("gain"@, JsonTree::Number(Number::Ratio(self.gain, self.normal_gain))),
                ("uncertainty"@, JsonTree::Number(Number::Single(self.uncertainty))),
            ],
        )
    }
}

/// The documents of streams, each under its id.
pub open spec fn stream_members(v: Seq<StreamView>) -> Seq<(Seq<char>, JsonTree)>
    decreases v.len(),
{
    if v.len() == 0 {
        Seq::empty()
    } else {
        with_member(stream_members(v.drop_last()), v.last().id, v.last().document())
    }
}

impl ChannelView {
    pub open spec fn document(self) -> JsonTree {
        JsonTree::Object(
            seq![text("id"@, self.id), text("displayName"@, self.display_name)] + (
            match self.source {
                Some(s) => seq![("output"@, JsonTree::Object(described(s)))],
                None => seq![],
            }) + seq![("streams"@, JsonTree::Object(stream_members(self.streams)))],
        )
    }
}

/// The documents of channels, each under its id.
pub open spec fn channel_members(v: Seq<ChannelView>) -> Seq<(Seq<char>, JsonTree)>
    decreases v.len(),
{
    if v.len() == 0 {
        Seq::empty()
    } else {
        with_member(channel_members(v.drop_last()), v.last().id, v.last().document())
    }
}

/// The document of the front end of one channel.
pub open spec fn frontend_tree(fe: Frontend) -> JsonTree {
    JsonTree::Object(
        seq![
            truth("r50_2v5"@, fe.r50_2v5),
            truth("r50_gnd"@, fe.r50_gnd),
            truth("feedback"@, fe.feedback),
            truth("output_en"@, fe.output_en),
            truth("split"@, fe.split),
            (
                "pot"@,
                JsonTree::Array(
                    seq![
                        JsonTree::Number(Number::Unsigned(fe.pot_r1 as u64)),
                        JsonTree::Number(Number::Unsigned(fe.pot_r2 as u64)),
                    ],
                ),
            ),
        ],
    )
}

/// The name of a mode of a channel.
pub open spec fn mode_name(mode: u32) -> Seq<char> {
    let m = mode % 6;
    if m == 0 {
        "hi_z"@
    } else if m == 1 {
        "svmi"@
    } else if m == 2 {
        "simv"@
    } else if m == 3 {
        "hi_z_split"@
    } else if m == 4 {
        "svmi_split"@
    } else {
        "simv_split"@
    }
}

impl M1kView {
    /// The document of the front end.
    pub open spec fn frontend_document(self) -> JsonTree {
        JsonTree::Object(
            seq![
                ("a"@, frontend_tree(self.frontend[0])),
                ("b"@, frontend_tree(self.frontend[1])),
            ],
        )
    }

    /// What the state of a device says besides of an M1K.
    pub open spec fn extras(self) -> Seq<(Seq<char>, JsonTree)> {
        seq![
            ("frontend"@, self.frontend_document()),
            (
                "m1k_modes"@,
                JsonTree::Object(
                    seq![
                        text("a"@, mode_name(self.m_mode[0])),
                        text("b"@, mode_name(self.m_mode[1])),
                    ],
                ),
            ),
        ]
    }
}

impl DeviceView {
    /// The id of a device.
    pub open spec fn id(self) -> Seq<char> {
        self.model + "~"@ + self.serial
    }

    /// What the state says of the identity of the device.
    pub open spec fn identity(self) -> Seq<(Seq<char>, JsonTree)> {
        seq![
            text("id"@, self.id()),
            text("model"@, self.model),
            text("hwVersion"@, self.hw_version),
            text("fwVersion"@, self.fw_version),
            text("serial"@, self.serial),
        ]
    }

    /// What the state says of the configuration.
    pub open spec fn configuration(self) -> Seq<(Seq<char>, JsonTree)> {
        seq![
            ("sampleTime"@, JsonTree::Number(Number::Double(self.sample_time))),
            ("minSampleTime"@, JsonTree::Number(Number::Double(self.min_sample_time))),
            natural("mode"@, self.dev_mode as u64),
            natural("samples"@, self.capture_samples as u64),
            ("length"@, JsonTree::Number(Number::Single(self.capture_length))),
            truth("continuous"@, self.capture_continuous),
            truth("raw"@, self.raw_mode),
            natural("currentLimit"@, self.current_limit as u64),
        ]
    }

    /// The state, or only the configuration.
    pub open spec fn state(self, config_only: bool) -> JsonTree {
        if config_only {
            JsonTree::Object(self.configuration())
        } else {
            JsonTree::Object(
                self.identity() + self.configuration() + seq![
                    truth("captureState"@, self.capture_state),
                    truth("captureDone"@, self.capture_done),
                    ("channels"@, JsonTree::Object(channel_members(self.channels))),
                ] + (match self.backend {
                    BackendView::M1k(b) => b.extras(),
                    _ => seq![],
                }),
            )
        }
    }
}

/// A message that only says what happened.
pub open spec fn action(name: Seq<char>) -> JsonTree {
    JsonTree::Object(seq![text("_action"@, name)])
}

impl Stream {
    /// The gain that counts: `gain` in parts of `normal_gain`.
    pub fn get_gain(&self) -> (r: Number)
        ensures
            r == Number::Ratio(self@.gain, self@.normal_gain),
    {
        Number::Ratio(self.gain, self.normal_gain)
    }

    pub fn to_json(&self) -> (r: Json)
        ensures
            r@ == self@.document(),
    {
        let mut n: Vec<(String, Json)> = Vec::new();
        put_text(&mut n, "id", self.id.as_str());
        put_text(&mut n, "displayName", self.display_name.as_str());
        put_text(&mut n, "units", self.units.as_str());
        put_number(&mut n, "min", Number::Single(self.min));
        put_number(&mut n, "max", Number::Single(self.max));
        put_number(&mut n, "outputMode", Number::Unsigned(self.output_mode as u64));
        put_number(&mut n, "gain", self.get_gain());
        put_number(&mut n, "uncertainty", Number::Single(self.uncertainty));
        assert(JsonTree::Object(members(n@)) == self@.document()) by {
            assert(members(n@) =~= self@.document()->Object_0);
        }
        Json::Object(n)
    }
}

impl Channel {
    pub fn to_json(&self) -> (r: Json)
        requires
            self.source matches Some(s) ==> s.wf(),
        ensures
            r@ == self@.document(),
    {
        let mut n: Vec<(String, Json)> = Vec::new();
        put_text(&mut n, "id", self.id.as_str());
        put_text(&mut n, "displayName", self.display_name.as_str());
        if let Some(src) = &self.source {
            put(&mut n, "output", src.describe_json());
        }
        let mut streams: Vec<(String, Json)> = Vec::new();
        let ghost views = stream_views(self.streams@);
        let mut i: usize = 0;
        assert(views.take(0) =~= Seq::empty());
        while i < self.streams.len()
            invariant
                i <= self.streams.len(),
                views == stream_views(self.streams@),
                members(streams@) == stream_members(views.take(i as int)),
            decreases self.streams.len() - i,
        {
            set_member(&mut streams, self.streams[i].id.as_str(), self.streams[i].to_json());
            assert(views.take(i + 1).drop_last() =~= views.take(i as int));
            assert(views.take(i + 1).last() == self.streams@[i as int]@);
            i += 1;
        }
        assert(views.take(i as int) =~= views);
        put(&mut n, "streams", Json::Object(streams));
        assert(members(n@) =~= self@.document()->Object_0);
        Json::Object(n)
    }
}

fn frontend_channel_json(fe: &Frontend) -> (r: Json)
    ensures
        r@ == frontend_tree(*fe),
{
    let mut n: Vec<(String, Json)> = Vec::new();
    put_bool(&mut n, "r50_2v5", fe.r50_2v5);
    put_bool(&mut n, "r50_gnd", fe.r50_gnd);
    put_bool(&mut n, "feedback", fe.feedback);
    put_bool(&mut n, "output_en", fe.output_en);
    put_bool(&mut n, "split", fe.split);
    let mut pot: Vec<Json> = Vec::new();
    add_element(&mut pot, Json::Number(Number::Unsigned(fe.pot_r1 as u64)));
    add_element(&mut pot, Json::Number(Number::Unsigned(fe.pot_r2 as u64)));
    assert(trees(pot@) =~= seq![
        JsonTree::Number(Number::Unsigned(fe.pot_r1 as u64)),
        JsonTree::Number(Number::Unsigned(fe.pot_r2 as u64)),
    ]);
    put(&mut n, "pot", Json::Array(pot));
    assert(members(n@) =~= frontend_tree(*fe)->Object_0);
    Json::Object(n)
}

fn name_of_mode(mode: u32) -> (r: &'static str)
    ensures
        r@ == mode_name(mode),
{
    let m: u32 = mode % 6;
    if m == 0 {
        "hi_z"
    } else if m == 1 {
        "svmi"
    } else if m == 2 {
        "simv"
    } else if m == 3 {
        "hi_z_split"
    } else if m == 4 {
        "svmi_split"
    } else {
        "simv_split"
    }
}

impl M1kBackend {
    pub fn frontend_to_json(&self) -> (r: Json)
        ensures
            r@ == self@.frontend_document(),
    {
        let mut n: Vec<(String, Json)> = Vec::new();
        put(&mut n, "a", frontend_channel_json(&self.frontend[0]));
        put(&mut n, "b", frontend_channel_json(&self.frontend[1]));
        assert(members(n@) =~= self@.frontend_document()->Object_0);
        Json::Object(n)
    }

    /// Appends what the state says of an M1K only.
    pub fn state_extras(&self, n: &mut Vec<(String, Json)>)
        ensures
            members(final(n)@) == members(old(n)@) + self@.extras(),
    {
        put(n, "frontend", self.frontend_to_json());
        let mut m: Vec<(String, Json)> = Vec::new();
        put_text(&mut m, "a", name_of_mode(self.m_mode[0]));
        put_text(&mut m, "b", name_of_mode(self.m_mode[1]));
        assert(members(m@) =~= seq![
            text("a"@, mode_name(self@.m_mode[0])),
            text("b"@, mode_name(self@.m_mode[1])),
        ]);
        put(n, "m1k_modes", Json::Object(m));
        assert(members(n@) =~= members(old(n)@) + self@.extras());
    }
}

impl StreamingDevice {
    pub fn get_id(&self) -> (r: String)
        ensures
            r@ == self@.id(),
    {
        joined(joined(self.model.as_str(), "~").as_str(), self.serial.as_str())
    }

    fn put_configuration(&self, n: &mut Vec<(String, Json)>)
        ensures
            members(final(n)@) == members(old(n)@) + self@.configuration(),
    {
        put_number(n, "sampleTime", Number::Double(self.sample_time));
        put_number(n, "minSampleTime", Number::Double(self.min_sample_time));
        put_number(n, "mode", Number::Unsigned(self.dev_mode as u64));
        put_number(n, "samples", Number::Unsigned(self.capture_samples as u64));
        put_number(n, "length", Number::Single(self.capture_length));
        put_bool(n, "continuous", self.capture_continuous);
        put_bool(n, "raw", self.raw_mode);
        put_number(n, "currentLimit", Number::Unsigned(self.current_limit as u64));
        assert(members(n@) =~= members(old(n)@) + self@.configuration());
    }

    fn channels_json(&self) -> (r: Json)
        requires
            self.wf(),
        ensures
            r@ == JsonTree::Object(channel_members(self@.channels)),
    {
        let mut m: Vec<(String, Json)> = Vec::new();
        let ghost views = channel_views(self.channels@);
        let mut i: usize = 0;
        assert(views.take(0) =~= Seq::empty());
        while i < self.channels.len()
            invariant
                i <= self.channels.len(),
                self.wf(),
                views == self@.channels,
                views == channel_views(self.channels@),
                members(m@) == channel_members(views.take(i as int)),
            decreases self.channels.len() - i,
        {
            assert(crate::streaming::channel_wf(self@.channels[i as int], self@.capture_samples));
            set_member(&mut m, self.channels[i].id.as_str(), self.channels[i].to_json());
            assert(views.take(i + 1).drop_last() =~= views.take(i as int));
            assert(views.take(i + 1).last() == self.channels@[i as int]@);
            i += 1;
        }
        assert(views.take(i as int) =~= views);
        Json::Object(m)
    }

    /// The state of the device, or only its configuration.
    pub fn state_to_json(&self, config_only: bool) -> (r: Json)
        requires
            self.wf(),
        ensures
            r@ == self@.state(config_only),
    {
        let mut n: Vec<(String, Json)> = Vec::new();
        if config_only {
            self.put_configuration(&mut n);
            assert(members(n@) =~= self@.configuration());
            return Json::Object(n);
        }
        put_text(&mut n, "id", self.get_id().as_str());
        put_text(&mut n, "model", self.model.as_str());
        put_text(&mut n, "hwVersion", self.hw_version.as_str());
        put_text(&mut n, "fwVersion", self.fw_version.as_str());
        put_text(&mut n, "serial", self.serial.as_str());
        assert(members(n@) =~= self@.identity());
        self.put_configuration(&mut n);
        put_bool(&mut n, "captureState", self.capture_state);
        put_bool(&mut n, "captureDone", self.capture_done);
        put(&mut n, "channels", self.channels_json());
        if let Backend::M1k(b) = &self.backend {
            b.state_extras(&mut n);
        }
        assert(members(n@) =~= self@.state(false)->Object_0);
        Json::Object(n)
    }
}

} // verus!
