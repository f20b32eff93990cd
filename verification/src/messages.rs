//! The commands that clients send to a streaming device.

use crate::capture::lemma_wf_frame;
use crate::command::{string_needed, Outcome, OutcomeView};
use crate::config::ConfigRequest;
use crate::float::Double;
use crate::jsonutil::{
    bool_at, json_bool_prop_def, json_float_prop, json_float_prop_def, json_int_prop,
    json_string_prop, number_at, Error, Json, JsonTree,
};
use crate::listener::{listener_from, make_stream_listener};
use crate::source::{
    count_of, float_needed, int_needed, make_source, source_from, to_count, SourceView,
};
use crate::streaming::{Backend, BackendView, DeviceView, StreamingDevice};
use crate::text::same;
use crate::usb::cee::{cee_command, CeeBackend};
use crate::usb::m1k::m1k_command;
use crate::usb::{handle_usb_message, usb_command};
use vstd::prelude::*;
use vstd::string::*;

verus! {

/// One in binary64.
pub const ONE_DOUBLE_BITS: u64 = 0x3ff0_0000_0000_0000;

/// The configuration that a document asks for, or what is wrong.
pub open spec fn configuration_from(n: JsonTree) -> Result<ConfigRequest, Seq<char>> {
    match (int_needed(n, "mode"@), int_needed(n, "samples"@), float_needed(n, "sampleTime"@)) {
        (Err(m), _, _) => Err(m),
        (_, Err(m), _) => Err(m),
        (_, _, Err(m)) => Err(m),
        (Ok(mode), Ok(samples), Ok(sample_time)) => Ok(
            ConfigRequest {
                mode: mode as i32,
                sample_time,
                samples: samples as u32,
                continuous: bool_at(n, "continuous"@).unwrap_or(false),
                raw: bool_at(n, "raw"@).unwrap_or(false),
            },
        ),
    }
}

/// The channel and the source that a `set` command names, or what is wrong.
pub open spec fn output_from(d: DeviceView, n: JsonTree) -> Result<(int, SourceView), Seq<char>> {
    match string_needed(n, "channel"@) {
        Err(m) => Err(m),
        Ok(name) => match (d.channel(name), source_from(n)) {
            (None, _) => Err("Channel not found"@),
            (_, Err(m)) => Err(m),
            (Some(c), Ok(s)) => Ok((c, s)),
        },
    }
}

/// The stream that a `setGain` command names, or what is wrong.
pub open spec fn gain_from(d: DeviceView, n: JsonTree) -> Result<(int, int), Seq<char>> {
    match string_needed(n, "channel"@) {
        Err(m) => Err(m),
        Ok(channel) => if d.channel(channel) is None {
            Err("Channel not found"@)
        } else {
            match string_needed(n, "stream"@) {
                Err(m) => Err(m),
                Ok(stream) => d.stream(channel, stream),
            }
        },
    }
}

impl DeviceView {
    /// What the commands that every streaming device knows lead to: the state of
    /// the device, and an outcome or what is wrong.
    pub open spec fn common_command(self, client: u64, cmd: Seq<char>, n: JsonTree) -> (
        DeviceView,
        Result<OutcomeView, Seq<char>>,
    ) {
        if cmd == "listen"@ {
            match int_needed(n, "id"@) {
                Err(m) => (self, Err(m)),
                Ok(id) => {
                    let d = self.unlistened(client, id);
                    match listener_from(d, client, n) {
                        Err(m) => (d, Err(m)),
                        Ok(l) => (d.listened(l), Ok(OutcomeView::Listening)),
                    }
                },
            }
        } else if cmd == "cancelListen"@ {
            match int_needed(n, "id"@) {
                Err(m) => (self, Err(m)),
                Ok(id) => (self.unlistened(client, id), Ok(OutcomeView::Handled)),
            }
        } else if cmd == "configure"@ {
            match configuration_from(n) {
                Err(m) => (self, Err(m)),
                Ok(r) => (self, Ok(OutcomeView::Configure(r))),
            }
        } else if cmd == "startCapture"@ {
            (self.started(), Ok(OutcomeView::Handled))
        } else if cmd == "pauseCapture"@ {
            (self.paused(), Ok(OutcomeView::Handled))
        } else if cmd == "set"@ {
            match output_from(self, n) {
                Err(m) => (self, Err(m)),
                Ok((chan, source)) => (self, Ok(OutcomeView::Output { chan, source })),
            }
        } else if cmd == "setGain"@ {
            match gain_from(self, n) {
                Err(m) => (self, Err(m)),
                Ok((chan, stream)) => (
                    self,
                    Ok(
                        OutcomeView::Gain {
                            chan,
                            stream,
                            gain: number_at(n, "gain"@).unwrap_or(
                                Double { bits: ONE_DOUBLE_BITS },
                            ),
                        },
                    ),
                ),
            }
        } else if cmd == "setCurrentLimit"@ {
            match float_needed(n, "currentLimit"@) {
                Err(m) => (self, Err(m)),
                Ok(limit) => (self.limited(count_of(limit)), Ok(OutcomeView::Handled)),
            }
        } else {
            (self, Ok(OutcomeView::Unknown))
        }
    }

    /// What the commands of the hardware lead to.
    pub open spec fn hardware_command(self, client: u64, cmd: Seq<char>, n: JsonTree) -> (
        DeviceView,
        Result<OutcomeView, Seq<char>>,
    ) {
        match self.backend {
            BackendView::Test(_) => (self, Ok(OutcomeView::Unknown)),
            BackendView::M1k(b) => {
                let (b2, todo, r) = m1k_command(b, self.fw_version, client, cmd, n);
                (
                    DeviceView { backend: BackendView::M1k(b2), out: self.out + todo, ..self },
                    r,
                )
            },
            BackendView::Cee(b) => {
                let (cal, todo, r) = cee_command(b.cal, client, cmd, n);
                (
                    DeviceView {
                        backend: BackendView::Cee(CeeBackend { cal, ..b }),
                        out: self.out + todo,
                        ..self
                    },
                    r,
                )
            },
        }
    }

    /// What the commands that every USB device knows lead to.
    pub open spec fn bus_command(self, client: u64, cmd: Seq<char>, n: JsonTree) -> (
        DeviceView,
        Result<OutcomeView, Seq<char>>,
    ) {
        if self.backend is Test {
            (self, Ok(OutcomeView::Unknown))
        } else {
            let (todo, r) = usb_command(client, cmd, n);
            (DeviceView { out: self.out + todo, ..self }, r)
        }
    }

    /// What a command leads to. The hardware has the first say, then the bus,
    /// then what all streaming devices have in common.
    pub open spec fn command(self, client: u64, cmd: Seq<char>, n: JsonTree) -> (
        DeviceView,
        Result<OutcomeView, Seq<char>>,
    ) {
        let (d, r) = self.hardware_command(client, cmd, n);
        if r != Ok::<OutcomeView, Seq<char>>(OutcomeView::Unknown) {
            (d, r)
        } else {
            let (e, s) = d.bus_command(client, cmd, n);
            if s != Ok::<OutcomeView, Seq<char>>(OutcomeView::Unknown) {
                (e, s)
            } else {
                e.common_command(client, cmd, n)
            }
        }
    }
}

/// Whether an outcome that was computed is the one that is meant.
pub open spec fn outcome_is(
    r: Result<Outcome, Error>,
    meant: Result<OutcomeView, Seq<char>>,
) -> bool {
    match r {
        Ok(o) => meant == Ok::<OutcomeView, Seq<char>>(o@),
        Err(e) => meant == Err::<OutcomeView, Seq<char>>(e@),
    }
}

/// What holds of an outcome: the channel, stream and source are there.
pub open spec fn outcome_fits(r: Result<Outcome, Error>, d: DeviceView) -> bool {
    match r {
        Ok(Outcome::Output { chan, source }) => chan < d.channels.len() && source.wf(),
        Ok(Outcome::Gain { chan, stream, .. }) => crate::streaming::has_stream(
            d.channels,
            chan as int,
            stream as int,
        ),
        Ok(Outcome::Listening) => d.listeners.len() > 0,
        Ok(Outcome::Ask(a)) => a.requests.len() >= 1,
        _ => true,
    }
}

fn read_configuration(n: &Json) -> (r: Result<ConfigRequest, Error>)
    ensures
        match r {
            Ok(c) => configuration_from(n@) == Ok::<ConfigRequest, Seq<char>>(c),
            Err(e) => configuration_from(n@) == Err::<ConfigRequest, Seq<char>>(e@),
        },
{
    let mode: i32 = match json_int_prop(n, "mode") {
        Ok(i) => #[verifier::truncate]
        (i as i32),
        Err(e) => return Err(e),
    };
    let samples: u32 = match json_int_prop(n, "samples") {
        Ok(i) => #[verifier::truncate]
        (i as u32),
        Err(e) => return Err(e),
    };
    let sample_time = match json_float_prop(n, "sampleTime") {
        Ok(d) => d,
        Err(e) => return Err(e),
    };
    Ok(
        ConfigRequest {
            mode,
            sample_time,
            samples,
            continuous: json_bool_prop_def(n, "continuous", false),
            raw: json_bool_prop_def(n, "raw", false),
        },
    )
}

impl StreamingDevice {
    fn unlisten(&mut self, client: u64, id: i64)
        requires
            old(self).wf(),
        ensures
            final(self)@ == old(self)@.unlistened(client, id),
            final(self).wf(),
    {
        let idx = self.find_listener(client, id);
        self.cancel_listen(idx);
    }

    fn common_message(&mut self, client: u64, cmd: &str, n: &Json) -> (r: Result<Outcome, Error>)
        requires
            old(self).wf(),
        ensures
            final(self)@ == old(self)@.common_command(client, cmd@, n@).0,
            outcome_is(r, old(self)@.common_command(client, cmd@, n@).1),
            outcome_fits(r, final(self)@),
            final(self).wf(),
    {
        if same(cmd, "listen") {
            let id = match json_int_prop(n, "id") {
                Ok(i) => i,
                Err(e) => return Err(e),
            };
            self.unlisten(client, id);
            match make_stream_listener(self, client, n) {
                Ok(l) => {
                    self.add_listener(l);
                    Ok(Outcome::Listening)
                },
                Err(e) => Err(e),
            }
        } else if same(cmd, "cancelListen") {
            let id = match json_int_prop(n, "id") {
                Ok(i) => i,
                Err(e) => return Err(e),
            };
            self.unlisten(client, id);
            Ok(Outcome::Handled)
        } else if same(cmd, "configure") {
            match read_configuration(n) {
                Ok(r) => Ok(Outcome::Configure(r)),
                Err(e) => Err(e),
            }
        } else if same(cmd, "startCapture") {
            self.start_capture();
            Ok(Outcome::Handled)
        } else if same(cmd, "pauseCapture") {
            self.pause_capture();
            Ok(Outcome::Handled)
        } else if same(cmd, "set") {
            let name = match json_string_prop(n, "channel") {
                Ok(s) => s,
                Err(e) => return Err(e),
            };
            let chan = match self.channel_by_id(name.as_str()) {
                Some(c) => c,
                None => return Err(Error::new("Channel not found")),
            };
            match make_source(n) {
                Ok(source) => Ok(Outcome::Output { chan, source }),
                Err(e) => Err(e),
            }
        } else if same(cmd, "setGain") {
            let channel = match json_string_prop(n, "channel") {
                Ok(s) => s,
                Err(e) => return Err(e),
            };
            if self.channel_by_id(channel.as_str()).is_none() {
                return Err(Error::new("Channel not found"));
            }
            let stream = match json_string_prop(n, "stream") {
                Ok(s) => s,
                Err(e) => return Err(e),
            };
            match self.find_stream(channel.as_str(), stream.as_str()) {
                Ok((c, s)) => Ok(
                    Outcome::Gain {
                        chan: c,
                        stream: s,
                        gain: json_float_prop_def(n, "gain", Double { bits: ONE_DOUBLE_BITS }),
                    },
                ),
                Err(e) => Err(e),
            }
        } else if same(cmd, "setCurrentLimit") {
            match json_float_prop(n, "currentLimit") {
                Ok(d) => {
                    self.set_current_limit(to_count(d));
                    Ok(Outcome::Handled)
                },
                Err(e) => Err(e),
            }
        } else {
            Ok(Outcome::Unknown)
        }
    }

    fn hardware_message(&mut self, client: u64, cmd: &str, n: &Json) -> (r: Result<Outcome, Error>)
        requires
            old(self).wf(),
        ensures
            final(self)@ == old(self)@.hardware_command(client, cmd@, n@).0,
            outcome_is(r, old(self)@.hardware_command(client, cmd@, n@).1),
            outcome_fits(r, final(self)@),
            final(self).wf(),
    {
        let r = match &mut self.backend {
            Backend::Test(_) => Ok(Outcome::Unknown),
            Backend::M1k(b) => b.process_message(
                self.fw_version.as_str(),
                &mut self.out,
                client,
                cmd,
                n,
            ),
            Backend::Cee(b) => b.process_message(&mut self.out, client, cmd, n),
        };
        proof {
            lemma_wf_frame(old(self)@, self@);
        }
        r
    }

    fn bus_message(&mut self, client: u64, cmd: &str, n: &Json) -> (r: Result<Outcome, Error>)
        requires
            old(self).wf(),
        ensures
            final(self)@ == old(self)@.bus_command(client, cmd@, n@).0,
            outcome_is(r, old(self)@.bus_command(client, cmd@, n@).1),
            outcome_fits(r, final(self)@),
            final(self).wf(),
    {
        if let Backend::Test(_) = &self.backend {
            return Ok(Outcome::Unknown);
        }
        let r = handle_usb_message(&mut self.out, client, cmd, n);
        proof {
            lemma_wf_frame(old(self)@, self@);
        }
        r
    }

    /// Handles a command of a client.
    pub fn process_message(&mut self, client: u64, cmd: &str, n: &Json) -> (r: Result<
        Outcome,
        Error,
    >)
        requires
            old(self).wf(),
        ensures
            final(self)@ == old(self)@.command(client, cmd@, n@).0,
            outcome_is(r, old(self)@.command(client, cmd@, n@).1),
            outcome_fits(r, final(self)@),
            final(self).wf(),
    {
        match self.hardware_message(client, cmd, n) {
            Ok(Outcome::Unknown) => {},
            r => return r,
        }
        match self.bus_message(client, cmd, n) {
            Ok(Outcome::Unknown) => {},
            r => return r,
        }
        self.common_message(client, cmd, n)
    }
}

} // verus!
