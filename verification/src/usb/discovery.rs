//! Making a device of what was found on the bus.

use crate::command::request_views;
use crate::config::ConfigRequest;
use crate::effect::{
    ask, asked, reply_views, tell, told, ControlReply, ControlRequest, ControlView, ReplyView,
};
use crate::float::{Double, Single};
use crate::streaming::{Backend, BackendView, DeviceView, StreamingDevice};
use crate::text::not_before;
use crate::usb::cee::{cee_reset, cee_reset_requests, wants_timer_info};
use crate::usb::{read_string, reply_at, text_told, Kind};
use vstd::prelude::*;
use vstd::string::*;

verus! {

/// What a device was found to be.
#[derive(Debug)]
pub struct Report {
    pub serial: String,
    pub hw_version: String,
    pub fw_version: String,
    /// What the firmware was built from.
    pub git_version: String,
    /// What the firmware of a CEE says of its timer, if it was asked.
    pub info: ControlReply,
    /// The calibration record.
    pub eeprom: ControlReply,
}

// ---- asking ----

/// What a device is asked when it is found, in order. `fw` is the version of its
/// firmware, which the second answer tells.
pub open spec fn questions(kind: Kind, fw: Seq<char>) -> Seq<ControlView> {
    match kind {
        Kind::M1k => seq![
            asked(0x00, 0, 0, 64),
            asked(0x00, 0, 1, 64),
            told(0xC5, 0, 0),
            asked(0x01, 0, 0, 100),
        ],
        Kind::Cee => seq![asked(0x00, 0, 0, 64), asked(0x00, 0, 1, 64)] + (if not_before(
            fw,
            "1.2"@,
        ) {
            seq![asked(0x00, 0, 0xff, 5), asked(0x00, 0, 2, 64)]
        } else {
            seq![]
        }) + cee_reset() + seq![asked(0xE0, 0, 0, 64)],
        Kind::Bootloader => seq![asked(0xB0, 0, 0, 51)],
    }
}

/// The version of the firmware, once it was told.
pub open spec fn version_told(replies: Seq<ReplyView>) -> Seq<char> {
    text_told(reply_at(replies, 1))
}

/// The questions to a device that was found, and its answers so far.
#[derive(Debug)]
pub struct Interview {
    pub kind: Kind,
    pub serial: String,
    pub replies: Vec<ControlReply>,
}

fn question_list(kind: Kind, timer_info: bool) -> (r: Vec<ControlRequest>)
    ensures
        forall|fw: Seq<char>|
            timer_info == not_before(fw, "1.2"@) ==> request_views(r@) == #[trigger] questions(
                kind,
                fw,
            ),
{
    let mut v: Vec<ControlRequest> = Vec::new();
    match kind {
        Kind::M1k => {
            v.push(ask(0x00, 0, 0, 64));
            v.push(ask(0x00, 0, 1, 64));
            v.push(tell(0xC5, 0, 0));
            v.push(ask(0x01, 0, 0, 100));
        },
        Kind::Cee => {
            v.push(ask(0x00, 0, 0, 64));
            v.push(ask(0x00, 0, 1, 64));
            if timer_info {
                v.push(ask(0x00, 0, 0xff, 5));
                v.push(ask(0x00, 0, 2, 64));
            }
            let ghost before = v@;
            let mut resets = cee_reset_requests();
            let ghost all = resets@;
            v.append(&mut resets);
            assert(v@ =~= before + all);
            assert(request_views(v@) =~= request_views(before) + cee_reset());
            v.push(ask(0xE0, 0, 0, 64));
        },
        Kind::Bootloader => {
            v.push(ask(0xB0, 0, 0, 51));
        },
    }
    assert forall|fw: Seq<char>| timer_info == not_before(fw, "1.2"@) implies request_views(v@)
        == #[trigger] questions(kind, fw) by {
        assert(request_views(v@) =~= questions(kind, fw));
    }
    v
}

fn copy_of(reply: &ControlReply) -> (r: ControlReply)
    ensures
        r@ == reply@,
{
    let mut data: Vec<u8> = Vec::new();
    let mut i: usize = 0;
    while i < reply.data.len()
        invariant
            i <= reply.data.len(),
            data@ == reply.data@.take(i as int),
        decreases reply.data.len() - i,
    {
        data.push(reply.data[i]);
        i += 1;
        assert(data@ =~= reply.data@.take(i as int));
    }
    assert(data@ =~= reply.data@);
    ControlReply { status: reply.status, data }
}

impl Interview {
    pub fn new(kind: Kind, serial: String) -> (r: Interview)
        ensures
            r.kind == kind,
            r.serial == serial,
            r.replies@.len() == 0,
    {
        Interview { kind, serial, replies: Vec::new() }
    }

    /// The answer number `i`: a failure where there is none.
    fn reply(&self, i: usize) -> (r: ControlReply)
        ensures
            r@ == reply_at(reply_views(self.replies@), i as int),
    {
        if i < self.replies.len() {
            copy_of(&self.replies[i])
        } else {
            let r = ControlReply { status: -1, data: Vec::new() };
            assert(r.data@ =~= Seq::empty());
            r
        }
    }

    /// All questions that it takes, as far as the answers tell by now.
    pub open spec fn plan(self) -> Seq<ControlView> {
        questions(self.kind, version_told(reply_views(self.replies@)))
    }

    fn timer_info(&self) -> (r: bool)
        ensures
            r == not_before(version_told(reply_views(self.replies@)), "1.2"@),
    {
        wants_timer_info(read_string(&self.reply(1)).as_str())
    }

    /// The next question, if one is left.
    pub fn next_question(&self) -> (r: Option<ControlRequest>)
        ensures
            match r {
                Some(q) => self.replies@.len() < self.plan().len() && q@
                    == self.plan()[self.replies@.len() as int],
                None => self.replies@.len() >= self.plan().len(),
            },
    {
        let mut all = question_list(self.kind, self.timer_info());
        let n: usize = self.replies.len();
        assert(request_views(all@) == self.plan());
        if n < all.len() {
            assert(request_views(all@)[n as int] == all@[n as int]@);
            Some(all.remove(n))
        } else {
            None
        }
    }

    /// Takes the answer to the question.
    pub fn heard(&mut self, reply: ControlReply)
        ensures
            final(self).kind == old(self).kind,
            final(self).serial == old(self).serial,
            final(self).replies@ == old(self).replies@.push(reply),
    {
        self.replies.push(reply);
    }

    /// What was found, once all questions were answered.
    pub fn report(&self) -> (r: Report)
        requires
            self.replies@.len() == self.plan().len(),
        ensures
            ({
                let v = reply_views(self.replies@);
                let asked_more = self.kind == Kind::Cee && not_before(version_told(v), "1.2"@);
                &&& r.serial@ == self.serial@
                &&& r.hw_version@ == text_told(reply_at(v, 0))
                &&& r.fw_version@ == version_told(v)
                &&& r.git_version@ == (if asked_more {
                    text_told(reply_at(v, 3))
                } else {
                    Seq::empty()
                })
                &&& r.info@ == reply_at(
                    v,
                    if asked_more {
                        2
                    } else {
                        v.len() as int
                    },
                )
                &&& r.eeprom@ == v.last()
            }),
    {
        let n: usize = self.replies.len();
        let ghost v = reply_views(self.replies@);
        let asked_more = match self.kind {
            Kind::Cee => self.timer_info(),
            _ => false,
        };
        let git_version = if asked_more {
            read_string(&self.reply(3))
        } else {
            String::new()
        };
        let info = self.reply(
            if asked_more {
                2
            } else {
                n
            },
        );
        assert(v.len() == n && n > 0);
        assert(reply_at(v, n - 1) == v.last());
        Report {
            serial: self.serial.clone(),
            hw_version: read_string(&self.reply(0)),
            fw_version: read_string(&self.reply(1)),
            git_version,
            info,
            eeprom: self.reply(n - 1),
        }
    }
}

/// An interview comes to an end: the answers do not change the questions that were
/// asked before them, and no device is asked more than ten.
pub proof fn law_interview_ends(kind: Kind, before: Seq<ReplyView>, reply: ReplyView, i: int)
    requires
        0 <= i < before.len(),
        before.len() < questions(kind, version_told(before)).len(),
    ensures
        ({
            let after = before.push(reply);
            &&& questions(kind, version_told(after)).len() <= 10
            &&& i < questions(kind, version_told(after)).len()
            &&& questions(kind, version_told(after))[i] == questions(
                kind,
                version_told(before),
            )[i]
        }),
{
    let after = before.push(reply);
    if before.len() >= 2 {
        assert(reply_at(after, 1) == reply_at(before, 1));
    }
}

// ---- making ----

/// A device that was not configured yet.
pub open spec fn bare_device(
    model: Seq<char>,
    hw_version: Seq<char>,
    fw_version: Seq<char>,
    serial: Seq<char>,
    sample_time: Double,
    min_sample_time: Double,
    current_limit: u32,
    backend: BackendView,
) -> DeviceView {
    DeviceView {
        model,
        hw_version,
        fw_version,
        serial,
        connections: Seq::empty(),
        channels: Seq::empty(),
        listeners: Seq::empty(),
        dev_mode: 0,
        raw_mode: false,
        capture_state: false,
        capture_done: false,
        capture_length: Single { bits: 0 },
        capture_samples: 0,
        capture_continuous: false,
        sample_time,
        min_sample_time,
        capture_i: 0,
        capture_o: 0,
        current_limit,
        backend,
        out: Seq::empty(),
    }
}

pub fn make_bare(
    model: &str,
    hw_version: &str,
    fw_version: &str,
    serial: &str,
    sample_time: Double,
    min_sample_time: Double,
    current_limit: u32,
    backend: Backend,
) -> (r: StreamingDevice)
    ensures
        r@ == bare_device(
            model@,
            hw_version@,
            fw_version@,
            serial@,
            sample_time,
            min_sample_time,
            current_limit,
            backend@,
        ),
        r.wf(),
{
    let r = StreamingDevice {
        model: model.to_owned(),
        hw_version: hw_version.to_owned(),
        fw_version: fw_version.to_owned(),
        serial: serial.to_owned(),
        connections: Vec::new(),
        channels: Vec::new(),
        listeners: Vec::new(),
        dev_mode: 0,
        raw_mode: false,
        capture_state: false,
        capture_done: false,
        capture_length: Single { bits: 0 },
        capture_samples: 0,
        capture_continuous: false,
        sample_time,
        min_sample_time,
        capture_i: 0,
        capture_o: 0,
        current_limit,
        backend,
        out: Vec::new(),
    };
    assert(r@.channels =~= Seq::empty());
    assert(r@.listeners =~= Seq::empty());
    assert(r@.connections =~= Seq::empty());
    assert(r@.out =~= Seq::empty());
    r
}

/// What a CEE or an M1K is configured to first: twelve seconds of samples, over
/// and over.
pub open spec fn first_configuration(sample_time: Double, samples: u32) -> ConfigRequest {
    ConfigRequest { mode: 0, sample_time, samples, continuous: true, raw: false }
}

} // verus!
