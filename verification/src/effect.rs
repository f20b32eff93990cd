//! What a device asks the outside world to do.
//!
//! Devices do no input or output. What they want done they append, in order,
//! to a list, which whoever owns the device carries out.

use crate::jsonutil::{Json, JsonTree};
use vstd::prelude::*;

verus! {

/// A USB control transfer. The direction is in `request_type`; `length` counts
/// for transfers to the host and `data` for transfers to the device.
#[derive(Debug)]
pub struct ControlRequest {
    pub request_type: u8,
    pub request: u8,
    pub value: u16,
    pub index: u16,
    pub length: u16,
    pub data: Vec<u8>,
}

#[verifier::ext_equal]
pub ghost struct ControlView {
    pub request_type: u8,
    pub request: u8,
    pub value: u16,
    pub index: u16,
    pub length: u16,
    pub data: Seq<u8>,
}

impl View for ControlRequest {
    type V = ControlView;

    open spec fn view(&self) -> ControlView {
        ControlView {
            request_type: self.request_type,
            request: self.request,
            value: self.value,
            index: self.index,
            length: self.length,
            data: self.data@,
        }
    }
}

/// A vendor request to the device, without data.
pub open spec fn told(request: u8, value: u16, index: u16) -> ControlView {
    ControlView { request_type: 0x40, request, value, index, length: 0, data: Seq::empty() }
}

/// A vendor request to the device, with data.
pub open spec fn written(request: u8, data: Seq<u8>) -> ControlView {
    ControlView { request_type: 0x40, request, value: 0, index: 0, length: 0, data }
}

/// A vendor request for `length` bytes from the device.
pub open spec fn asked(request: u8, value: u16, index: u16, length: u16) -> ControlView {
    ControlView { request_type: 0xC0, request, value, index, length, data: Seq::empty() }
}

pub fn tell(request: u8, value: u16, index: u16) -> (r: ControlRequest)
    ensures
        r@ == told(request, value, index),
{
    ControlRequest { request_type: 0x40, request, value, index, length: 0, data: Vec::new() }
}

pub fn hand_over(request: u8, data: Vec<u8>) -> (r: ControlRequest)
    ensures
        r@ == written(request, data@),
{
    ControlRequest { request_type: 0x40, request, value: 0, index: 0, length: 0, data }
}

pub fn ask(request: u8, value: u16, index: u16, length: u16) -> (r: ControlRequest)
    ensures
        r@ == asked(request, value, index, length),
{
    ControlRequest { request_type: 0xC0, request, value, index, length, data: Vec::new() }
}

/// What came of a control transfer: the number of bytes that went over, or a
/// negative number, and the bytes that the device sent.
#[derive(Debug)]
pub struct ControlReply {
    pub status: i32,
    pub data: Vec<u8>,
}

#[verifier::ext_equal]
pub ghost struct ReplyView {
    pub status: i32,
    pub data: Seq<u8>,
}

impl View for ControlReply {
    type V = ReplyView;

    open spec fn view(&self) -> ReplyView {
        ReplyView { status: self.status, data: self.data@ }
    }
}

pub open spec fn reply_views(v: Seq<ControlReply>) -> Seq<ReplyView> {
    v.map_values(|r: ControlReply| r@)
}

#[derive(Debug)]
pub enum Effect {
    /// A message to each of the clients.
    Send { clients: Vec<u64>, message: Json },
    /// A control transfer whose outcome does not matter.
    Control(ControlRequest),
    /// Claim the interface of the device and start the transfers.
    Start,
    /// End the transfers and release the interface.
    Stop,
}

pub ghost enum EffectView {
    Send { clients: Seq<u64>, message: JsonTree },
    Control(ControlView),
    Start,
    Stop,
}

impl View for Effect {
    type V = EffectView;

    open spec fn view(&self) -> EffectView {
        match *self {
            Effect::Send { clients, message } => EffectView::Send {
                clients: clients@,
                message: message@,
            },
            Effect::Control(c) => EffectView::Control(c@),
            Effect::Start => EffectView::Start,
            Effect::Stop => EffectView::Stop,
        }
    }
}

pub open spec fn effects(v: Seq<Effect>) -> Seq<EffectView> {
    v.map_values(|e: Effect| e@)
}

/// A message to one client.
pub open spec fn to_one(client: u64, message: JsonTree) -> EffectView {
    EffectView::Send { clients: seq![client], message }
}

pub fn send_one(out: &mut Vec<Effect>, client: u64, message: Json)
    ensures
        effects(final(out)@) == effects(old(out)@).push(to_one(client, message@)),
{
    let mut clients: Vec<u64> = Vec::new();
    clients.push(client);
    assert(clients@ =~= seq![client]);
    enqueue(out, Effect::Send { clients, message });
}

/// Appends an effect.
pub fn enqueue(out: &mut Vec<Effect>, e: Effect)
    ensures
        effects(final(out)@) == effects(old(out)@).push(e@),
{
    out.push(e);
    assert(effects(out@) =~= effects(old(out)@).push(e@));
}

} // verus!
