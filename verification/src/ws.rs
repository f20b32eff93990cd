//! The connection of a client.

use crate::command::{string_needed, Outcome, OutcomeView};
use crate::device::{any_outcome_fits, ServerState, ServerView};
use crate::jsonutil::{
    int_at, json_int_prop_def, json_string_prop, members, parse_json, parsed, put, put_number,
    put_text, Error, Json, JsonTree, Number,
};
use crate::state::text;
use crate::text::same;
use crate::SERVER_VERSION;
use vstd::prelude::*;
use vstd::string::*;

verus! {

/// The members of a greeting.
pub open spec fn greeting(git_version: Seq<char>) -> Seq<(Seq<char>, JsonTree)> {
    seq![
        text("server"@, "Nonolith Connect"@),
        text("version"@, SERVER_VERSION@),
        text("gitVersion"@, git_version),
    ]
}

/// Appends a greeting.
pub fn put_greeting(n: &mut Vec<(String, Json)>, git_version: &str)
    ensures
        members(final(n)@) == members(old(n)@) + greeting(git_version@),
{
    put_text(n, "server", "Nonolith Connect");
    put_text(n, "version", SERVER_VERSION);
    put_text(n, "gitVersion", git_version);
    assert(members(n@) =~= members(old(n)@) + greeting(git_version@));
}

/// What a client is told when it connects.
pub fn hello(git_version: &str) -> (r: Json)
    ensures
        r@ == JsonTree::Object(seq![text("_action"@, "serverHello"@)] + greeting(git_version@)),
{
    let mut n: Vec<(String, Json)> = Vec::new();
    put_text(&mut n, "_action", "serverHello");
    put_greeting(&mut n, git_version);
    assert(members(n@) =~= seq![text("_action"@, "serverHello"@)] + greeting(git_version@));
    Json::Object(n)
}

/// What a client is told of the devices.
pub open spec fn device_list(s: ServerView) -> JsonTree {
    JsonTree::Object(
        seq![
            text("_action"@, "devices"@),
            ("devices"@, JsonTree::Object(crate::device::entries(s.devices))),
        ],
    )
}

/// What a client is told of an error; the id of the command belongs to it, unless
/// it is zero.
pub open spec fn error_message(error: Seq<char>, id: i64) -> JsonTree {
    JsonTree::Object(
        seq![text("_action"@, "error"@), text("error"@, error)] + (if id != 0 {
            seq![("id"@, JsonTree::Number(Number::Signed(id)))]
        } else {
            seq![]
        }),
    )
}

fn error_json(e: &Error, id: i64) -> (r: Json)
    ensures
        r@ == error_message(e@, id),
{
    let mut n: Vec<(String, Json)> = Vec::new();
    put_text(&mut n, "_action", "error");
    put_text(&mut n, "error", e.0.as_str());
    if id != 0 {
        put_number(&mut n, "id", Number::Signed(id));
    }
    assert(members(n@) =~= error_message(e@, id)->Object_0);
    Json::Object(n)
}

/// What a message of a client leads to.
#[derive(Debug)]
pub enum Reaction {
    /// Nothing more is to be done.
    Nothing,
    /// The client is to be sent this.
    Reply(Json),
    /// The device with this key handled a command with this outcome.
    Outcome { key: u64, outcome: Outcome },
}

pub ghost enum ReactionView {
    Nothing,
    Reply(JsonTree),
    Outcome { key: u64, outcome: OutcomeView },
}

impl View for Reaction {
    type V = ReactionView;

    open spec fn view(&self) -> ReactionView {
        match *self {
            Reaction::Nothing => ReactionView::Nothing,
            Reaction::Reply(j) => ReactionView::Reply(j@),
            Reaction::Outcome { key, outcome } => ReactionView::Outcome { key, outcome: outcome@ },
        }
    }
}

/// The connection of a client.
#[derive(Debug)]
pub struct WsConn {
    pub client: u64,
    /// The key of the device that it takes commands for.
    pub device: Option<u64>,
}

/// The state of the server and the device of a client after it took a device.
pub open spec fn selected(s: ServerView, client: u64, device: Option<u64>, key: u64) -> ServerView {
    (match device {
        Some(old_key) => s.detached(old_key, client),
        None => s,
    }).attached(key, client)
}

/// What a document that a client sent leads to.
pub open spec fn reaction_to(s: ServerView, client: u64, device: Option<u64>, n: JsonTree) -> (
    ServerView,
    Option<u64>,
    ReactionView,
) {
    match string_needed(n, "_cmd"@) {
        Err(m) => (s, device, ReactionView::Reply(error_message(m, 0))),
        Ok(cmd) => {
            let id = int_at(n, "id"@).unwrap_or(0);
            if cmd == "selectDevice"@ {
                match string_needed(n, "id"@) {
                    Err(m) => (s, device, ReactionView::Reply(error_message(m, id))),
                    Ok(name) => match s.named(name) {
                        Some(key) => (
                            selected(s, client, device, key),
                            Some(key),
                            ReactionView::Nothing,
                        ),
                        None => (s, device, ReactionView::Nothing),
                    },
                }
            } else {
                match device {
                    None => (s, device, ReactionView::Nothing),
                    Some(key) => match s.at(key) {
                        None => (s, device, ReactionView::Nothing),
                        Some(i) => {
                            let (d, r) = s.devices[i].dev.command(client, cmd, n);
                            (
                                s.with_device(i, d),
                                device,
                                match r {
                                    Err(m) => ReactionView::Reply(error_message(m, id)),
                                    Ok(OutcomeView::Unknown) => ReactionView::Nothing,
                                    Ok(outcome) => ReactionView::Outcome { key, outcome },
                                },
                            )
                        },
                    },
                }
            }
        },
    }
}

/// What a message of a client leads to: one that is no document is answered with
/// an error.
pub open spec fn message_reaction(s: ServerView, client: u64, device: Option<u64>, msg: Seq<char>) -> (
    ServerView,
    Option<u64>,
    ReactionView,
) {
    match parsed(msg) {
        Err(m) => (
            s,
            device,
            ReactionView::Reply(error_message("JSON parse error: "@ + m, 0)),
        ),
        Ok(n) => reaction_to(s, client, device, n),
    }
}

/// What holds of the outcome in a reaction.
pub open spec fn reaction_fits(r: Reaction, s: ServerView) -> bool {
    r matches Reaction::Outcome { key, outcome } ==> s.at(key) is Some && any_outcome_fits(
        Ok(outcome),
        s.devices[s.at(key)->Some_0].dev,
    )
}

impl WsConn {
    /// A connection with no device. The client has then to be sent the greeting
    /// and the list of the devices.
    pub fn new(client: u64) -> (r: WsConn)
        ensures
            r == (WsConn { client, device: None }),
    {
        WsConn { client, device: None }
    }

    /// The list of the devices as a message.
    pub fn send_device_list(&self, state: &ServerState) -> (r: Json)
        ensures
            r@ == device_list(state@),
    {
        let mut n: Vec<(String, Json)> = Vec::new();
        put_text(&mut n, "_action", "devices");
        put(&mut n, "devices", state.devices_json());
        assert(members(n@) =~= device_list(state@)->Object_0);
        Json::Object(n)
    }

    fn select_device(&mut self, state: &mut ServerState, key: u64)
        requires
            old(state).wf(),
        ensures
            final(state)@ == selected(old(state)@, old(self).client, old(self).device, key),
            final(state).wf(),
            *final(self) == (WsConn { device: Some(key), ..*old(self) }),
    {
        if let Some(k) = self.device {
            state.detach(k, self.client);
        }
        state.attach(key, self.client);
        self.device = Some(key);
    }

    /// Handles a document that the client sent.
    pub fn on_document(&mut self, state: &mut ServerState, n: &Json) -> (r: Reaction)
        requires
            old(state).wf(),
        ensures
            ({
                let (s, device, reaction) = reaction_to(
                    old(state)@,
                    old(self).client,
                    old(self).device,
                    n@,
                );
                &&& final(state)@ == s
                &&& *final(self) == (WsConn { device, ..*old(self) })
                &&& r@ == reaction
            }),
            reaction_fits(r, final(state)@),
            final(state).wf(),
    {
        let cmd = match json_string_prop(n, "_cmd") {
            Ok(s) => s,
            Err(e) => return Reaction::Reply(error_json(&e, 0)),
        };
        let id = json_int_prop_def(n, "id", 0);
        if same(cmd.as_str(), "selectDevice") {
            let name = match json_string_prop(n, "id") {
                Ok(s) => s,
                Err(e) => return Reaction::Reply(error_json(&e, id)),
            };
            if let Some(key) = state.device_by_id(name.as_str()) {
                self.select_device(state, key);
            }
            return Reaction::Nothing;
        }
        let key = match self.device {
            Some(key) => key,
            None => return Reaction::Nothing,
        };
        let ghost before = state@;
        match state.find(key) {
            None => Reaction::Nothing,
            Some(i) => {
                assert(before.devices[i as int] == state.devices@[i as int]@);
                assert(before.devices[i as int].dev.wf());
                let r = state.devices[i].dev.process_message(self.client, cmd.as_str(), n);
                proof {
                    let d = before.devices[i as int].dev.command(self.client, cmd@, n@).0;
                    assert(state@.devices =~= before.with_device(i as int, d).devices);
                    crate::device::lemma_update_keeps(before, state@, i as int);
                    crate::device::lemma_same_place(before.devices, state@.devices, key);
                }
                match r {
                    Err(e) => Reaction::Reply(error_json(&e, id)),
                    Ok(Outcome::Unknown) => Reaction::Nothing,
                    Ok(outcome) => Reaction::Outcome { key, outcome },
                }
            },
        }
    }

    /// Handles a message of the client.
    pub fn on_message(&mut self, state: &mut ServerState, msg: &str) -> (r: Reaction)
        requires
            old(state).wf(),
        ensures
            ({
                let (s, device, reaction) = message_reaction(
                    old(state)@,
                    old(self).client,
                    old(self).device,
                    msg@,
                );
                &&& final(state)@ == s
                &&& *final(self) == (WsConn { device, ..*old(self) })
                &&& r@ == reaction
            }),
            reaction_fits(r, final(state)@),
            final(state).wf(),
    {
        match parse_json(msg) {
            Err(e) => Reaction::Reply(error_json(&e, 0)),
            Ok(n) => self.on_document(state, &n),
        }
    }

    /// The client is gone.
    pub fn on_close(&mut self, state: &mut ServerState)
        requires
            old(state).wf(),
        ensures
            final(state)@ == (match old(self).device {
                Some(key) => old(state)@.detached(key, old(self).client),
                None => old(state)@,
            }),
            final(state).wf(),
            *final(self) == (WsConn { device: None, ..*old(self) }),
    {
        if let Some(key) = self.device {
            state.detach(key, self.client);
            self.device = None;
        }
    }
}

} // verus!
