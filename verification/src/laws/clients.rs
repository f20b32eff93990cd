//! What holds of the dealings with clients.

use crate::capture::others;
use crate::command::OutcomeView;
use crate::delivery::place_of;
use crate::device::{
    meant, place_meant, place_of_key, AnyView, ClientHandle, ServerView, SlotView,
};
use crate::effect::EffectView;
use crate::jsonutil::{int_at, member, parsed, string_at, JsonTree, Number};
use crate::laws::capture::lemma_others;
use crate::listener::{listener_from, ListenerView};
use crate::rest::{
    device_step, full, hardware_step, m1k_rest, request_step, RequestView, StepView,
};
use crate::streaming::{BackendView, DeviceView};
use crate::usb::cee::cee_command;
use crate::usb::m1k::m1k_command;
use crate::ws::{error_message, message_reaction, reaction_to, ReactionView};
use vstd::prelude::*;
use vstd::string::*;

verus! {

// ---- devices ----

/// No device is meant by an empty id.
pub proof fn law_empty_id_means_nothing(s: ServerView)
    ensures
        s.named(Seq::empty()) is None,
{
    lemma_nothing_meant(s.devices, Seq::empty());
}

proof fn lemma_nothing_meant(v: Seq<SlotView>, id: Seq<char>)
    requires
        forall|j: int| 0 <= j < v.len() ==> !meant(#[trigger] v[j], id),
    ensures
        place_meant(v, id) == v.len(),
    decreases v.len(),
{
    if v.len() > 0 {
        let w = v.drop_first();
        assert(!meant(v[0], id));
        assert forall|j: int| 0 <= j < w.len() implies !meant(#[trigger] w[j], id) by {
            assert(w[j] == v[j + 1]);
        }
        lemma_nothing_meant(w, id);
    }
}

proof fn lemma_first_meant(v: Seq<SlotView>, id: Seq<char>)
    ensures
        0 <= place_meant(v, id) <= v.len(),
        place_meant(v, id) < v.len() ==> meant(v[place_meant(v, id)], id),
        forall|j: int| 0 <= j < place_meant(v, id) ==> !meant(#[trigger] v[j], id),
    decreases v.len(),
{
    if v.len() > 0 && !meant(v[0], id) {
        let w = v.drop_first();
        lemma_first_meant(w, id);
        assert forall|j: int| 0 <= j < place_meant(v, id) implies !meant(#[trigger] v[j], id) by {
            if j > 0 {
                assert(v[j] == w[j - 1]);
            }
        }
    }
}

/// The device that an id means is there, has that id or, before a final `*`, that
/// model, and is the first such one.
pub proof fn law_first_device_is_meant(s: ServerView, id: Seq<char>, i: int)
    requires
        0 <= i < s.devices.len(),
        meant(s.devices[i], id),
    ensures
        s.named(id) is Some,
        exists|j: int|
            0 <= j <= i && s.named(id) == Some((#[trigger] s.devices[j]).key) && meant(
                s.devices[j],
                id,
            ),
{
    lemma_first_meant(s.devices, id);
    let j = place_meant(s.devices, id);
    assert(j <= i);
    assert(s.named(id) == Some(s.devices[j].key));
}

/// A name that ends in a star means the devices of the model before the star, and any
/// other name the device whose model and serial number it is made of; one that was taken
/// away is meant by no name.
pub proof fn law_names_of_devices(s: SlotView, model: Seq<char>, serial: Seq<char>)
    ensures
        meant(s, model.push('*')) <==> s.listed && s.dev.model() == model,
        (serial.len() > 0 && serial[serial.len() - 1] != '*') && s.listed && s.dev.model() == model
            && s.dev.serial() == serial ==> meant(s, model + seq!['~'] + serial),
        forall|id: Seq<char>|
            id.len() > 0 && id[id.len() - 1] != '*' && #[trigger] meant(s, id) ==> s.listed && id
                == s.dev.model() + seq!['~'] + s.dev.serial(),
        forall|id: Seq<char>| !s.listed ==> !#[trigger] meant(s, id),
{
    reveal_strlit("~");
    assert("~"@ =~= seq!['~']);
    assert(model.push('*').drop_last() =~= model);
}

/// A device that was taken away is not found any more.
pub proof fn law_removed_device_is_not_found(s: ServerView, key: u64, id: Seq<char>)
    requires
        s.wf(),
        s.at(key) is Some,
    ensures
        s.removed(key).named(id) != Some(key),
{
    let t = s.removed(key);
    lemma_first_meant(t.devices, id);
    lemma_key_place(s.devices, key);
    let i = place_of_key(s.devices, key);
    let j = place_meant(t.devices, id);
    if j < t.devices.len() {
        assert(t.devices[j].listed);
        assert(j != i);
        assert(t.devices[j] == s.devices[j]);
        if j < i {
            assert(s.devices[j].key != s.devices[i].key);
        } else {
            assert(s.devices[i].key != s.devices[j].key);
        }
    }
}

proof fn lemma_key_place(v: Seq<SlotView>, key: u64)
    ensures
        0 <= place_of_key(v, key) <= v.len(),
        place_of_key(v, key) < v.len() ==> v[place_of_key(v, key)].key == key,
    decreases v.len(),
{
    if v.len() > 0 && v[0].key != key {
        lemma_key_place(v.drop_first(), key);
    }
}

/// A device that has come has a key that no other has or had, and is found by its id
/// unless an earlier one has that id.
pub proof fn law_new_device_is_found(s: ServerView, dev: AnyView, id: Seq<char>)
    requires
        s.wf(),
        s.next_key < u64::MAX,
        id.len() > 0,
        id.last() != '*',
        dev.id() == id,
    ensures
        s.named(id) is None ==> s.with_new(dev).named(id) == Some(s.next_key),
        s.named(id) is Some ==> s.with_new(dev).named(id) == s.named(id),
        forall|i: int|
            0 <= i < s.devices.len() ==> (#[trigger] s.devices[i]).key != s.next_key,
{
    let t = s.with_new(dev);
    let n = s.devices.len() as int;
    lemma_first_meant(s.devices, id);
    lemma_first_meant(t.devices, id);
    assert(meant(t.devices[n], id));
    let j = place_meant(t.devices, id);
    let k = place_meant(s.devices, id);
    assert(j <= n);
    if k < n {
        assert(t.devices[k] == s.devices[k]);
        assert(j <= k);
        assert(t.devices[j] == s.devices[j]);
        assert(j >= k);
    } else if j < n {
        assert(t.devices[j] == s.devices[j]);
    }
}

/// At the end no capture of a device that is there runs.
pub proof fn law_shutdown_stops_captures(s: ServerView, i: int)
    requires
        0 <= i < s.devices.len(),
        s.devices[i].listed,
    ensures
        s.all_paused().devices[i].dev matches AnyView::Streaming(d) ==> !d.capture_state,
{
}

// ---- messages ----

/// A message that is no document is answered with an error, and changes nothing.
pub proof fn law_bad_message_is_answered(
    s: ServerView,
    client: u64,
    device: Option<u64>,
    msg: Seq<char>,
)
    requires
        parsed(msg) is Err,
    ensures
        message_reaction(s, client, device, msg) == (
            s,
            device,
            ReactionView::Reply(
                error_message("JSON parse error: "@ + parsed(msg)->Err_0, 0),
            ),
        ),
{
}

/// The answer to a command that failed says what failed and has the id of the command,
/// if the command has one.
pub proof fn law_errors_carry_the_id(message: Seq<char>, id: i64)
    ensures
        ({
            let m = error_message(message, id)->Object_0;
            &&& member(m, "_action"@) == Some(JsonTree::Str("error"@))
            &&& member(m, "error"@) == Some(JsonTree::Str(message))
            &&& member(m, "id"@) == (if id == 0 {
                None
            } else {
                Some(JsonTree::Number(Number::Signed(id)))
            })
        }),
{
    reveal_strlit("_action");
    reveal_strlit("error");
    reveal_strlit("id");
    reveal_with_fuel(member, 4);
    assert("_action"@.len() != "error"@.len());
    assert("_action"@.len() != "id"@.len());
    assert("error"@.len() != "id"@.len());
}

/// Whatever a command of a client comes to, a failure is answered with the id of the
/// command.
pub proof fn law_failed_commands_are_answered(
    s: ServerView,
    client: u64,
    key: u64,
    n: JsonTree,
    cmd: Seq<char>,
)
    requires
        string_at(n, "_cmd"@) == Some(cmd),
        cmd != "selectDevice"@,
        s.at(key) is Some,
    ensures
        ({
            let (d, r) = s.devices[s.at(key)->Some_0].dev.command(client, cmd, n);
            r is Err ==> reaction_to(s, client, Some(key), n).2 == ReactionView::Reply(
                error_message(r->Err_0, int_at(n, "id"@).unwrap_or(0)),
            )
        }),
{
}

/// A command that is sent before a device was selected is dropped without a word.
pub proof fn law_commands_need_a_device(s: ServerView, client: u64, n: JsonTree, cmd: Seq<char>)
    requires
        string_at(n, "_cmd"@) == Some(cmd),
        cmd != "selectDevice"@,
    ensures
        reaction_to(s, client, None, n) == (s, None::<u64>, ReactionView::Nothing),
{
}

/// The words that some device knows as a command.
pub open spec fn known(cmd: Seq<char>) -> bool {
    ||| cmd == "listen"@ || cmd == "cancelListen"@ || cmd == "configure"@
    ||| cmd == "startCapture"@ || cmd == "pauseCapture"@ || cmd == "set"@
    ||| cmd == "setGain"@ || cmd == "setCurrentLimit"@
    ||| cmd == "controlTransfer"@ || cmd == "enterBootloader"@
    ||| cmd == "readCalibration"@ || cmd == "writeCalibration"@ || cmd == "tempCalibration"@
    ||| cmd == "getFrontend"@ || cmd == "setFrontend"@ || cmd == "getPower"@
    ||| cmd == "getTemperature"@ || cmd == "getLED"@ || cmd == "setLED"@ || cmd == "setSerial"@
    ||| cmd == "erase"@ || cmd == "write"@ || cmd == "crc_app"@ || cmd == "crc_boot"@
    ||| cmd == "reset"@
}

proof fn lemma_unknown_command(d: DeviceView, client: u64, cmd: Seq<char>, n: JsonTree)
    requires
        !known(cmd),
    ensures
        d.command(client, cmd, n) == (d, Ok::<OutcomeView, Seq<char>>(OutcomeView::Unknown)),
{
    reveal(m1k_command);
    reveal(cee_command);
    assert(d.out + Seq::empty() =~= d.out);
    assert(d.hardware_command(client, cmd, n) == (
        d,
        Ok::<OutcomeView, Seq<char>>(OutcomeView::Unknown),
    ));
    assert(d.bus_command(client, cmd, n) == (
        d,
        Ok::<OutcomeView, Seq<char>>(OutcomeView::Unknown),
    ));
}

/// A command that no device knows changes nothing, and is not answered.
pub proof fn law_unknown_command_is_silent(
    s: ServerView,
    client: u64,
    device: Option<u64>,
    n: JsonTree,
    cmd: Seq<char>,
)
    requires
        string_at(n, "_cmd"@) == Some(cmd),
        cmd != "selectDevice"@,
        !known(cmd),
    ensures
        reaction_to(s, client, device, n) == (s, device, ReactionView::Nothing),
{
    if let Some(key) = device {
        lemma_key_place(s.devices, key);
        if let Some(i) = s.at(key) {
            match s.devices[i].dev {
                AnyView::Streaming(d) => {
                    lemma_unknown_command(d, client, cmd, n);
                },
                AnyView::Bootloader(b) => {
                    assert(b.out + Seq::empty() =~= b.out);
                    assert(b.command(client, cmd, n).0 == b);
                },
            }
            assert(s.with_device(i, s.devices[i].dev).devices =~= s.devices);
        }
    }
}

/// Selecting a device that is not there changes nothing, and is not answered.
pub proof fn law_unknown_device_is_not_selected(
    s: ServerView,
    client: u64,
    device: Option<u64>,
    n: JsonTree,
    id: Seq<char>,
)
    requires
        string_at(n, "_cmd"@) == Some("selectDevice"@),
        string_at(n, "id"@) == Some(id),
        s.named(id) is None,
    ensures
        reaction_to(s, client, device, n) == (s, device, ReactionView::Nothing),
{
}

// ---- listeners ----

/// Whether no client has two listeners with one id.
pub open spec fn ids_differ(v: Seq<ListenerView>) -> bool {
    forall|i: int, j: int, c: u64|
        #![trigger v[i].of_client(c), v[j].of_client(c)]
        0 <= i < j < v.len() && v[i].of_client(c) && v[j].of_client(c) ==> v[i].id != v[j].id
}

proof fn lemma_place_of(v: Seq<ListenerView>, client: u64, id: i64)
    ensures
        ({
            let k = place_of(v, client, id);
            &&& 0 <= k <= v.len()
            &&& k < v.len() ==> v[k].of_client(client) && v[k].id == id
            &&& forall|j: int|
                0 <= j < k ==> !((#[trigger] v[j]).of_client(client) && v[j].id == id)
        }),
    decreases v.len(),
{
    if v.len() > 0 && !(v[0].of_client(client) && v[0].id == id) {
        let w = v.drop_first();
        lemma_place_of(w, client, id);
        assert forall|j: int| 0 <= j < place_of(v, client, id) implies !((
        #[trigger] v[j]).of_client(client) && v[j].id == id) by {
            if j > 0 {
                assert(v[j] == w[j - 1]);
            }
        }
    }
}

/// A command to listen takes the place of an earlier one with the same id, so that no
/// client ever has two listeners with one id; and after a command to stop there is
/// none with that id.
pub proof fn law_one_listener_for_an_id(d: DeviceView, client: u64, n: JsonTree, l: int)
    requires
        ids_differ(d.listeners),
    ensures
        ids_differ(d.common_command(client, "listen"@, n).0.listeners),
        ids_differ(d.common_command(client, "cancelListen"@, n).0.listeners),
        ({
            let left = d.common_command(client, "cancelListen"@, n).0.listeners;
            int_at(n, "id"@) is Some && 0 <= l < left.len() && left[l].of_client(client)
                ==> left[l].id != int_at(n, "id"@)->Some_0
        }),
{
    if let Some(id) = int_at(n, "id"@) {
        let v = d.listeners;
        let k = place_of(v, client, id);
        let w = d.unlistened(client, id).listeners;
        lemma_place_of(v, client, id);
        assert forall|i: int| 0 <= i < w.len() implies (#[trigger] w[i]) == v[if k < v.len() && i
            >= k {
            i + 1
        } else {
            i
        }] by {}
        assert forall|i: int, j: int, c: u64|
            #![trigger w[i].of_client(c), w[j].of_client(c)]
            0 <= i < j < w.len() && w[i].of_client(c) && w[j].of_client(c) implies w[i].id
            != w[j].id by {
            let a = if k < v.len() && i >= k {
                i + 1
            } else {
                i
            };
            let b = if k < v.len() && j >= k {
                j + 1
            } else {
                j
            };
            assert(v[a].of_client(c) && v[b].of_client(c));
        }
        assert forall|i: int| 0 <= i < w.len() && (#[trigger] w[i]).of_client(client) implies w[i].id
            != id by {
            if k < v.len() && i >= k {
                assert(v[k].of_client(client) && v[i + 1].of_client(client));
            }
        }
        reveal_strlit("listen");
        reveal_strlit("cancelListen");
        assert("listen"@.len() != "cancelListen"@.len());
        if let Ok(m) = listener_from(d.unlistened(client, id), client, n) {
            assert(m.id == id && m.of_client(client));
            let x = w.push(m);
            assert forall|i: int, j: int, c: u64|
                #![trigger x[i].of_client(c), x[j].of_client(c)]
                0 <= i < j < x.len() && x[i].of_client(c) && x[j].of_client(c) implies x[i].id
                != x[j].id by {
                assert(w[i].of_client(c));
                if j < w.len() {
                    assert(w[j].of_client(c));
                }
            }
        }
    }
}

// ---- requests ----

proof fn lemma_reading_device(d: DeviceView, req: RequestView, level: int)
    requires
        !req.post(),
    ensures
        device_step(d, req, level).0 == d,
{
    match d.backend {
        BackendView::M1k(b) => {
            reveal(m1k_rest);
            assert(d.out + Seq::empty() =~= d.out);
            assert(hardware_step(d, req, level).0 == d);
        },
        _ => {},
    }
}

/// A request that posts nothing leaves the server and its devices as they are.
pub proof fn law_reading_changes_nothing(s: ServerView, req: RequestView)
    requires
        !req.post(),
    ensures
        request_step(s, req).0 == s,
{
    if let Some(key) = s.named(req.at(4)) {
        if let Some(i) = s.at(key) {
            lemma_key_place(s.devices, key);
            if let AnyView::Streaming(d) = s.devices[i].dev {
                lemma_reading_device(d, req, 5);
                assert(s.with_device(i, AnyView::Streaming(d)).devices =~= s.devices);
            }
        }
    }
}

/// What is not there is answered with 404, and changes nothing.
pub proof fn law_unknown_object_is_not_found(s: ServerView, req: RequestView)
    requires
        !req.leaf(4),
        req.at(2) == "v1"@,
        req.at(3) == "devices"@,
        s.named(req.at(4)) is None,
    ensures
        request_step(s, req) == (
            s,
            None::<u64>,
            StepView::Respond(full(404, "REST object not found"@)),
        ),
{
}

/// A request for one device leaves the others as they are.
pub proof fn law_other_devices_stay(s: ServerView, req: RequestView, i: int)
    requires
        s.wf(),
        0 <= i < s.devices.len(),
        request_step(s, req).1 != Some(s.devices[i].key),
    ensures
        request_step(s, req).0.devices[i] == s.devices[i],
{
    if let Some(key) = s.named(req.at(4)) {
        lemma_key_place(s.devices, key);
    }
}

// ---- clients and devices ----

/// A client that takes a device is attached to it, and to no other.
pub proof fn law_client_takes_a_device(s: ServerView, key: u64, client: u64, i: int, j: int)
    requires
        s.at(key) == Some(i),
        0 <= i < s.devices.len(),
        0 <= j < s.devices.len(),
        j != i,
    ensures
        ({
            let t = s.attached(key, client);
            &&& t.devices.len() == s.devices.len()
            &&& t.devices[i].key == s.devices[i].key
            &&& t.devices[i].listed == s.devices[i].listed
            &&& t.devices[i].dev.connections() == s.devices[i].dev.connections().push(client)
            &&& t.devices[i].dev.id() == s.devices[i].dev.id()
            &&& t.devices[j] == s.devices[j]
            &&& t.next_key == s.next_key
        }),
{
}

/// A client that lets go of a device is not attached to it any more, and the other
/// clients stay. A device that was taken away goes with its last client; one that is
/// there stays.
pub proof fn law_client_lets_go(s: ServerView, key: u64, client: u64, other: u64, i: int)
    requires
        s.at(key) == Some(i),
        0 <= i < s.devices.len(),
    ensures
        ({
            let t = s.detached(key, client);
            let left = s.devices[i].dev.detached(client).connections();
            let goes = !s.devices[i].listed && left.len() == 0;
            &&& left.contains(other) <==> s.devices[i].dev.connections().contains(other) && other
                != client
            &&& !goes ==> t.devices.len() == s.devices.len() && t.devices[i].dev.connections()
                == left && t.devices[i].key == s.devices[i].key && t.devices[i].listed
                == s.devices[i].listed && forall|j: int|
                0 <= j < s.devices.len() && j != i ==> #[trigger] t.devices[j] == s.devices[j]
            &&& goes ==> t.devices == s.devices.remove(i)
        }),
{
    lemma_others(s.devices[i].dev.connections(), client);
    assert(others(s.devices[i].dev.connections(), client).contains(other)
        <==> s.devices[i].dev.connections().contains(other) && other != client);
}

/// A device that is taken away is not listed any more, tells its clients so, and keeps
/// its key for them; the others stay.
pub proof fn law_device_is_taken_away(s: ServerView, key: u64, i: int, j: int)
    requires
        s.at(key) == Some(i),
        0 <= i < s.devices.len(),
        0 <= j < s.devices.len(),
        j != i,
    ensures
        ({
            let t = s.removed(key);
            let d = s.devices[i].dev;
            let gone = EffectView::Send {
                clients: d.connections(),
                message: JsonTree::Object(
                    seq![("_action"@, JsonTree::Str("deviceDisconnected"@))],
                ),
            };
            &&& t.devices.len() == s.devices.len()
            &&& !t.devices[i].listed
            &&& t.devices[i].key == key
            &&& t.devices[i].dev.connections() == d.connections()
            &&& d matches AnyView::Streaming(x) ==> (t.devices[i].dev matches AnyView::Streaming(y)
                && y.out == x.out.push(gone))
            &&& d matches AnyView::Bootloader(x) ==> (t.devices[i].dev matches AnyView::Bootloader(y)
                && y.out == x.out.push(gone))
            &&& t.devices[j] == s.devices[j]
        }),
{
}

// ---- data frames ----

/// A data frame is queued if and only if no more than eight megabytes wait with it, so
/// that no client makes the server hold more; one that is dropped changes nothing but
/// that it is noted; and a frame that leaves the queue makes room for as much as it
/// took.
pub proof fn law_backlog_is_limited(h: ClientHandle, len: usize, next: usize)
    requires
        h.queued_binary <= 8 * 1024 * 1024,
    ensures
        ({
            let after = h.sent(len);
            &&& h.takes(len) <==> h.queued_binary + len <= 8 * 1024 * 1024
            &&& after.queued_binary <= 8 * 1024 * 1024
            &&& after.id == h.id
            &&& after.dropping <==> !h.takes(len)
            &&& h.takes(len) ==> after.queued_binary == h.queued_binary + len && after.relieved(
                len,
            ).queued_binary == h.queued_binary && after.relieved(len).takes(next) == h.takes(next)
            &&& !h.takes(len) ==> after.queued_binary == h.queued_binary
            &&& after.relieved(0) == after
        }),
{
}

} // verus!
