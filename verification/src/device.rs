//! The devices that are there, and the clients' queues.

use crate::command::{done_or_asking, Outcome, OutcomeView};
use crate::jsonutil::{
    members, put_text, set_member, with_member, Error, Json, JsonTree,
};
use crate::messages::{outcome_fits, outcome_is};
use crate::state::text;
use crate::streaming::{DeviceView, StreamingDevice};
use crate::text::{joined, same, strip_suffix};
use crate::usb::bootloader::{BootView, BootloaderDevice};
use vstd::prelude::*;
use vstd::string::*;

verus! {

// ---- clients ----

/// Once this many bytes of data frames wait for a client, further data frames
/// are dropped until the client catches up. Documents are never dropped.
pub const BINARY_BACKLOG_LIMIT: usize = 0x80_0000;

/// The account of the data frames that wait for a client.
#[derive(Clone, Copy, Debug, PartialEq, Eq, Structural)]
pub struct ClientHandle {
    pub id: u64,
    /// Bytes of data frames that wait.
    pub queued_binary: usize,
    /// Whether the last data frame was dropped.
    pub dropping: bool,
}

impl ClientHandle {
    /// No more bytes wait than may wait.
    pub open spec fn wf(self) -> bool {
        self.queued_binary <= BINARY_BACKLOG_LIMIT
    }

    /// Whether a data frame of `len` bytes has room in the queue.
    pub open spec fn takes(self, len: usize) -> bool {
        self.queued_binary + len <= BINARY_BACKLOG_LIMIT
    }

    /// The account after a data frame of `len` bytes was sent or dropped.
    pub open spec fn sent(self, len: usize) -> ClientHandle {
        ClientHandle {
            queued_binary: if self.takes(len) {
                (self.queued_binary + len) as usize
            } else {
                self.queued_binary
            },
            dropping: !self.takes(len),
            ..self
        }
    }

    /// The account after a data frame of `len` bytes left the queue.
    pub open spec fn relieved(self, len: usize) -> ClientHandle {
        ClientHandle { queued_binary: (self.queued_binary - len) as usize, ..self }
    }

    pub fn new(id: u64) -> (r: ClientHandle)
        ensures
            r == (ClientHandle { id, queued_binary: 0, dropping: false }),
            r.wf(),
    {
        ClientHandle { id, queued_binary: 0, dropping: false }
    }

    /// Whether a data frame of `len` bytes is to be queued.
    pub fn send_binary(&mut self, len: usize) -> (r: bool)
        requires
            old(self).wf(),
        ensures
            final(self).wf(),
            r == old(self).takes(len),
            *final(self) == old(self).sent(len),
            r == (old(self).queued_binary + len <= BINARY_BACKLOG_LIMIT),
            *final(self) == (ClientHandle {
                queued_binary: if r {
                    (old(self).queued_binary + len) as usize
                } else {
                    old(self).queued_binary
                },
                dropping: !r,
                ..*old(self)
            }),
    {
        if len > BINARY_BACKLOG_LIMIT - self.queued_binary {
            self.dropping = true;
            return false;
        }
        self.dropping = false;
        self.queued_binary = self.queued_binary + len;
        true
    }

    /// A data frame of `len` bytes has left the queue.
    pub fn received(&mut self, len: usize)
        requires
            old(self).wf(),
            len <= old(self).queued_binary,
        ensures
            final(self).wf(),
            *final(self) == old(self).relieved(len),
            *final(self) == (ClientHandle {
                queued_binary: (old(self).queued_binary - len) as usize,
                ..*old(self)
            }),
    {
        self.queued_binary = self.queued_binary - len;
    }
}

// ---- devices ----

#[derive(Debug)]
pub enum AnyDevice {
    Streaming(StreamingDevice),
    Bootloader(BootloaderDevice),
}

pub ghost enum AnyView {
    Streaming(DeviceView),
    Bootloader(BootView),
}

impl View for AnyDevice {
    type V = AnyView;

    open spec fn view(&self) -> AnyView {
        match *self {
            AnyDevice::Streaming(d) => AnyView::Streaming(d@),
            AnyDevice::Bootloader(d) => AnyView::Bootloader(d@),
        }
    }
}

impl AnyView {
    pub open spec fn wf(self) -> bool {
        self matches AnyView::Streaming(d) ==> d.wf()
    }

    pub open spec fn model(self) -> Seq<char> {
        match self {
            AnyView::Streaming(d) => d.model,
            AnyView::Bootloader(_) => "com.nonolithlabs.bootloader"@,
        }
    }

    pub open spec fn serial(self) -> Seq<char> {
        match self {
            AnyView::Streaming(d) => d.serial,
            AnyView::Bootloader(d) => d.serial,
        }
    }

    pub open spec fn hw_version(self) -> Seq<char> {
        match self {
            AnyView::Streaming(d) => d.hw_version,
            AnyView::Bootloader(d) => d.info.hw_product + " "@ + d.info.hw_version,
        }
    }

    pub open spec fn fw_version(self) -> Seq<char> {
        match self {
            AnyView::Streaming(d) => d.fw_version,
            AnyView::Bootloader(_) => "unknown"@,
        }
    }

    pub open spec fn id(self) -> Seq<char> {
        self.model() + "~"@ + self.serial()
    }

    pub open spec fn connections(self) -> Seq<u64> {
        match self {
            AnyView::Streaming(d) => d.connections,
            AnyView::Bootloader(d) => d.connections,
        }
    }

    /// The entry in the list of devices.
    pub open spec fn entry(self) -> JsonTree {
        JsonTree::Object(
            seq![
                text("id"@, self.id()),
                text("model"@, self.model()),
                text("hwVersion"@, self.hw_version()),
                text("fwVersion"@, self.fw_version()),
                text("serial"@, self.serial()),
            ],
        )
    }

    pub open spec fn attached(self, client: u64) -> AnyView {
        match self {
            AnyView::Streaming(d) => AnyView::Streaming(d.attached(client)),
            AnyView::Bootloader(d) => AnyView::Bootloader(d.attached(client)),
        }
    }

    pub open spec fn detached(self, client: u64) -> AnyView {
        match self {
            AnyView::Streaming(d) => AnyView::Streaming(d.detached(client)),
            AnyView::Bootloader(d) => AnyView::Bootloader(
                BootView {
                    connections: crate::capture::others(d.connections, client),
                    ..d
                },
            ),
        }
    }

    pub open spec fn disconnected(self) -> AnyView {
        match self {
            AnyView::Streaming(d) => AnyView::Streaming(d.disconnected()),
            AnyView::Bootloader(d) => AnyView::Bootloader(
                d.telling(crate::state::action("deviceDisconnected"@)),
            ),
        }
    }

    pub open spec fn command(self, client: u64, cmd: Seq<char>, n: JsonTree) -> (
        AnyView,
        Result<OutcomeView, Seq<char>>,
    ) {
        match self {
            AnyView::Streaming(d) => {
                let (e, r) = d.command(client, cmd, n);
                (AnyView::Streaming(e), r)
            },
            AnyView::Bootloader(d) => {
                let (e, r) = d.command(client, cmd, n);
                (AnyView::Bootloader(e), r)
            },
        }
    }
}

/// What holds of the outcome of a command.
pub open spec fn any_outcome_fits(r: Result<Outcome, Error>, d: AnyView) -> bool {
    match d {
        AnyView::Streaming(s) => outcome_fits(r, s),
        AnyView::Bootloader(_) => done_or_asking(r),
    }
}

impl AnyDevice {
    pub fn model(&self) -> (r: String)
        ensures
            r@ == self@.model(),
    {
        match self {
            AnyDevice::Streaming(d) => d.model.clone(),
            AnyDevice::Bootloader(d) => d.model(),
        }
    }

    pub fn serial(&self) -> (r: String)
        ensures
            r@ == self@.serial(),
    {
        match self {
            AnyDevice::Streaming(d) => d.serial.clone(),
            AnyDevice::Bootloader(d) => d.serial.clone(),
        }
    }

    pub fn get_id(&self) -> (r: String)
        ensures
            r@ == self@.id(),
    {
        joined(joined(self.model().as_str(), "~").as_str(), self.serial().as_str())
    }

    /// The entry in the list of devices.
    pub fn to_json(&self) -> (r: Json)
        ensures
            r@ == self@.entry(),
    {
        let hw = match self {
            AnyDevice::Streaming(d) => d.hw_version.clone(),
            AnyDevice::Bootloader(d) => d.hw_version(),
        };
        let fw = match self {
            AnyDevice::Streaming(d) => d.fw_version.clone(),
            AnyDevice::Bootloader(_) => "unknown".to_owned(),
        };
        let mut n: Vec<(String, Json)> = Vec::new();
        put_text(&mut n, "id", self.get_id().as_str());
        put_text(&mut n, "model", self.model().as_str());
        put_text(&mut n, "hwVersion", hw.as_str());
        put_text(&mut n, "fwVersion", fw.as_str());
        put_text(&mut n, "serial", self.serial().as_str());
        assert(members(n@) =~= self@.entry()->Object_0);
        Json::Object(n)
    }

    pub fn on_client_attach(&mut self, client: u64)
        requires
            old(self)@.wf(),
        ensures
            final(self)@ == old(self)@.attached(client),
            final(self)@.wf(),
    {
        match self {
            AnyDevice::Streaming(d) => d.on_client_attach(client),
            AnyDevice::Bootloader(d) => d.on_client_attach(client),
        }
    }

    pub fn on_client_detach(&mut self, client: u64)
        requires
            old(self)@.wf(),
        ensures
            final(self)@ == old(self)@.detached(client),
            final(self)@.wf(),
    {
        match self {
            AnyDevice::Streaming(d) => d.on_client_detach(client),
            AnyDevice::Bootloader(d) => d.on_client_detach(client),
        }
    }

    /// The hardware was taken away.
    pub fn on_disconnect(&mut self)
        requires
            old(self)@.wf(),
        ensures
            final(self)@ == old(self)@.disconnected(),
            final(self)@.wf(),
    {
        match self {
            AnyDevice::Streaming(d) => d.on_disconnect(),
            AnyDevice::Bootloader(d) => d.on_disconnect(),
        }
    }

    /// Handles a command of a client.
    pub fn process_message(&mut self, client: u64, cmd: &str, n: &Json) -> (r: Result<
        Outcome,
        Error,
    >)
        requires
            old(self)@.wf(),
        ensures
            final(self)@ == old(self)@.command(client, cmd@, n@).0,
            outcome_is(r, old(self)@.command(client, cmd@, n@).1),
            any_outcome_fits(r, final(self)@),
            final(self)@.wf(),
    {
        match self {
            AnyDevice::Streaming(d) => d.process_message(client, cmd, n),
            AnyDevice::Bootloader(d) => d.process_message(client, cmd, n),
        }
    }

    fn unused(&self) -> (r: bool)
        ensures
            r == (self@.connections().len() == 0),
    {
        match self {
            AnyDevice::Streaming(d) => d.connections.len() == 0,
            AnyDevice::Bootloader(d) => d.connections.len() == 0,
        }
    }
}

// ---- the server ----

/// A device, under a key that no other device has or had.
#[derive(Debug)]
pub struct Slot {
    pub key: u64,
    /// Whether the device is there. One that was taken away stays for the
    /// clients that are attached to it.
    pub listed: bool,
    pub dev: AnyDevice,
}

#[verifier::ext_equal]
pub ghost struct SlotView {
    pub key: u64,
    pub listed: bool,
    pub dev: AnyView,
}

impl View for Slot {
    type V = SlotView;

    open spec fn view(&self) -> SlotView {
        SlotView { key: self.key, listed: self.listed, dev: self.dev@ }
    }
}

pub open spec fn slot_views(v: Seq<Slot>) -> Seq<SlotView> {
    v.map_values(|s: Slot| s@)
}

#[derive(Debug)]
pub struct ServerState {
    pub devices: Vec<Slot>,
    pub next_key: u64,
    pub debug: bool,
    pub allow_any_origin: bool,
    /// What the program was built from.
    pub git_version: String,
}

#[verifier::ext_equal]
pub ghost struct ServerView {
    pub devices: Seq<SlotView>,
    pub next_key: u64,
    pub debug: bool,
    pub allow_any_origin: bool,
    pub git_version: Seq<char>,
}

impl View for ServerState {
    type V = ServerView;

    open spec fn view(&self) -> ServerView {
        ServerView {
            devices: slot_views(self.devices@),
            next_key: self.next_key,
            debug: self.debug,
            allow_any_origin: self.allow_any_origin,
            git_version: self.git_version@,
        }
    }
}

/// Whether `id` means this device: its id, or its model followed by `*`.
pub open spec fn meant(s: SlotView, id: Seq<char>) -> bool {
    s.listed && id.len() > 0 && (if id.last() == '*' {
        s.dev.model() == id.drop_last()
    } else {
        s.dev.id() == id
    })
}

/// The place of the first device that `id` means; the number of devices where
/// there is none.
pub open spec fn place_meant(v: Seq<SlotView>, id: Seq<char>) -> int
    decreases v.len(),
{
    if v.len() == 0 || meant(v[0], id) {
        0
    } else {
        1 + place_meant(v.drop_first(), id)
    }
}

/// The place of the device with this key; the number of devices where there is
/// none.
pub open spec fn place_of_key(v: Seq<SlotView>, key: u64) -> int
    decreases v.len(),
{
    if v.len() == 0 || v[0].key == key {
        0
    } else {
        1 + place_of_key(v.drop_first(), key)
    }
}

proof fn lemma_place_meant(v: Seq<SlotView>, id: Seq<char>, i: int)
    requires
        0 <= i <= v.len(),
        forall|j: int| 0 <= j < i ==> !meant(#[trigger] v[j], id),
        i == v.len() || meant(v[i], id),
    ensures
        place_meant(v, id) == i,
    decreases v.len(),
{
    if i > 0 {
        let w = v.drop_first();
        assert(!meant(v[0], id));
        assert forall|j: int| 0 <= j < i - 1 implies !meant(#[trigger] w[j], id) by {
            assert(w[j] == v[j + 1]);
        }
        lemma_place_meant(w, id, i - 1);
    }
}

proof fn lemma_place_of_key(v: Seq<SlotView>, key: u64, i: int)
    requires
        0 <= i <= v.len(),
        forall|j: int| 0 <= j < i ==> (#[trigger] v[j]).key != key,
        i == v.len() || v[i].key == key,
    ensures
        place_of_key(v, key) == i,
    decreases v.len(),
{
    if i > 0 {
        let w = v.drop_first();
        assert(v[0].key != key);
        assert forall|j: int| 0 <= j < i - 1 implies (#[trigger] w[j]).key != key by {
            assert(w[j] == v[j + 1]);
        }
        lemma_place_of_key(w, key, i - 1);
    }
}

/// The entries of the devices that are there, each under its id.
pub open spec fn entries(v: Seq<SlotView>) -> Seq<(Seq<char>, JsonTree)>
    decreases v.len(),
{
    if v.len() == 0 {
        Seq::empty()
    } else if v.last().listed {
        with_member(entries(v.drop_last()), v.last().dev.id(), v.last().dev.entry())
    } else {
        entries(v.drop_last())
    }
}

impl SlotView {
    /// With the capture paused, if the device is there and has one.
    pub open spec fn paused(self) -> SlotView {
        match self.dev {
            AnyView::Streaming(d) if self.listed => SlotView {
                dev: AnyView::Streaming(d.paused()),
                ..self
            },
            _ => self,
        }
    }
}

impl ServerView {
    /// What holds of a server at all times.
    pub open spec fn wf(self) -> bool {
        &&& forall|i: int|
            0 <= i < self.devices.len() ==> (#[trigger] self.devices[i]).dev.wf()
                && self.devices[i].key < self.next_key
        &&& forall|i: int, j: int|
            0 <= i < j < self.devices.len() ==> (#[trigger] self.devices[i]).key != (
            #[trigger] self.devices[j]).key
    }

    /// The place of the device with this key.
    pub open spec fn at(self, key: u64) -> Option<int> {
        let i = place_of_key(self.devices, key);
        if i < self.devices.len() {
            Some(i)
        } else {
            None
        }
    }

    /// The key of the device that `id` means.
    pub open spec fn named(self, id: Seq<char>) -> Option<u64> {
        let i = place_meant(self.devices, id);
        if i < self.devices.len() {
            Some(self.devices[i].key)
        } else {
            None
        }
    }

    /// With another state of the device at `i`.
    pub open spec fn with_device(self, i: int, dev: AnyView) -> ServerView {
        ServerView {
            devices: self.devices.update(i, SlotView { dev, ..self.devices[i] }),
            ..self
        }
    }

    /// Without the device at `i`, if it was taken away and nobody is attached to
    /// it.
    pub open spec fn swept(self, i: int) -> ServerView {
        if !self.devices[i].listed && self.devices[i].dev.connections().len() == 0 {
            ServerView { devices: self.devices.remove(i), ..self }
        } else {
            self
        }
    }

    /// After a client let go of a device.
    pub open spec fn detached(self, key: u64, client: u64) -> ServerView {
        match self.at(key) {
            Some(i) => self.with_device(i, self.devices[i].dev.detached(client)).swept(i),
            None => self,
        }
    }

    /// After a client took a device.
    pub open spec fn attached(self, key: u64, client: u64) -> ServerView {
        match self.at(key) {
            Some(i) => self.with_device(i, self.devices[i].dev.attached(client)),
            None => self,
        }
    }

    /// After a device came.
    pub open spec fn with_new(self, dev: AnyView) -> ServerView {
        ServerView {
            devices: self.devices.push(SlotView { key: self.next_key, listed: true, dev }),
            next_key: (self.next_key + 1) as u64,
            ..self
        }
    }

    /// With the captures of all devices paused.
    pub open spec fn all_paused(self) -> ServerView {
        ServerView { devices: self.devices.map_values(|s: SlotView| s.paused()), ..self }
    }

    /// After a device was taken away.
    pub open spec fn removed(self, key: u64) -> ServerView {
        match self.at(key) {
            Some(i) => ServerView {
                devices: self.devices.update(
                    i,
                    SlotView { key, listed: false, dev: self.devices[i].dev.disconnected() },
                ),
                ..self
            },
            None => self,
        }
    }
}

impl ServerState {
    pub open spec fn wf(self) -> bool {
        self@.wf()
    }

    pub fn new(debug: bool, allow_any_origin: bool, git_version: &str) -> (r: ServerState)
        ensures
            r@ == (ServerView {
                devices: Seq::empty(),
                next_key: 1,
                debug,
                allow_any_origin,
                git_version: git_version@,
            }),
            r.wf(),
    {
        let r = ServerState {
            devices: Vec::new(),
            next_key: 1,
            debug,
            allow_any_origin,
            git_version: git_version.to_owned(),
        };
        assert(r@.devices =~= Seq::empty());
        r
    }

    /// The place of the device with this key.
    pub fn find(&self, key: u64) -> (r: Option<usize>)
        ensures
            match r {
                Some(i) => self@.at(key) == Some(i as int) && i < self@.devices.len()
                    && self@.devices[i as int].key == key,
                None => self@.at(key) is None,
            },
    {
        let mut i: usize = 0;
        while i < self.devices.len()
            invariant
                i <= self.devices.len(),
                forall|j: int| 0 <= j < i ==> (#[trigger] self@.devices[j]).key != key,
            decreases self.devices.len() - i,
        {
            assert(self@.devices[i as int] == self.devices@[i as int]@);
            if self.devices[i].key == key {
                proof {
                    lemma_place_of_key(self@.devices, key, i as int);
                }
                return Some(i);
            }
            i += 1;
        }
        proof {
            lemma_place_of_key(self@.devices, key, i as int);
        }
        None
    }

    /// The key of the device that `id` means.
    pub fn device_by_id(&self, id: &str) -> (r: Option<u64>)
        ensures
            r == self@.named(id@),
    {
        let mut i: usize = 0;
        if id.is_empty() {
            proof {
                lemma_place_meant(self@.devices, id@, self@.devices.len() as int);
            }
            return None;
        }
        let model = strip_suffix(id, "*");
        proof {
            reveal_strlit("*");
            if model is Some {
                assert(id@.last() == '*');
                assert(id@.drop_last() =~= model->Some_0@);
            } else {
                if id@.last() == '*' {
                    assert(id@.subrange(id@.len() - 1, id@.len() as int) =~= "*"@);
                }
            }
        }
        while i < self.devices.len()
            invariant
                i <= self.devices.len(),
                id@.len() > 0,
                match model {
                    Some(m) => id@.last() == '*' && id@.drop_last() == m@,
                    None => id@.last() != '*',
                },
                forall|j: int| 0 <= j < i ==> !meant(#[trigger] self@.devices[j], id@),
            decreases self.devices.len() - i,
        {
            let s = &self.devices[i];
            assert(self@.devices[i as int] == s@);
            let hit = s.listed && match &model {
                Some(m) => same(s.dev.model().as_str(), m.as_str()),
                None => same(s.dev.get_id().as_str(), id),
            };
            if hit {
                proof {
                    lemma_place_meant(self@.devices, id@, i as int);
                }
                return Some(s.key);
            }
            i += 1;
        }
        proof {
            lemma_place_meant(self@.devices, id@, i as int);
        }
        None
    }

    /// The list of the devices.
    pub fn devices_json(&self) -> (r: Json)
        ensures
            r@ == JsonTree::Object(entries(self@.devices)),
    {
        let mut m: Vec<(String, Json)> = Vec::new();
        let mut i: usize = 0;
        let ghost views = self@.devices;
        assert(views.take(0) =~= Seq::empty());
        while i < self.devices.len()
            invariant
                i <= self.devices.len(),
                views == slot_views(self.devices@),
                members(m@) == entries(views.take(i as int)),
            decreases self.devices.len() - i,
        {
            assert(views.take(i + 1).drop_last() =~= views.take(i as int));
            assert(views.take(i + 1).last() == self.devices@[i as int]@);
            if self.devices[i].listed {
                let id = self.devices[i].dev.get_id();
                set_member(&mut m, id.as_str(), self.devices[i].dev.to_json());
            }
            i += 1;
        }
        assert(views.take(i as int) =~= views);
        Json::Object(m)
    }

    /// Adds a device. Clients have then to be told of the new list.
    pub fn add_device(&mut self, dev: AnyDevice) -> (key: u64)
        requires
            old(self).wf(),
            dev@.wf(),
            old(self)@.next_key < u64::MAX,
        ensures
            final(self)@ == old(self)@.with_new(dev@),
            final(self).wf(),
            key == old(self)@.next_key,
    {
        let ghost before = self@;
        let key = self.next_key;
        self.devices.push(Slot { key, listed: true, dev });
        self.next_key = key + 1;
        proof {
            let after = before.with_new(dev@);
            assert(self@.devices =~= after.devices);
            assert forall|i: int| 0 <= i < after.devices.len() implies (
            #[trigger] after.devices[i]).dev.wf() && after.devices[i].key < after.next_key by {
                if i < before.devices.len() {
                    assert(before.devices[i].dev.wf());
                }
            }
        }
        key
    }

    /// Takes a device from the list. Clients have then to be told of the new
    /// list. Once what it still has to do is done it can be swept.
    pub fn remove_device(&mut self, key: u64)
        requires
            old(self).wf(),
        ensures
            final(self)@ == old(self)@.removed(key),
            final(self).wf(),
    {
        let ghost before = self@;
        if let Some(i) = self.find(key) {
            assert(before.devices[i as int] == self.devices@[i as int]@);
            assert(before.devices[i as int].dev.wf());
            self.devices[i].listed = false;
            self.devices[i].dev.on_disconnect();
            proof {
                assert(self@.devices =~= before.removed(key).devices);
                lemma_update_keeps(before, self@, i as int);
            }
        }
    }

    /// Pauses the captures of all devices, as before the end.
    pub fn shutdown(&mut self)
        requires
            old(self).wf(),
        ensures
            final(self)@ == old(self)@.all_paused(),
            final(self).wf(),
    {
        let ghost before = self@;
        let mut i: usize = 0;
        while i < self.devices.len()
            invariant
                i <= self.devices.len(),
                before == old(self)@,
                self.wf(),
                self@ == (ServerView { devices: self@.devices, ..before }),
                self@.devices.len() == before.devices.len(),
                forall|j: int|
                    0 <= j < before.devices.len() ==> #[trigger] self@.devices[j] == (if j < i {
                        before.devices[j].paused()
                    } else {
                        before.devices[j]
                    }),
            decreases self.devices.len() - i,
        {
            let ghost present = self@;
            assert(present.devices[i as int] == self.devices@[i as int]@);
            assert(present.devices[i as int] == before.devices[i as int]);
            assert(present.devices[i as int].dev.wf());
            if self.devices[i].listed {
                match &mut self.devices[i].dev {
                    AnyDevice::Streaming(d) => d.pause_capture(),
                    AnyDevice::Bootloader(_) => {},
                }
            }
            proof {
                let p = before.devices[i as int].paused();
                assert(self@.devices =~= present.devices.update(i as int, p));
                lemma_update_keeps(present, self@, i as int);
            }
            i += 1;
        }
        assert(self@.devices =~= before.all_paused().devices);
    }

    /// A client takes a device.
    pub fn attach(&mut self, key: u64, client: u64)
        requires
            old(self).wf(),
        ensures
            final(self)@ == old(self)@.attached(key, client),
            final(self).wf(),
    {
        let ghost before = self@;
        if let Some(i) = self.find(key) {
            assert(before.devices[i as int] == self.devices@[i as int]@);
            assert(before.devices[i as int].dev.wf());
            self.devices[i].dev.on_client_attach(client);
            proof {
                assert(self@.devices =~= before.attached(key, client).devices);
                lemma_update_keeps(before, self@, i as int);
            }
        }
    }

    /// A client lets go of a device.
    pub fn detach(&mut self, key: u64, client: u64)
        requires
            old(self).wf(),
        ensures
            final(self)@ == old(self)@.detached(key, client),
            final(self).wf(),
    {
        let ghost before = self@;
        if let Some(i) = self.find(key) {
            assert(before.devices[i as int] == self.devices@[i as int]@);
            assert(before.devices[i as int].dev.wf());
            self.devices[i].dev.on_client_detach(client);
            let ghost mid = before.with_device(
                i as int,
                before.devices[i as int].dev.detached(client),
            );
            proof {
                assert(self@.devices =~= mid.devices);
                lemma_update_keeps(before, self@, i as int);
            }
            self.sweep_at(i);
        }
    }

    fn sweep_at(&mut self, i: usize)
        requires
            old(self).wf(),
            i < old(self)@.devices.len(),
        ensures
            final(self)@ == old(self)@.swept(i as int),
            final(self).wf(),
    {
        let ghost before = self@;
        assert(before.devices[i as int] == self.devices@[i as int]@);
        if !self.devices[i].listed && self.devices[i].dev.unused() {
            self.devices.remove(i);
            proof {
                assert(self@.devices =~= before.devices.remove(i as int));
                let d = self@.devices;
                assert forall|k: int| 0 <= k < d.len() implies (#[trigger] d[k]).dev.wf()
                    && d[k].key < self@.next_key by {
                    let m = if k < i {
                        k
                    } else {
                        k + 1
                    };
                    assert(d[k] == before.devices[m]);
                }
                assert forall|a: int, b: int| 0 <= a < b < d.len() implies (#[trigger] d[a]).key
                    != (#[trigger] d[b]).key by {
                    let m = if a < i {
                        a
                    } else {
                        a + 1
                    };
                    let n = if b < i {
                        b
                    } else {
                        b + 1
                    };
                    assert(before.devices[m].key != before.devices[n].key);
                }
            }
        }
    }

    /// Forgets a device that was taken away, if nobody is attached to it.
    pub fn sweep(&mut self, key: u64)
        requires
            old(self).wf(),
        ensures
            final(self)@ == (match old(self)@.at(key) {
                Some(i) => old(self)@.swept(i),
                None => old(self)@,
            }),
            final(self).wf(),
    {
        if let Some(i) = self.find(key) {
            self.sweep_at(i);
        }
    }
}

/// A device is found at the same place as long as no key changes.
pub proof fn lemma_same_place(a: Seq<SlotView>, b: Seq<SlotView>, key: u64)
    requires
        a.len() == b.len(),
        forall|j: int| 0 <= j < a.len() ==> (#[trigger] a[j]).key == (#[trigger] b[j]).key,
    ensures
        place_of_key(a, key) == place_of_key(b, key),
    decreases a.len(),
{
    if a.len() > 0 {
        assert(a[0].key == b[0].key);
        let x = a.drop_first();
        let y = b.drop_first();
        assert forall|j: int| 0 <= j < x.len() implies (#[trigger] x[j]).key == (
        #[trigger] y[j]).key by {
            assert(a[j + 1].key == b[j + 1].key);
        }
        lemma_same_place(x, y, key);
    }
}

/// Another state of one device keeps a server well formed.
pub proof fn lemma_update_keeps(a: ServerView, b: ServerView, i: int)
    requires
        a.wf(),
        0 <= i < a.devices.len(),
        b.next_key == a.next_key,
        b.devices.len() == a.devices.len(),
        b.devices[i].key == a.devices[i].key,
        b.devices[i].dev.wf(),
        forall|j: int|
            0 <= j < a.devices.len() && j != i ==> #[trigger] b.devices[j] == a.devices[j],
    ensures
        b.wf(),
{
    assert forall|j: int| 0 <= j < b.devices.len() implies (#[trigger] b.devices[j]).dev.wf()
        && b.devices[j].key < b.next_key by {
        assert(a.devices[j].key < a.next_key);
    }
    assert forall|j: int, k: int| 0 <= j < k < b.devices.len() implies (
    #[trigger] b.devices[j]).key != (#[trigger] b.devices[k]).key by {
        assert(a.devices[j].key != a.devices[k].key);
    }
}

} // verus!
