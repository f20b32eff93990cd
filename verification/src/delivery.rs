//! The listeners of a device.

use crate::listener::{look_of, Listener, ListenerView, Next, TriggerType, Update, Zero};
use crate::source::{zero_after, PhaseZero};
use crate::streaming::{channel_wf, DeviceView, StreamingDevice};
use vstd::prelude::*;

verus! {

/// The place of the first listener of a client with this id; the number of
/// listeners where there is none.
pub open spec fn place_of(v: Seq<ListenerView>, client: u64, id: i64) -> int
    decreases v.len(),
{
    if v.len() == 0 || (v[0].of_client(client) && v[0].id == id) {
        0
    } else {
        1 + place_of(v.drop_first(), client, id)
    }
}

proof fn lemma_place_of(v: Seq<ListenerView>, client: u64, id: i64, i: int)
    requires
        0 <= i <= v.len(),
        forall|j: int| 0 <= j < i ==> !((#[trigger] v[j]).of_client(client) && v[j].id == id),
        i == v.len() || (v[i].of_client(client) && v[i].id == id),
    ensures
        place_of(v, client, id) == i,
    decreases v.len(),
{
    if i > 0 {
        let w = v.drop_first();
        assert(!(v[0].of_client(client) && v[0].id == id));
        assert forall|j: int| 0 <= j < i - 1 implies !((#[trigger] w[j]).of_client(client)
            && w[j].id == id) by {
            assert(w[j] == v[j + 1]);
        }
        lemma_place_of(w, client, id, i - 1);
    }
}

impl DeviceView {
    /// Without a listener of a client.
    pub open spec fn unlistened(self, client: u64, id: i64) -> DeviceView {
        let i = place_of(self.listeners, client, id);
        if i < self.listeners.len() {
            DeviceView { listeners: self.listeners.remove(i), ..self }
        } else {
            self
        }
    }

    /// With one listener more.
    pub open spec fn listened(self, l: ListenerView) -> DeviceView {
        DeviceView { listeners: self.listeners.push(l), ..self }
    }

    /// The phase zero that the listener at `i` has to be told before it looks
    /// at the samples, if it has to be told one.
    pub open spec fn zero_wanted(self, i: int) -> Option<PhaseZero> {
        let l = self.listeners[i];
        if l.armed() && l.trigger_type == TriggerType::OutSource {
            match self.channels[l.trigger_channel as int].source {
                Some(s) => match zero_after(s.kind, l.index) {
                    PhaseZero::At(_) => None,
                    wave => Some(wave),
                },
                None => None,
            }
        } else {
            None
        }
    }

    /// After the listener at `i` looked at the samples.
    pub open spec fn polled(self, i: int, wave: Option<Zero>, closed: bool) -> DeviceView {
        let (cursor, _, next) = look_of(self.listeners[i], self, wave, closed);
        DeviceView {
            listeners: if next == Next::Remove {
                self.listeners.remove(i)
            } else {
                self.listeners.update(i, self.listeners[i].at(cursor))
            },
            ..self
        }
    }

    /// After what the listener at `i` had to deliver was handed out: one that waits
    /// for more samples is dropped if nobody took it.
    pub open spec fn handed_out(self, i: int, next: Next, taken: bool) -> DeviceView {
        if next == Next::Keep && !taken {
            DeviceView { listeners: self.listeners.remove(i), ..self }
        } else {
            self
        }
    }
}

/// What a listener had to deliver, and what has become of it.
#[derive(Debug)]
pub struct Poll {
    pub update: Option<Update>,
    pub next: Next,
}

impl StreamingDevice {
    pub fn find_listener(&self, client: u64, id: i64) -> (r: Option<usize>)
        ensures
            match r {
                Some(i) => i < self@.listeners.len() && i == place_of(
                    self@.listeners,
                    client,
                    id,
                ),
                None => place_of(self@.listeners, client, id) == self@.listeners.len(),
            },
    {
        let mut i: usize = 0;
        while i < self.listeners.len()
            invariant
                i <= self.listeners.len(),
                forall|j: int|
                    0 <= j < i ==> !((#[trigger] self@.listeners[j]).of_client(client)
                        && self@.listeners[j].id == id),
            decreases self.listeners.len() - i,
        {
            assert(self@.listeners[i as int] == self.listeners@[i as int]@);
            if self.listeners[i].is_from_client(client) && self.listeners[i].id == id {
                proof {
                    lemma_place_of(self@.listeners, client, id, i as int);
                }
                return Some(i);
            }
            i += 1;
        }
        proof {
            lemma_place_of(self@.listeners, client, id, i as int);
        }
        None
    }

    /// Drops a listener.
    pub fn cancel_listen(&mut self, idx: Option<usize>)
        requires
            old(self).wf(),
            idx matches Some(i) ==> i < old(self)@.listeners.len(),
        ensures
            final(self)@ == (match idx {
                Some(i) => DeviceView {
                    listeners: old(self)@.listeners.remove(i as int),
                    ..old(self)@
                },
                None => old(self)@,
            }),
            final(self).wf(),
    {
        if let Some(i) = idx {
            self.listeners.remove(i);
            proof {
                let d = self@;
                assert(d.listeners =~= old(self)@.listeners.remove(i as int));
                assert forall|c: int| 0 <= c < d.channels.len() implies channel_wf(
                    #[trigger] d.channels[c],
                    d.capture_samples,
                ) by {
                    assert(channel_wf(old(self)@.channels[c], old(self)@.capture_samples));
                }
                assert forall|l: int| 0 <= l < d.listeners.len() implies (
                #[trigger] d.listeners[l]).wf(d.channels) by {
                    let k = if l < i {
                        l
                    } else {
                        l + 1
                    };
                    assert(old(self)@.listeners[k].wf(old(self)@.channels));
                }
            }
        }
    }

    /// Adds a listener, which then comes last. It has still to be polled for
    /// the samples that are there.
    pub fn add_listener(&mut self, l: Listener)
        requires
            old(self).wf(),
            l@.wf(old(self)@.channels),
        ensures
            final(self)@ == old(self)@.listened(l@),
            final(self).wf(),
    {
        self.listeners.push(l);
        proof {
            let d = self@;
            assert(d.listeners =~= old(self)@.listeners.push(l@));
            assert forall|c: int| 0 <= c < d.channels.len() implies channel_wf(
                #[trigger] d.channels[c],
                d.capture_samples,
            ) by {
                assert(channel_wf(old(self)@.channels[c], old(self)@.capture_samples));
            }
            assert forall|k: int| 0 <= k < d.listeners.len() implies (#[trigger] d.listeners[k]).wf(
                d.channels,
            ) by {
                if k < old(self)@.listeners.len() {
                    assert(old(self)@.listeners[k].wf(old(self)@.channels));
                }
            }
        }
    }

    /// The wave whose phase zero `poll_listener` has to be told.
    pub fn zero_request(&self, i: usize) -> (r: Option<PhaseZero>)
        requires
            self.wf(),
            i < self@.listeners.len(),
        ensures
            r == self@.zero_wanted(i as int),
    {
        let l = &self.listeners[i];
        assert(self@.listeners[i as int] == l@);
        assert(self@.listeners[i as int].wf(self@.channels));
        if let TriggerType::OutSource = l.trigger_type {
            if !l.triggered {
                let c = l.trigger_channel;
                assert(channel_wf(self@.channels[c as int], self@.capture_samples));
                assert(self@.channels[c as int] == self.channels@[c as int]@);
                if let Some(s) = &self.channels[c].source {
                    let z = s.phase_zero_after(l.index);
                    if let PhaseZero::Wave { .. } = z {
                        return Some(z);
                    }
                }
            }
        }
        None
    }

    /// Has the listener at `i` look at the samples once. `wave` is the phase
    /// zero that `zero_request` asks for, if there is one; `closed` says that
    /// nobody reads the response that the listener writes into. A listener that
    /// is over is dropped.
    pub fn poll_listener(&mut self, i: usize, wave: Option<Zero>, closed: bool) -> (r: Poll)
        requires
            old(self).wf(),
            i < old(self)@.listeners.len(),
        ensures
            final(self)@ == old(self)@.polled(i as int, wave, closed),
            final(self).wf(),
            ({
                let (_, update, next) = look_of(
                    old(self)@.listeners[i as int],
                    old(self)@,
                    wave,
                    closed,
                );
                &&& r.next == next
                &&& match r.update {
                    Some(u) => update == Some(u@),
                    None => update is None,
                }
            }),
    {
        let ghost before = self@;
        assert(before.listeners[i as int] == self.listeners@[i as int]@);
        assert(before.listeners[i as int].wf(before.channels));
        let look = self.listeners[i].look(self, wave, closed);
        if let Next::Remove = look.next {
            self.cancel_listen(Some(i));
        } else {
            self.listeners[i].go(look.cursor);
            proof {
                let d = self@;
                assert(d.listeners =~= before.polled(i as int, wave, closed).listeners);
                assert forall|c: int| 0 <= c < d.channels.len() implies channel_wf(
                    #[trigger] d.channels[c],
                    d.capture_samples,
                ) by {
                    assert(channel_wf(before.channels[c], before.capture_samples));
                }
                assert forall|k: int| 0 <= k < d.listeners.len() implies (
                #[trigger] d.listeners[k]).wf(d.channels) by {
                    assert(before.listeners[k].wf(before.channels));
                }
            }
        }
        Poll { update: look.update, next: look.next }
    }

    /// Says which listener is to look at the samples after that at `i`, whose look
    /// gave `next`. `taken` says whether somebody took what it had to deliver. The
    /// same place comes again where the listener may have more to deliver, and
    /// where it was dropped.
    pub fn after_poll(&mut self, i: usize, next: Next, taken: bool) -> (r: usize)
        requires
            old(self).wf(),
            next != Next::Remove ==> i < old(self)@.listeners.len(),
        ensures
            final(self)@ == old(self)@.handed_out(i as int, next, taken),
            final(self).wf(),
            r == (if next == Next::Keep && taken {
                i + 1
            } else {
                i as int
            }),
    {
        if let Next::Keep = next {
            assert(i < self.listeners.len());
            if taken {
                return i + 1;
            }
            self.cancel_listen(Some(i));
        }
        i
    }
}

} // verus!
