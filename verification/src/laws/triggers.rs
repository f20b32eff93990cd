//! What holds of listeners: when a sweep starts and where, what an update holds, and
//! what is asked for when one is made.

use crate::float::{Double, Single};
use crate::listener::{
    around, high, law_rise_is_first, lemma_ready, look_of, rise, ListenerView, Next, TriggerType,
    Zero,
};
use crate::source::{zero_after, PhaseZero};
use crate::streaming::{has_stream, law_window_holds_its_samples, DeviceView};
use vstd::arithmetic::div_mod::{
    lemma_fundamental_div_mod, lemma_fundamental_div_mod_converse, lemma_mod_bound, lemma_small_mod,
};
use vstd::prelude::*;

verus! {

// ---- where a sweep starts ----

/// Whether a listener waits for the source of a channel that has one.
pub open spec fn waits_for_source(l: ListenerView, d: DeviceView) -> bool {
    &&& l.trigger_type == TriggerType::OutSource
    &&& !l.triggered
    &&& l.out_index == 0
    &&& l.decimate_factor >= 1
    &&& l.trigger_channel < d.channels.len()
    &&& d.channels[l.trigger_channel as int].source is Some
}

/// Whether a number of a sample is this one, or differs from it by whole rounds of 64
/// bits where it is none of these.
pub open spec fn is_around(index: u64, x: int) -> bool {
    &&& 0 <= x <= u64::MAX ==> index == x
    &&& (index - x) % 0x1_0000_0000_0000_0000 == 0
}

proof fn lemma_is_around(x: int)
    ensures
        is_around(around(x), x),
{
    let m = 0x1_0000_0000_0000_0000int;
    lemma_fundamental_div_mod(x, m);
    lemma_mod_bound(x, m);
    let q = x / m;
    assert(x % m - x == (-q) * m + 0);
    lemma_fundamental_div_mod_converse(x % m - x, m, -q, 0);
    if 0 <= x <= u64::MAX {
        lemma_small_mod(x as nat, 0x1_0000_0000_0000_0000nat);
    }
}

/// A phase zero that has gone out triggers a listener that waits for the source: the
/// sweep starts at the phase zero moved by the offset of the client, and the first
/// update says so. `at` is the phase zero and `error` how far from a whole sample it is.
pub proof fn law_phase_zero_starts_sweep(
    l: ListenerView,
    d: DeviceView,
    wave: Option<Zero>,
    at: u64,
    error: Double,
)
    requires
        waits_for_source(l, d),
        match zero_after(d.channels[l.trigger_channel as int].source->Some_0.kind, l.index) {
            PhaseZero::At(z) => z == at && error.bits == 0,
            PhaseZero::Wave { .. } => wave == Some(Zero { at, error }),
        },
        at <= d.capture_o,
    ensures
        ({
            let c = l.searched(d, wave);
            &&& c.triggered
            &&& is_around(c.index, at + l.trigger_offset)
            &&& c.trigger_subsample_error == error
            &&& c.out_index == 0
            &&& c.trigger_force_index == l.trigger_force_index
        }),
        ({
            let (cursor, update, _) = look_of(l, d, wave, false);
            let start = at + l.trigger_offset;
            &&& 0 <= start && start + l.decimate_factor < d.capture_i ==> update is Some
            &&& update matches Some(u) ==> {
                &&& is_around(u.sample_index, start)
                &&& u.idx == 0
                &&& u.triggered
                &&& u.subsample == error
                &&& u.id == l.id
                &&& u.sink == l.sink
            }
            &&& update is None ==> is_around(cursor.index, start) && cursor.triggered
        }),
{
    lemma_is_around(at + l.trigger_offset);
    let m = l.looking(d, wave);
    lemma_some_are_ready(m, d);
}

/// A listener with enough samples before it finds some.
proof fn lemma_some_are_ready(l: ListenerView, d: DeviceView)
    requires
        l.decimate_factor >= 1,
    ensures
        l.index + l.decimate_factor < d.capture_i && (l.count <= 0 || l.out_index < l.count)
            ==> l.ready(d) > 0,
{
    let df = l.decimate_factor as int;
    if l.index + df < d.capture_i {
        let have = d.capture_i - l.index;
        assert(have / df >= 1) by (nonlinear_arith)
            requires
                have > df,
                df >= 1,
        ;
    }
}

/// As long as the phase zero has not gone out and the time that the client set has not
/// passed, nothing is sent, and the listener waits where it is.
pub proof fn law_source_is_waited_for(l: ListenerView, d: DeviceView, wave: Option<Zero>)
    requires
        waits_for_source(l, d),
        match zero_after(d.channels[l.trigger_channel as int].source->Some_0.kind, l.index) {
            PhaseZero::At(z) => d.capture_o < z <= u64::MAX,
            PhaseZero::Wave { .. } => wave is Some && d.capture_o < wave->Some_0.at,
        },
        l.trigger_force == 0 || d.capture_i < l.trigger_force_index,
    ensures
        ({
            let (cursor, update, next) = look_of(l, d, wave, false);
            &&& update is None
            &&& next == Next::Keep
            &&& !cursor.triggered
            &&& cursor.index == l.index
            &&& cursor.out_index == l.out_index
            &&& cursor.trigger_force_index == l.trigger_force_index
        }),
{
}

/// A sweep whose phase zero has not gone out when the time that the client set passes
/// starts at that time.
pub proof fn law_time_starts_sweep(l: ListenerView, d: DeviceView, wave: Option<Zero>)
    requires
        waits_for_source(l, d),
        match zero_after(d.channels[l.trigger_channel as int].source->Some_0.kind, l.index) {
            PhaseZero::At(z) => d.capture_o < z <= u64::MAX,
            PhaseZero::Wave { .. } => wave is Some && d.capture_o < wave->Some_0.at,
        },
        l.trigger_force != 0,
        d.capture_i >= l.trigger_force_index,
    ensures
        ({
            let (cursor, update, _) = look_of(l, d, wave, false);
            &&& update matches Some(u) ==> u.sample_index == l.trigger_force_index && u.idx == 0
                && u.triggered && u.subsample.bits == 0
            &&& update is None ==> cursor.index == l.trigger_force_index && cursor.triggered
        }),
{
}

/// Whether sample `i` of the stream that a listener waits for is above its level while
/// the sample before is not.
pub open spec fn rises(l: ListenerView, d: DeviceView, i: int) -> bool {
    let (c, s) = (l.trigger_stream.0 as int, l.trigger_stream.1 as int);
    d.sample(c, s, i).above(l.trigger_level) && !d.sample(c, s, i - 1).above(l.trigger_level)
}

/// A listener that waits for a stream starts its sweep at the first rise above the
/// level after the sample that it is at, moved by the offset of the client.
pub proof fn law_rise_starts_sweep(l: ListenerView, d: DeviceView, wave: Option<Zero>, at: int)
    requires
        l.trigger_type == TriggerType::InStream,
        !l.triggered,
        l.out_index == 0,
        l.decimate_factor >= 1,
        l.index < at < d.capture_i,
        rises(l, d, at),
        forall|i: int| l.index < i < at ==> !#[trigger] rises(l, d, i),
    ensures
        ({
            let c = l.searched(d, wave);
            &&& c.triggered
            &&& is_around(c.index, at + l.trigger_offset)
            &&& c.trigger_subsample_error.bits == 0
        }),
        ({
            let (cursor, update, _) = look_of(l, d, wave, false);
            let start = at + l.trigger_offset;
            &&& 0 <= start && start + l.decimate_factor < d.capture_i ==> update is Some
            &&& update matches Some(u) ==> {
                &&& is_around(u.sample_index, start)
                &&& u.idx == 0
                &&& u.triggered
                &&& u.subsample.bits == 0
            }
            &&& update is None ==> is_around(cursor.index, start) && cursor.triggered
        }),
{
    lemma_is_around(at + l.trigger_offset);
    let k = rise(d, l.trigger_stream, l.trigger_level, l.index + 1);
    law_rise_is_first(d, l.trigger_stream, l.trigger_level, l.index + 1);
    if k < at {
        assert(rises(l, d, k));
    }
    if k > at {
        assert(high(d, l.trigger_stream, l.trigger_level, at));
    }
    let m = l.looking(d, wave);
    lemma_some_are_ready(m, d);
}

/// Where no sample has risen, the search has come to the samples that have not come
/// yet, so that none is looked at twice; and the sweep starts there only if the time
/// that the client set has passed.
pub proof fn law_search_goes_on(l: ListenerView, d: DeviceView, wave: Option<Zero>)
    requires
        l.trigger_type == TriggerType::InStream,
        !l.triggered,
        l.index < d.capture_i,
        forall|i: int| l.index < i < d.capture_i ==> !#[trigger] rises(l, d, i),
    ensures
        ({
            let (cursor, update, next) = look_of(l, d, wave, false);
            &&& update is None
            &&& next == Next::Keep
            &&& cursor.index == d.capture_i
            &&& cursor.triggered <==> l.trigger_force != 0 && d.capture_i > l.trigger_force_index
        }),
{
    let k = rise(d, l.trigger_stream, l.trigger_level, l.index + 1);
    law_rise_is_first(d, l.trigger_stream, l.trigger_level, l.index + 1);
    if k < d.capture_i {
        assert(rises(l, d, k));
    }
    lemma_no_further(d, l.trigger_stream, l.trigger_level, l.index + 1);
}

proof fn lemma_no_further(d: DeviceView, stream: (usize, usize), level: Single, i: int)
    requires
        i <= d.capture_i,
    ensures
        rise(d, stream, level, i) <= d.capture_i,
    decreases d.capture_i - i,
{
    if i < d.capture_i {
        lemma_no_further(d, stream, level, i + 1);
    }
}

// ---- what an update holds ----

/// As many output samples are made as there are whole windows of input samples that
/// have come, but no more than are still to be delivered.
pub proof fn law_all_that_came_is_delivered(l: ListenerView, d: DeviceView, wave: Option<Zero>)
    requires
        l.decimate_factor >= 1,
        !l.armed(),
        l.index + l.decimate_factor < d.capture_i,
        l.count > 0 ==> l.out_index < l.count,
    ensures
        ({
            let (_, update, _) = look_of(l, d, wave, false);
            let df = l.decimate_factor;
            &&& update matches Some(u)
            &&& u.idx == l.out_index
            &&& u.sample_index == l.index
            &&& l.index + u.chunks * df <= d.capture_i
            &&& l.count > 0 ==> u.idx + u.chunks <= l.count
            &&& d.capture_i < l.index + (u.chunks + 1) * df || (l.count > 0 && u.idx + u.chunks
                == l.count)
        }),
{
    lemma_ready(l, d);
    lemma_some_are_ready(l, d);
    let df = l.decimate_factor as int;
    let have = d.capture_i - l.index;
    let n = have / df;
    lemma_fundamental_div_mod(have, df);
    lemma_mod_bound(have, df);
    assert(have < (n + 1) * df && n <= have) by (nonlinear_arith)
        requires
            have == df * n + have % df,
            0 <= have % df < df,
            df >= 1,
            have > 0,
    ;
}

/// Nothing is sent before a window of input samples and one sample more have come.
pub proof fn law_windows_are_waited_for(l: ListenerView, d: DeviceView, wave: Option<Zero>)
    requires
        !l.armed(),
        l.index + l.decimate_factor >= d.capture_i,
    ensures
        look_of(l, d, wave, false).0 == l.cursor(),
        look_of(l, d, wave, false).1 is None,
        look_of(l, d, wave, false).2 == Next::Keep,
{
}

/// Every output sample stands for the input samples of its stream that it is made of:
/// `decimate_factor` of them, one output sample after the other.
pub proof fn law_update_holds_the_samples(
    l: ListenerView,
    d: DeviceView,
    wave: Option<Zero>,
    s: int,
    k: int,
    j: int,
)
    requires
        l.wf(d.channels),
        d.wf(),
        look_of(l, d, wave, false).1 is Some,
        0 <= s < l.streams.len(),
        0 <= k < look_of(l, d, wave, false).1->Some_0.chunks,
        0 <= j < l.decimate_factor,
    ensures
        ({
            let u = look_of(l, d, wave, false).1->Some_0;
            let (c, t) = (l.streams[s].0 as int, l.streams[s].1 as int);
            &&& u.windows.len() == l.streams.len()
            &&& u.windows[s].len() == u.chunks
            &&& u.windows[s][k] matches Some(w) ==> w.len() == l.decimate_factor && w[j]
                == d.sample(c, t, u.sample_index + k * l.decimate_factor + j)
        }),
{
    let m = l.looking(d, wave);
    let n = l.found(d, wave);
    lemma_ready(m, d);
    let df = l.decimate_factor as int;
    assert(k * df >= 0) by (nonlinear_arith)
        requires
            k >= 0,
            df >= 1,
    ;
    let (c, t) = (l.streams[s].0 as int, l.streams[s].1 as int);
    assert(has_stream(d.channels, c, t));
    law_window_holds_its_samples(d, c, t, m.index + k * df, df);
}

/// An update that goes on with a sweep is not marked as its start, and one that starts
/// a sweep that nothing triggered is marked as such if it is past the time that the
/// client set.
pub proof fn law_starts_are_marked(l: ListenerView, d: DeviceView, wave: Option<Zero>)
    requires
        look_of(l, d, wave, false).1 is Some,
    ensures
        ({
            let u = look_of(l, d, wave, false).1->Some_0;
            &&& l.out_index > 0 && l.triggered ==> !u.triggered && !u.forced
            &&& u.forced <==> u.idx == 0 && l.trigger_force != 0 && u.sample_index
                > l.trigger_force_index
            &&& l.trigger_type == TriggerType::Off && !l.triggered ==> !u.triggered
        }),
{
}

/// A listener that sweeps again is armed at the end of the sweep and the wait after
/// it, and the time for the next sweep is counted from there.
pub proof fn law_next_sweep_is_armed(l: ListenerView, d: DeviceView, wave: Option<Zero>)
    requires
        l.wf(d.channels),
        look_of(l, d, wave, false).2 == Next::Again,
    ensures
        ({
            let (cursor, update, _) = look_of(l, d, wave, false);
            &&& update matches Some(u)
            &&& l.trigger_repeat
            &&& l.count > 0
            &&& u.idx + u.chunks >= l.count
            &&& !u.done
            &&& !cursor.triggered
            &&& cursor.out_index == 0
            &&& is_around(
                cursor.index,
                u.sample_index + u.chunks * l.decimate_factor + l.trigger_holdoff,
            )
            &&& cursor.index + l.trigger_force <= u64::MAX ==> cursor.trigger_force_index
                == cursor.index + l.trigger_force
            &&& cursor.index + l.trigger_force > u64::MAX ==> cursor.trigger_force_index == u64::MAX
        }),
{
    let m = l.looking(d, wave);
    let n = l.found(d, wave);
    lemma_ready(m, d);
    lemma_is_around(m.index + n * m.decimate_factor + m.trigger_holdoff);
}

/// A client whose listener has all that it asked for, and does not sweep again, is told
/// that nothing more will come, and the listener is over.
pub proof fn law_end_is_told(l: ListenerView, d: DeviceView, wave: Option<Zero>)
    requires
        l.decimate_factor >= 1,
        look_of(l, d, wave, false).1 is Some,
    ensures
        ({
            let (_, update, next) = look_of(l, d, wave, false);
            let u = update->Some_0;
            let all = l.count > 0 && u.idx + u.chunks >= l.count;
            &&& u.done <==> all && !l.trigger_repeat
            &&& next == Next::Again <==> all && l.trigger_repeat && l.sink is Ws
            &&& next == Next::Keep <==> !all
        }),
{
    lemma_ready(l.looking(d, wave), d);
}

/// A listener whose response nobody reads any more is over at once; whether a response
/// is read makes no difference to one that sends to a client.
pub proof fn law_closed_response_ends_listener(l: ListenerView, d: DeviceView, wave: Option<Zero>)
    ensures
        l.sink is Rest ==> look_of(l, d, wave, true).1 is None && look_of(l, d, wave, true).2
            == Next::Remove,
        l.sink is Ws ==> look_of(l, d, wave, true) == look_of(l, d, wave, false),
{
}

} // verus!
