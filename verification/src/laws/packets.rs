//! What holds of the packets: what the hardware sent is what is stored, and what is
//! to be put out is what the hardware gets.

use crate::jsonutil::JsonTree;
use crate::effect::EffectView;
use crate::streaming::{channel_wf, BackendView, DeviceView, COUNT_LIMIT};
use crate::usb::cee::{packed, unpacked, CeeCal};
use crate::usb::transfer::{
    cee_lost, cee_out_byte, cee_samples, m1k_samples, packets_in, two_by_two, CeeSample, M1kSample,
    Values,
};
use vstd::prelude::*;

verus! {

// ---- taking input apart ----

/// As many packets are looked at as there are whole ones, but no more than a transfer
/// has.
pub proof fn law_whole_packets_count(len: nat, size: int, most: usize)
    requires
        size > 0,
    ensures
        ({
            let n = packets_in(len, size, most);
            &&& 0 <= n <= most
            &&& n * size <= len
            &&& n == most || (n + 1) * size > len
        }),
{
    let whole = len as int / size;
    vstd::arithmetic::div_mod::lemma_fundamental_div_mod(len as int, size);
    vstd::arithmetic::div_mod::lemma_mod_bound(len as int, size);
    vstd::arithmetic::div_mod::lemma_div_pos_is_pos(len as int, size);
    assert(whole * size <= len && (whole + 1) * size > len) by (nonlinear_arith)
        requires
            len == size * whole + len as int % size,
            0 <= len as int % size < size,
    ;
    if !(whole < most) {
        assert(most * size <= whole * size) by (nonlinear_arith)
            requires
                most <= whole,
                size > 0,
        ;
    }
}

/// Whether the two bytes from `at` on are `x`, high byte first.
pub open spec fn high_first(b: Seq<u8>, at: int, x: u16) -> bool {
    b[at] as int == x as int / 256 && b[at + 1] as int == x as int % 256
}

/// Whether the readings of an M1K stand in `b` as it sends them: packets of 2048 bytes
/// with 256 samples each, all readings of a sample side by side, or all readings of
/// one kind.
pub open spec fn m1k_sent(interleaved: bool, b: Seq<u8>, readings: Seq<M1kSample>) -> bool {
    forall|k: int|
        0 <= k < readings.len() ==> {
            let r = #[trigger] readings[k];
            let packet = 2048 * (k / 256);
            let i = k % 256;
            if interleaved {
                &&& high_first(b, packet + 8 * i, r.av)
                &&& high_first(b, packet + 8 * i + 2, r.ai)
                &&& high_first(b, packet + 8 * i + 4, r.bv)
                &&& high_first(b, packet + 8 * i + 6, r.bi)
            } else {
                &&& high_first(b, packet + 2 * i, r.av)
                &&& high_first(b, packet + 512 + 2 * i, r.ai)
                &&& high_first(b, packet + 1024 + 2 * i, r.bv)
                &&& high_first(b, packet + 1536 + 2 * i, r.bi)
            }
        }
}

/// Taking a transfer of an M1K apart gives the readings that it sent, packet after
/// packet.
pub proof fn law_m1k_input_reads_back(
    interleaved: bool,
    b: Seq<u8>,
    n: int,
    readings: Seq<M1kSample>,
)
    requires
        n >= 0,
        readings.len() == 256 * n,
        m1k_sent(interleaved, b, readings),
    ensures
        m1k_samples(interleaved, b, n) == readings,
{
    let s = m1k_samples(interleaved, b, n);
    assert forall|k: int| 0 <= k < s.len() implies s[k] == readings[k] by {
        let r = readings[k];
        assert(s[k].av == r.av);
        assert(s[k].ai == r.ai);
        assert(s[k].bv == r.bv);
        assert(s[k].bi == r.bi);
    }
    assert(s =~= readings);
}

/// A sample of an M1K depends on the packet that it belongs to and on nothing else.
pub proof fn law_m1k_packets_are_apart(
    interleaved: bool,
    b: Seq<u8>,
    other: Seq<u8>,
    n: int,
    k: int,
)
    requires
        0 <= k < 256 * n,
        b.len() >= 2048 * n,
        other.len() >= 2048 * n,
        forall|j: int|
            2048 * (k / 256) <= j < 2048 * (k / 256) + 2048 ==> #[trigger] b[j] == other[j],
    ensures
        m1k_samples(interleaved, b, n)[k] == m1k_samples(interleaved, other, n)[k],
{
    let p = 2048 * (k / 256);
    let i = k % 256;
    if interleaved {
        assert(b[p + 8 * i] == other[p + 8 * i] && b[p + 8 * i + 1] == other[p + 8 * i + 1]);
        assert(b[p + 8 * i + 2] == other[p + 8 * i + 2] && b[p + 8 * i + 3] == other[p + 8 * i + 3]);
        assert(b[p + 8 * i + 4] == other[p + 8 * i + 4] && b[p + 8 * i + 5] == other[p + 8 * i + 5]);
        assert(b[p + 8 * i + 6] == other[p + 8 * i + 6] && b[p + 8 * i + 7] == other[p + 8 * i + 7]);
    } else {
        assert(b[p + 2 * i] == other[p + 2 * i] && b[p + 2 * i + 1] == other[p + 2 * i + 1]);
        assert(b[p + 2 * i + 512] == other[p + 2 * i + 512]);
        assert(b[p + 2 * i + 513] == other[p + 2 * i + 513]);
        assert(b[p + 2 * i + 1024] == other[p + 2 * i + 1024]);
        assert(b[p + 2 * i + 1025] == other[p + 2 * i + 1025]);
        assert(b[p + 2 * i + 1536] == other[p + 2 * i + 1536]);
        assert(b[p + 2 * i + 1537] == other[p + 2 * i + 1537]);
    }
}

/// The two halves of a pair of readings of 12 bits in three bytes: low byte of the
/// voltage, low byte of the current, and the high bits of both.
pub open spec fn pair_sent(b: Seq<u8>, at: int, v: int, i: int) -> bool {
    &&& b[at] as int == v % 256
    &&& b[at + 1] as int == i % 256
    &&& b[at + 2] as int == (i % 4096) / 256 * 16 + (v % 4096) / 256
}

/// Whether the readings of a CEE stand in `b` as it sends them: packets of 64 bytes,
/// which tell the modes of the channels in the first two and hold ten samples of six
/// bytes from the fifth on. A reading is a number of 12 bits with sign.
pub open spec fn cee_sent(b: Seq<u8>, readings: Seq<CeeSample>) -> bool {
    forall|k: int|
        0 <= k < readings.len() ==> {
            let r = #[trigger] readings[k];
            let packet = 64 * (k / 10);
            let at = packet + 4 + 6 * (k % 10);
            &&& -2048 <= r.av < 2048
            &&& -2048 <= r.ai < 2048
            &&& -2048 <= r.bv < 2048
            &&& -2048 <= r.bi < 2048
            &&& pair_sent(b, at, r.av as int, r.ai as int)
            &&& pair_sent(b, at + 3, r.bv as int, r.bi as int)
            &&& r.a_on == (b[packet] % 4 != 0)
            &&& r.b_on == (b[packet + 1] % 4 != 0)
        }
}

/// Taking a transfer of a CEE apart gives the readings that it sent, packet after
/// packet, each with the offset of its kind.
pub proof fn law_cee_input_reads_back(cal: CeeCal, b: Seq<u8>, n: int, readings: Seq<CeeSample>)
    requires
        n >= 0,
        readings.len() == 10 * n,
        b.len() >= 64 * n,
        cee_sent(b, readings),
    ensures
        cee_samples(cal, b, n).len() == readings.len(),
        forall|k: int|
            0 <= k < readings.len() ==> {
                let s = #[trigger] cee_samples(cal, b, n)[k];
                &&& s.av == readings[k].av + cal.offset_a_v
                &&& s.ai == readings[k].ai + cal.offset_a_i
                &&& s.bv == readings[k].bv + cal.offset_b_v
                &&& s.bi == readings[k].bi + cal.offset_b_i
                &&& s.a_on == readings[k].a_on
                &&& s.b_on == readings[k].b_on
            },
{
    assert forall|k: int| 0 <= k < readings.len() implies {
        let s = #[trigger] cee_samples(cal, b, n)[k];
        &&& s.av == readings[k].av + cal.offset_a_v
        &&& s.ai == readings[k].ai + cal.offset_a_i
        &&& s.bv == readings[k].bv + cal.offset_b_v
        &&& s.bi == readings[k].bi + cal.offset_b_i
        &&& s.a_on == readings[k].a_on
        &&& s.b_on == readings[k].b_on
    } by {
        let r = readings[k];
        let at = 64 * (k / 10) + 4 + 6 * (k % 10);
        let d = b.subrange(at, at + 6);
        lemma_twelve_bits(r.av as int, r.ai as int, b[at + 2]);
        lemma_twelve_bits(r.bv as int, r.bi as int, b[at + 5]);
        assert(d[0] == b[at] && d[1] == b[at + 1] && d[2] == b[at + 2]);
        assert(d[3] == b[at + 3] && d[4] == b[at + 4] && d[5] == b[at + 5]);
        assert(unpacked(d) == (r.av as i16, r.ai as i16, r.bv as i16, r.bi as i16));
    }
}

proof fn lemma_twelve_bits(v: int, i: int, high: u8)
    requires
        -2048 <= v < 2048,
        -2048 <= i < 2048,
        high as int == (i % 4096) / 256 * 16 + (v % 4096) / 256,
    ensures
        (high % 16) * 256 + v % 256 == v % 4096,
        (high / 16) * 256 + i % 256 == i % 4096,
        v % 4096 == if v < 0 {
            v + 4096
        } else {
            v
        },
        i % 4096 == if i < 0 {
            i + 4096
        } else {
            i
        },
{
}

/// Packets were lost if and only if a packet says so that is not the very first.
pub proof fn law_lost_packets_are_noticed(b: Seq<u8>, n: int, first: bool)
    ensures
        cee_lost(b, n, first) <==> exists|p: int|
            0 <= p < n && (#[trigger] b[64 * p + 2]) % 2 == 1 && !(p == 0 && first),
{
    if cee_lost(b, n, first) {
        let p = choose|p: int|
            0 <= p < n && #[trigger] crate::usb::transfer::lost_before(b, p) && (p > 0 || !first);
        assert(b[64 * p + 2] % 2 == 1);
    }
    if exists|p: int| 0 <= p < n && (#[trigger] b[64 * p + 2]) % 2 == 1 && !(p == 0 && first) {
        let p = choose|p: int|
            0 <= p < n && (#[trigger] b[64 * p + 2]) % 2 == 1 && !(p == 0 && first);
        assert(crate::usb::transfer::lost_before(b, p));
    }
}

// ---- putting output together ----

/// The sample `k` of a CEE output transfer stands in three bytes of its own, from
/// which both of its codes of 12 bits can be read; the first two bytes of each packet
/// are the modes.
pub proof fn law_cee_output_reads_back(mode_a: u8, mode_b: u8, codes: Seq<(u16, u16)>, k: int)
    requires
        0 <= k < codes.len(),
        codes[k].0 < 4096,
        codes[k].1 < 4096,
    ensures
        ({
            let packet = 32 * (k / 10);
            let at = packet + 2 + 3 * (k % 10);
            let low_a = cee_out_byte(mode_a, mode_b, codes, at);
            let low_b = cee_out_byte(mode_a, mode_b, codes, at + 1);
            let high = cee_out_byte(mode_a, mode_b, codes, at + 2);
            &&& low_a + 256 * (high % 16) == codes[k].0
            &&& low_b + 256 * (high / 16) == codes[k].1
            &&& cee_out_byte(mode_a, mode_b, codes, packet) == mode_a
            &&& cee_out_byte(mode_a, mode_b, codes, packet + 1) == mode_b
        }),
{
    let p = k / 10;
    let i = k % 10;
    let at = 32 * p + 2 + 3 * i;
    assert(at / 32 == p && at % 32 == 2 + 3 * i);
    assert((at + 1) / 32 == p && (at + 1) % 32 == 3 + 3 * i);
    assert((at + 2) / 32 == p && (at + 2) % 32 == 4 + 3 * i);
    assert((3 * i) / 3 == i && (3 * i + 1) / 3 == i && (3 * i + 2) / 3 == i);
    assert((3 * i) % 3 == 0 && (3 * i + 1) % 3 == 1 && (3 * i + 2) % 3 == 2);
    let (a, b) = codes[k];
    assert(codes[10 * p + i] == (a, b));
    let high = packed(a, b)[2];
    assert(high == ((((b >> 4) & 0xf0) | (a >> 8)) as u8));
    assert((((b >> 4) & 0xf0) | (a >> 8)) as u8 == (b / 256) * 16 + a / 256) by (bit_vector)
        requires
            a < 4096,
            b < 4096,
    ;
    assert((32 * p) / 32 == p && (32 * p) % 32 == 0);
    assert((32 * p + 1) / 32 == p && (32 * p + 1) % 32 == 1);
}

/// What is put out can be taken for input: the bytes of a sample of an output transfer
/// of a CEE and those of the next, unpacked as an input sample, are the codes of both.
pub proof fn law_cee_output_unpacks(mode_a: u8, mode_b: u8, codes: Seq<(u16, u16)>, k: int)
    requires
        0 <= k,
        k + 1 < codes.len(),
        k % 10 < 9,
        codes[k].0 < 2048,
        codes[k].1 < 2048,
        codes[k + 1].0 < 2048,
        codes[k + 1].1 < 2048,
    ensures
        ({
            let at = 32 * (k / 10) + 2 + 3 * (k % 10);
            let six = Seq::new(6, |j: int| cee_out_byte(mode_a, mode_b, codes, at + j));
            unpacked(six) == (
                codes[k].0 as i16,
                codes[k].1 as i16,
                codes[k + 1].0 as i16,
                codes[k + 1].1 as i16,
            )
        }),
{
    law_cee_output_reads_back(mode_a, mode_b, codes, k);
    law_cee_output_reads_back(mode_a, mode_b, codes, k + 1);
    assert((k + 1) / 10 == k / 10 && (k + 1) % 10 == k % 10 + 1);
    let at = 32 * (k / 10) + 2 + 3 * (k % 10);
    let six = Seq::new(6, |j: int| cee_out_byte(mode_a, mode_b, codes, at + j));
    assert(six[0] == cee_out_byte(mode_a, mode_b, codes, at + 0));
    assert(six[1] == cee_out_byte(mode_a, mode_b, codes, at + 1));
    assert(six[2] == cee_out_byte(mode_a, mode_b, codes, at + 2));
    assert(six[3] == cee_out_byte(mode_a, mode_b, codes, at + 3));
    assert(six[4] == cee_out_byte(mode_a, mode_b, codes, at + 4));
    assert(six[5] == cee_out_byte(mode_a, mode_b, codes, at + 5));
}

/// An output transfer has room for its samples and nothing else: 32 bytes for ten
/// samples of a CEE, 1024 for 256 of an M1K. There is none where they cannot be
/// counted, and none for a device without hardware.
pub proof fn law_output_transfers_are_full(d: DeviceView)
    ensures
        match d.backend {
            BackendView::Cee(b) => match d.out_shape() {
                Some(s) => s.packets == b.packets_per_transfer && s.samples == 10 * s.packets
                    && s.bytes == 32 * s.packets,
                None => 32 * b.packets_per_transfer > usize::MAX,
            },
            BackendView::M1k(b) => match d.out_shape() {
                Some(s) => s.packets == b.packets_per_transfer && s.samples == 256 * s.packets
                    && s.bytes == 1024 * s.packets,
                None => 1024 * b.packets_per_transfer > usize::MAX,
            },
            BackendView::Test(_) => d.out_shape() is None,
        },
{
}

// ---- storing input ----

/// Of the samples of an input transfer, each value goes to the stream that it belongs
/// to, and is read back under the number of its sample.
pub proof fn law_absorbed_values_read_back(d: DeviceView, v: Seq<Values>, lost: bool, k: int)
    requires
        d.wf(),
        two_by_two(d.channels),
        d.capture_samples > 0,
        d.capture_i + v.len() <= COUNT_LIMIT,
        d.capture_continuous || d.capture_i + v.len() <= d.capture_samples,
        0 <= k < v.len(),
        d.capture_i + v.len() <= d.capture_samples || v.len() - k < d.capture_samples,
    ensures
        ({
            let e = d.absorbed(v, lost);
            let i = d.capture_i + k;
            &&& e.capture_i == d.capture_i + v.len()
            &&& e.sample(0, 0, i) == v[k].av
            &&& e.sample(0, 1, i) == v[k].ai
            &&& e.sample(1, 0, i) == v[k].bv
            &&& e.sample(1, 1, i) == v[k].bi
        }),
{
    lemma_all_read_back(d, v, k);
}

/// What holds of a device while samples are stored.
proof fn lemma_all_read_back(d: DeviceView, v: Seq<Values>, k: int)
    requires
        d.wf(),
        two_by_two(d.channels),
        d.capture_samples > 0,
        d.capture_i + v.len() <= COUNT_LIMIT,
        d.capture_continuous || d.capture_i + v.len() <= d.capture_samples,
        0 <= k < v.len() ==> d.capture_i + v.len() <= d.capture_samples || v.len() - k
            < d.capture_samples,
    ensures
        ({
            let e = d.with_all(v);
            let i = d.capture_i + k;
            &&& e.capture_i == d.capture_i + v.len()
            &&& e.capture_samples == d.capture_samples
            &&& e.capture_continuous == d.capture_continuous
            &&& two_by_two(e.channels)
            &&& filled_as(e)
            &&& 0 <= k < v.len() ==> {
                &&& e.sample(0, 0, i) == v[k].av
                &&& e.sample(0, 1, i) == v[k].ai
                &&& e.sample(1, 0, i) == v[k].bv
                &&& e.sample(1, 1, i) == v[k].bi
            }
        }),
    decreases v.len(),
{
    assert(channel_wf(d.channels[0], d.capture_samples));
    assert(channel_wf(d.channels[1], d.capture_samples));
    if v.len() > 0 {
        let before = v.drop_last();
        lemma_all_read_back(d, before, k);
        let e = d.with_all(before);
        let x = v.last();
        let e1 = e.with_sample(0, 0, x.av);
        let e2 = e1.with_sample(0, 1, x.ai);
        let e3 = e2.with_sample(1, 0, x.bv);
        let e4 = e3.with_sample(1, 1, x.bi);
        let n = e.capture_samples as int;
        let at = e.capture_i as int;
        let f = d.with_all(v);
        assert(f == (DeviceView { capture_i: (e4.capture_i + 1) as u64, ..e4 }));
        if 0 <= k < v.len() - 1 {
            let i = d.capture_i + k;
            assert(before[k] == v[k]);
            lemma_slots(i, at, n);
        }
    }
}

/// Whether the four buffers have the size of the capture.
pub open spec fn filled_as(d: DeviceView) -> bool {
    &&& d.channels[0].streams[0].data.len() == d.capture_samples
    &&& d.channels[0].streams[1].data.len() == d.capture_samples
    &&& d.channels[1].streams[0].data.len() == d.capture_samples
    &&& d.channels[1].streams[1].data.len() == d.capture_samples
}

proof fn lemma_slots(i: int, j: int, n: int)
    requires
        0 <= i < j,
        j - i < n,
    ensures
        i % n != j % n,
{
    if i % n == j % n {
        vstd::arithmetic::div_mod::lemma_fundamental_div_mod(i, n);
        vstd::arithmetic::div_mod::lemma_fundamental_div_mod(j, n);
        let q = j / n - i / n;
        assert(j - i == n * q) by (nonlinear_arith)
            requires
                i == n * (i / n) + i % n,
                j == n * (j / n) + j % n,
                i % n == j % n,
                q == j / n - i / n,
        ;
        assert(q >= 1) by (nonlinear_arith)
            requires
                n * q > 0,
                n > 0,
        ;
        assert(n * q >= n) by (nonlinear_arith)
            requires
                q >= 1,
                n > 0,
        ;
    }
}

/// Every attached client is told when packets were lost, and nobody is told anything
/// when none were.
pub proof fn law_lost_packets_are_told(d: DeviceView, v: Seq<Values>)
    ensures
        d.absorbed(v, false).out == d.out,
        d.absorbed(v, true).out == d.out.push(
            EffectView::Send {
                clients: d.connections,
                message: JsonTree::Object(seq![("_action"@, JsonTree::Str("packetDrop"@))]),
            },
        ),
{
    lemma_quiet(d, v);
}

proof fn lemma_quiet(d: DeviceView, v: Seq<Values>)
    ensures
        d.with_all(v).out == d.out,
        d.with_all(v).connections == d.connections,
    decreases v.len(),
{
    if v.len() > 0 {
        lemma_quiet(d, v.drop_last());
    }
}

// ---- keeping output in step with input ----

/// The hardware settles first: for sixteen looks after the counters went back to zero
/// nothing is learned and nothing is changed.
pub proof fn law_lead_settles_first(d: DeviceView)
    ensures
        d.backend matches BackendView::M1k(b) ==> {
            &&& d.reset().backend matches BackendView::M1k(fresh) && fresh.lead_settle == 16
                && fresh.lead_baseline is None && fresh.lead_count == 0
            &&& b.lead_settle > 0 ==> {
                &&& d.resynced().capture_o == d.capture_o
                &&& d.resynced().backend matches BackendView::M1k(c) && c.lead_settle + 1
                    == b.lead_settle && c.lead_baseline == b.lead_baseline && c.lead_count
                    == b.lead_count && c.lead_min == b.lead_min
            }
        },
{
}

/// Of 64 looks the least lead counts. The first 64 tell what the lead settled at; later
/// ones move the output by as much as the least lead moved, if that is more than half
/// a packet either way, and leave it where it is otherwise.
pub proof fn law_lead_is_kept(d: DeviceView)
    requires
        d.capture_i <= i64::MAX,
        d.capture_o <= i64::MAX,
        d.backend matches BackendView::M1k(b) && b.lead_settle == 0,
    ensures
        ({
            let b = d.backend->M1k_0;
            let e = d.resynced();
            let c = e.backend->M1k_0;
            let lead = d.capture_o - d.capture_i;
            let least = if lead < b.lead_min {
                lead
            } else {
                b.lead_min as int
            };
            &&& e.backend is M1k
            &&& e.capture_i == d.capture_i
            &&& b.lead_count < 63 ==> c.lead_min == least && c.lead_count == b.lead_count + 1
                && c.lead_baseline == b.lead_baseline && e.capture_o == d.capture_o
            &&& b.lead_count == 63 ==> c.lead_count == 0 && c.lead_min == i64::MAX
            &&& b.lead_count == 63 && b.lead_baseline is None ==> c.lead_baseline == Some(
                least as i64,
            ) && e.capture_o == d.capture_o
            &&& b.lead_count == 63 ==> (b.lead_baseline matches Some(base) ==> {
                let drift = least - base;
                &&& c.lead_baseline == Some(base)
                &&& -128 <= drift <= 128 ==> e.capture_o == d.capture_o
                &&& (drift > 128 || drift < -128) && i64::MIN <= drift <= i64::MAX && 0
                    <= d.capture_o - drift <= i64::MAX ==> e.capture_o == d.capture_o - drift
            })
        }),
{
    let b = d.backend->M1k_0;
    let lead = d.capture_o - d.capture_i;
    if b.lead_count == 63 {
        if let Some(base) = b.lead_baseline {
            let least = if lead < b.lead_min {
                lead
            } else {
                b.lead_min as int
            };
            let o = d.capture_o - (least - base);
            if 0 <= o <= i64::MAX {
                assert((o as i64) as u64 == o);
            }
        }
    }
}

} // verus!
