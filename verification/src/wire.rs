//! Integers as bytes.

use crate::float::Single;
use vstd::prelude::*;

verus! {

/// The two bytes of `x`, low one first.
pub open spec fn le16(x: u16) -> Seq<u8> {
    seq![(x % 256) as u8, (x / 256) as u8]
}

/// The four bytes of `x`, low one first.
pub open spec fn le32(x: u32) -> Seq<u8> {
    seq![
        (x % 256) as u8,
        ((x / 256) % 256) as u8,
        ((x / 0x1_0000) % 256) as u8,
        (x / 0x100_0000) as u8,
    ]
}

/// The number in two bytes of `d` from `at`, low one first.
pub open spec fn from_le16(d: Seq<u8>, at: int) -> u16 {
    (d[at] + 256 * d[at + 1]) as u16
}

/// The number in four bytes of `d` from `at`, low one first.
pub open spec fn from_le32(d: Seq<u8>, at: int) -> u32 {
    (d[at] + 256 * d[at + 1] + 0x1_0000 * d[at + 2] + 0x100_0000 * d[at + 3]) as u32
}

/// The number in two bytes of `d` from `at`, high one first.
pub open spec fn from_be16(d: Seq<u8>, at: int) -> u16 {
    (256 * d[at] + d[at + 1]) as u16
}

/// The number in four bytes of `d` from `at`, high one first.
pub open spec fn from_be32(d: Seq<u8>, at: int) -> u32 {
    (0x100_0000 * d[at] + 0x1_0000 * d[at + 1] + 256 * d[at + 2] + d[at + 3]) as u32
}

pub fn push_le16(v: &mut Vec<u8>, x: u16)
    ensures
        final(v)@ == old(v)@ + le16(x),
{
    v.push((x % 256) as u8);
    v.push((x / 256) as u8);
    assert(v@ =~= old(v)@ + le16(x));
}

pub fn push_le32(v: &mut Vec<u8>, x: u32)
    ensures
        final(v)@ == old(v)@ + le32(x),
{
    v.push((x % 256) as u8);
    v.push(((x / 256) % 256) as u8);
    v.push(((x / 0x1_0000) % 256) as u8);
    v.push((x / 0x100_0000) as u8);
    assert(v@ =~= old(v)@ + le32(x));
}

pub fn read_le16(d: &[u8], at: usize) -> (r: u16)
    requires
        at + 2 <= d.len(),
    ensures
        r == from_le16(d@, at as int),
{
    d[at] as u16 + 256 * d[at + 1] as u16
}

pub fn read_le32(d: &[u8], at: usize) -> (r: u32)
    requires
        at + 4 <= d.len(),
    ensures
        r == from_le32(d@, at as int),
{
    d[at] as u32 + 256 * d[at + 1] as u32 + 0x1_0000 * d[at + 2] as u32 + 0x100_0000 * d[at
        + 3] as u32
}

pub fn read_be16(d: &[u8], at: usize) -> (r: u16)
    requires
        at + 2 <= d.len(),
    ensures
        r == from_be16(d@, at as int),
{
    256 * d[at] as u16 + d[at + 1] as u16
}

pub fn read_be32(d: &[u8], at: usize) -> (r: u32)
    requires
        at + 4 <= d.len(),
    ensures
        r == from_be32(d@, at as int),
{
    0x100_0000 * d[at] as u32 + 0x1_0000 * d[at + 1] as u32 + 256 * d[at + 2] as u32 + d[at
        + 3] as u32
}

/// Reading four bytes gives back the number that they were written from.
pub proof fn lemma_le32_back(d: Seq<u8>, at: int, x: u32)
    requires
        0 <= at,
        at + 4 <= d.len(),
        d.subrange(at, at + 4) == le32(x),
    ensures
        from_le32(d, at) == x,
{
    let s = d.subrange(at, at + 4);
    assert(s[0] == d[at] && s[1] == d[at + 1] && s[2] == d[at + 2] && s[3] == d[at + 3]);
}

/// Reading two bytes gives back the number that they were written from.
pub proof fn lemma_le16_back(d: Seq<u8>, at: int, x: u16)
    requires
        0 <= at,
        at + 2 <= d.len(),
        d.subrange(at, at + 2) == le16(x),
    ensures
        from_le16(d, at) == x,
{
    let s = d.subrange(at, at + 2);
    assert(s[0] == d[at] && s[1] == d[at + 1]);
}

/// The bytes of a list of numbers.
pub open spec fn number_bytes(v: Seq<Single>) -> Seq<u8>
    decreases v.len(),
{
    if v.len() == 0 {
        Seq::empty()
    } else {
        number_bytes(v.drop_last()) + le32(v.last().bits)
    }
}

/// The bytes of a list of numbers, number by number.
pub proof fn lemma_number_bytes(v: Seq<Single>)
    ensures
        number_bytes(v).len() == 4 * v.len(),
        forall|i: int|
            0 <= i < v.len() ==> #[trigger] number_bytes(v).subrange(4 * i, 4 * i + 4) == le32(
                v[i].bits,
            ),
    decreases v.len(),
{
    if v.len() > 0 {
        let w = v.drop_last();
        lemma_number_bytes(w);
        assert forall|i: int| 0 <= i < v.len() implies #[trigger] number_bytes(v).subrange(
            4 * i,
            4 * i + 4,
        ) == le32(v[i].bits) by {
            if i < w.len() {
                assert(number_bytes(w).subrange(4 * i, 4 * i + 4) == le32(w[i].bits));
                assert(number_bytes(v).subrange(4 * i, 4 * i + 4) =~= number_bytes(w).subrange(
                    4 * i,
                    4 * i + 4,
                ));
            } else {
                assert(number_bytes(v).subrange(4 * i, 4 * i + 4) =~= le32(v.last().bits));
            }
        }
    }
}

} // verus!
