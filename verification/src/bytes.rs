//! Big-endian encodings and byte-slice copies.
use vstd::prelude::*;

verus! {

/// The two bytes of `x`, most significant first.
pub open spec fn be16(x: u16) -> Seq<u8> {
    seq![(x / 256) as u8, (x % 256) as u8]
}

/// The four bytes of `x`, most significant first.
pub open spec fn be32(x: u32) -> Seq<u8> {
    seq![
        (x / 0x100_0000) as u8,
        (x / 0x1_0000 % 256) as u8,
        (x / 256 % 256) as u8,
        (x % 256) as u8,
    ]
}

/// The number that two bytes spell, most significant first.
pub open spec fn from_be16(s: Seq<u8>) -> u16 {
    (s[0] * 256 + s[1]) as u16
}

/// The number that four bytes spell, most significant first.
pub open spec fn from_be32(s: Seq<u8>) -> u32 {
    (s[0] * 0x100_0000 + s[1] * 0x1_0000 + s[2] * 256 + s[3]) as u32
}

/// `n` zero bytes.
pub open spec fn zeros(n: nat) -> Seq<u8> {
    Seq::new(n, |i: int| 0u8)
}

/// Decoding what was encoded gives the number back.
pub proof fn law_be16_round_trip(x: u16)
    ensures
        be16(x).len() == 2,
        from_be16(be16(x)) == x,
{
}

/// Decoding what was encoded gives the number back.
pub proof fn law_be32_round_trip(x: u32)
    ensures
        be32(x).len() == 4,
        from_be32(be32(x)) == x,
{
}

/// Encoding what was decoded gives the bytes back.
pub proof fn law_be16_decoded(s: Seq<u8>)
    requires
        s.len() == 2,
    ensures
        be16(from_be16(s)) == s,
{
    assert(be16(from_be16(s)) =~= s);
}

/// Encoding what was decoded gives the bytes back.
pub proof fn law_be32_decoded(s: Seq<u8>)
    requires
        s.len() == 4,
    ensures
        be32(from_be32(s)) == s,
{
    let low = s[1] * 0x1_0000 + s[2] * 256 + s[3];
    let x = from_be32(s);
    assert(x == s[0] * 0x100_0000 + low && 0 <= low < 0x100_0000);
    assert(x / 0x100_0000 == s[0]);
    assert(x / 0x1_0000 == s[0] * 256 + s[1]);
    assert(x / 256 == (s[0] * 256 + s[1]) * 256 + s[2]);
    assert(x % 256 == s[3]);
    assert(be32(x) =~= s);
}

pub fn u16_to_be(x: u16) -> (b: [u8; 2])
    ensures
        b@ == be16(x),
{
    [(x / 256) as u8, (x % 256) as u8]
}

pub fn u32_to_be(x: u32) -> (b: [u8; 4])
    ensures
        b@ == be32(x),
{
    [(x / 0x100_0000) as u8, (x / 0x1_0000 % 256) as u8, (x / 256 % 256) as u8, (x % 256) as u8]
}

pub fn u16_from_be(a: u8, b: u8) -> (x: u16)
    ensures
        x == from_be16(seq![a, b]),
{
    (a as u16) * 256 + (b as u16)
}

pub fn u32_from_be(a: u8, b: u8, c: u8, d: u8) -> (x: u32)
    ensures
        x == from_be32(seq![a, b, c, d]),
{
    (a as u32) * 0x100_0000 + (b as u32) * 0x1_0000 + (c as u32) * 256 + (d as u32)
}

/// `base` with `src` laid over it from position `at`.
pub open spec fn overlay(base: Seq<u8>, at: int, src: Seq<u8>) -> Seq<u8> {
    Seq::new(
        base.len(),
        |i: int|
            if at <= i < at + src.len() {
                src[i - at]
            } else {
                base[i]
            },
    )
}

/// Copy all of `src` into `dst` from position `at` on.
pub fn copy_at(dst: &mut [u8], at: usize, src: &[u8])
    requires
        at + src@.len() <= old(dst)@.len(),
    ensures
        final(dst)@ == overlay(old(dst)@, at as int, src@),
{
    let n = src.len();
    let room = dst.len();
    let mut i: usize = 0;
    while i < n
        invariant
            i <= n,
            n == src@.len(),
            at + n <= room,
            room == dst@.len(),
            dst@.len() == old(dst)@.len(),
            dst@ == overlay(old(dst)@, at as int, src@.take(i as int)),
        decreases n - i,
    {
        dst[at + i] = src[i];
        i = i + 1;
    }
    assert(src@.take(n as int) == src@);
}

/// Copy `n` bytes of `src`, from position `from` on, to the front of `dst` at `at`.
pub fn copy_part(dst: &mut [u8], at: usize, src: &[u8], from: usize, n: usize)
    requires
        at + n <= old(dst)@.len(),
        from + n <= src@.len(),
    ensures
        final(dst)@ == overlay(old(dst)@, at as int, src@.subrange(from as int, from + n)),
{
    let room = dst.len();
    let given = src.len();
    let mut i: usize = 0;
    while i < n
        invariant
            i <= n,
            from + n <= given,
            given == src@.len(),
            at + n <= room,
            room == dst@.len(),
            dst@.len() == old(dst)@.len(),
            dst@ == overlay(old(dst)@, at as int, src@.subrange(from as int, from + i)),
        decreases n - i,
    {
        dst[at + i] = src[from + i];
        i = i + 1;
    }
}

/// Overwrite `n` bytes of `dst`, from position `at` on, with zero.
pub fn clear_part(dst: &mut [u8], at: usize, n: usize)
    requires
        at + n <= old(dst)@.len(),
    ensures
        final(dst)@ == overlay(old(dst)@, at as int, zeros(n as nat)),
{
    let room = dst.len();
    let mut i: usize = 0;
    while i < n
        invariant
            i <= n,
            at + n <= room,
            room == dst@.len(),
            dst@.len() == old(dst)@.len(),
            dst@ == overlay(old(dst)@, at as int, zeros(i as nat)),
        decreases n - i,
    {
        dst[at + i] = 0;
        i = i + 1;
    }
}

} // verus!
