//! Byte-level primitives: little-endian fields and range edits on byte
//! vectors. Every structure the loader reads or writes is specified over
//! these functions.

use vstd::prelude::*;

verus! {

/// The 16-bit little-endian value stored at `s[i..i + 2]`.
pub open spec fn le16(s: Seq<u8>, i: int) -> u16
    recommends
        0 <= i,
        i + 2 <= s.len(),
{
    (s[i] + 0x100 * s[i + 1]) as u16
}

/// The 32-bit little-endian value stored at `s[i..i + 4]`.
pub open spec fn le32(s: Seq<u8>, i: int) -> u32
    recommends
        0 <= i,
        i + 4 <= s.len(),
{
    (s[i] + 0x100 * s[i + 1] + 0x10000 * s[i + 2] + 0x1000000 * s[i + 3]) as u32
}

/// `s` with `x` written over the range starting at `i`.
pub open spec fn splice(s: Seq<u8>, i: int, x: Seq<u8>) -> Seq<u8>
    recommends
        0 <= i,
        i + x.len() <= s.len(),
{
    s.take(i) + x + s.skip(i + x.len())
}

/// A run of `n` zero bytes.
pub open spec fn zeros(n: int) -> Seq<u8> {
    Seq::new(n as nat, |i: int| 0u8)
}

/// Reads the 16-bit little-endian value at `v[i..i + 2]`.
pub fn read_le16(v: &Vec<u8>, i: usize) -> (r: u16)
    requires
        i + 2 <= v.len(),
    ensures
        r == le16(v@, i as int),
{
    v[i] as u16 + (v[i + 1] as u16) * 0x100
}

/// Reads the 32-bit little-endian value at `v[i..i + 4]`.
pub fn read_le32(v: &Vec<u8>, i: usize) -> (r: u32)
    requires
        i + 4 <= v.len(),
    ensures
        r == le32(v@, i as int),
{
    v[i] as u32 + (v[i + 1] as u32) * 0x100 + (v[i + 2] as u32) * 0x10000 + (v[i + 3] as u32)
        * 0x1000000
}

/// Writes `x` at `v[i..i + 2]` in little-endian order.
pub fn write_le16(v: &mut Vec<u8>, i: usize, x: u16)
    requires
        i + 2 <= old(v).len(),
    ensures
        final(v)@ == splice(old(v)@, i as int, seq![(x % 0x100) as u8, (x / 0x100) as u8]),
        le16(final(v)@, i as int) == x,
        final(v)@.len() == old(v)@.len(),
{
    let lo: u8 = (x % 0x100) as u8;
    let hi: u8 = (x / 0x100) as u8;
    v[i] = lo;
    v[i + 1] = hi;
    assert(v@ =~= splice(old(v)@, i as int, seq![lo, hi]));
    assert(le16(v@, i as int) == lo + 0x100 * hi);
}

/// Writes `x` at `v[i..i + 4]` in little-endian order.
pub fn write_le32(v: &mut Vec<u8>, i: usize, x: u32)
    requires
        i + 4 <= old(v).len(),
    ensures
        final(v)@ == splice(
            old(v)@,
            i as int,
            seq![
                (x % 0x100) as u8,
                ((x / 0x100) % 0x100) as u8,
                ((x / 0x10000) % 0x100) as u8,
                (x / 0x1000000) as u8,
            ],
        ),
        le32(final(v)@, i as int) == x,
        final(v)@.len() == old(v)@.len(),
{
    let b0: u8 = (x % 0x100) as u8;
    let b1: u8 = ((x / 0x100) % 0x100) as u8;
    let b2: u8 = ((x / 0x10000) % 0x100) as u8;
    let b3: u8 = (x / 0x1000000) as u8;
    v[i] = b0;
    v[i + 1] = b1;
    v[i + 2] = b2;
    v[i + 3] = b3;
    assert(v@ =~= splice(old(v)@, i as int, seq![b0, b1, b2, b3]));
    assert(le32(v@, i as int) == b0 + 0x100 * b1 + 0x10000 * b2 + 0x1000000 * b3);
    assert(b0 + 0x100 * b1 + 0x10000 * b2 + 0x1000000 * b3 == x) by {
        assert(x / 0x1000000 < 0x100);
    };
}

/// Copies `n` bytes from `src[src_off..]` to `dst[dst_off..]`.
pub fn copy_into(dst: &mut Vec<u8>, dst_off: usize, src: &Vec<u8>, src_off: usize, n: usize)
    requires
        dst_off + n <= old(dst).len(),
        src_off + n <= src.len(),
    ensures
        final(dst)@ == splice(
            old(dst)@,
            dst_off as int,
            src@.subrange(src_off as int, src_off + n),
        ),
        final(dst)@.len() == old(dst)@.len(),
{
    let mut k: usize = 0;
    while k < n
        invariant
            k <= n,
            dst_off + n <= dst.len(),
            src_off + n <= src.len(),
            dst@.len() == old(dst)@.len(),
            forall|j: int| 0 <= j < k ==> dst@[dst_off + j] == #[trigger] src@[src_off + j],
            forall|j: int|
                0 <= j < dst@.len() && !(dst_off <= j < dst_off + k) ==> dst@[j] == old(dst)@[j],
        decreases n - k,
    {
        let b = src[src_off + k];
        dst[dst_off + k] = b;
        k = k + 1;
    }
    let ghost spliced = splice(old(dst)@, dst_off as int, src@.subrange(src_off as int, src_off + n));
    assert forall|idx: int| 0 <= idx < dst@.len() implies dst@[idx] == spliced[idx] by {
        if dst_off <= idx < dst_off + n {
            let j = idx - dst_off;
            assert(dst@[dst_off + j] == src@[src_off + j]);
        }
    }
    assert(dst@ =~= spliced);
}

/// Overwrites `dst[off..off + n]` with zero bytes.
pub fn zero_range(dst: &mut Vec<u8>, off: usize, n: usize)
    requires
        off + n <= old(dst).len(),
    ensures
        final(dst)@ == splice(old(dst)@, off as int, zeros(n as int)),
        final(dst)@.len() == old(dst)@.len(),
{
    let mut k: usize = 0;
    while k < n
        invariant
            k <= n,
            off + n <= dst.len(),
            dst@.len() == old(dst)@.len(),
            forall|j: int| 0 <= j < k ==> #[trigger] dst@[off + j] == 0u8,
            forall|j: int| 0 <= j < dst@.len() && !(off <= j < off + k) ==> dst@[j] == old(dst)@[j],
        decreases n - k,
    {
        dst[off + k] = 0u8;
        k = k + 1;
    }
    let ghost spliced = splice(old(dst)@, off as int, zeros(n as int));
    assert forall|idx: int| 0 <= idx < dst@.len() implies dst@[idx] == spliced[idx] by {
        if off <= idx < off + n {
            let j = idx - off;
            assert(dst@[off + j] == 0u8);
        }
    }
    assert(dst@ =~= spliced);
}

/// A fresh vector of `n` zero bytes.
pub fn zero_vec(n: usize) -> (r: Vec<u8>)
    ensures
        r@ == zeros(n as int),
{
    let mut out: Vec<u8> = Vec::new();
    let mut k: usize = 0;
    while k < n
        invariant
            k <= n,
            out@ =~= zeros(k as int),
        decreases n - k,
    {
        out.push(0u8);
        k = k + 1;
    }
    assert(out@ =~= zeros(n as int));
    out
}

/// Copies `dst[off..off + n]` out into a fresh vector.
pub fn read_range(src: &Vec<u8>, off: usize, n: usize) -> (r: Vec<u8>)
    requires
        off + n <= src.len(),
    ensures
        r@ == src@.subrange(off as int, off + n),
{
    let mut out: Vec<u8> = Vec::new();
    let mut k: usize = 0;
    while k < n
        invariant
            k <= n,
            off + n <= src.len(),
            out@ =~= src@.subrange(off as int, off + k),
        decreases n - k,
    {
        out.push(src[off + k]);
        k = k + 1;
    }
    assert(out@ =~= src@.subrange(off as int, off + n));
    out
}

} // verus!
