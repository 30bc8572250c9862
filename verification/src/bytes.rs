//! Little-endian readers and writers over byte vectors, the vocabulary of
//! the executable-image rewriting code.

use vstd::arithmetic::div_mod::{lemma_div_denominator, lemma_fundamental_div_mod, lemma_mod_bound};
use vstd::arithmetic::mul::lemma_mul_is_commutative;
use vstd::prelude::*;

verus! {

/// The 16-bit little-endian value stored at `off`.
pub open spec fn le16(b: Seq<u8>, off: int) -> int {
    b[off] + 256 * b[off + 1]
}

/// The 32-bit little-endian value stored at `off`.
pub open spec fn le32(b: Seq<u8>, off: int) -> int {
    b[off] + 256 * b[off + 1] + 65536 * b[off + 2] + 16777216 * b[off + 3]
}

/// The two little-endian bytes of a 16-bit value.
pub open spec fn le16b(x: int) -> Seq<u8> {
    seq![(x % 256) as u8, ((x / 256) % 256) as u8]
}

/// The four little-endian bytes of a 32-bit value.
pub open spec fn le32b(x: int) -> Seq<u8> {
    seq![
        (x % 256) as u8,
        ((x / 256) % 256) as u8,
        ((x / 65536) % 256) as u8,
        ((x / 16777216) % 256) as u8,
    ]
}

/// `x` rounded up to the next multiple of `a`.
pub open spec fn align_up(x: int, a: int) -> int {
    ((x + a - 1) / a) * a
}

pub fn read_u16_le(b: &Vec<u8>, off: usize) -> (r: u16)
    requires
        off + 2 <= b@.len(),
    ensures
        r == le16(b@, off as int),
{
    let n = b.len();
    proof {
        assert(off + 2 <= n);
    }
    (b[off] as u16) + (b[off + 1] as u16) * 256
}

pub fn read_u32_le(b: &Vec<u8>, off: usize) -> (r: u32)
    requires
        off + 4 <= b@.len(),
    ensures
        r == le32(b@, off as int),
{
    let n = b.len();
    proof {
        assert(off + 4 <= n);
    }
    (b[off] as u32) + (b[off + 1] as u32) * 256 + (b[off + 2] as u32) * 65536 + (b[off
        + 3] as u32) * 16777216
}

/// The four little-endian bytes of `x`, low byte first.
proof fn lemma_u32_le_decompose(x: u32)
    ensures
        x == (x as int % 256) + 256 * ((x as int / 256) % 256) + 65536 * ((x as int / 65536) % 256)
            + 16777216 * (x as int / 16777216),
{
    let xi = x as int;
    lemma_fundamental_div_mod(xi, 256);
    lemma_fundamental_div_mod(xi / 256, 256);
    lemma_fundamental_div_mod(xi / 65536, 256);
    lemma_div_denominator(xi, 256, 256);
    lemma_div_denominator(xi, 65536, 256);
}

pub fn push_u16_le(v: &mut Vec<u8>, x: u16)
    ensures
        final(v)@ == old(v)@ + le16b(x as int),
        final(v)@.len() == old(v)@.len() + 2,
        final(v)@.subrange(0, old(v)@.len() as int) == old(v)@,
        le16(final(v)@, old(v)@.len() as int) == x,
{
    proof {
        lemma_fundamental_div_mod(x as int, 256);
    }
    v.push((x % 256) as u8);
    v.push(((x / 256) % 256) as u8);
    proof {
        assert(v@ =~= old(v)@ + le16b(x as int));
        assert(v@.subrange(0, old(v)@.len() as int) =~= old(v)@);
    }
}

pub fn push_u32_le(v: &mut Vec<u8>, x: u32)
    ensures
        final(v)@ == old(v)@ + le32b(x as int),
        final(v)@.len() == old(v)@.len() + 4,
        final(v)@.subrange(0, old(v)@.len() as int) == old(v)@,
        le32(final(v)@, old(v)@.len() as int) == x,
{
    proof {
        lemma_u32_le_decompose(x);
    }
    v.push((x % 256) as u8);
    v.push(((x / 256) % 256) as u8);
    v.push(((x / 65536) % 256) as u8);
    v.push(((x / 16777216) % 256) as u8);
    proof {
        assert(v@ =~= old(v)@ + le32b(x as int));
        assert(v@.subrange(0, old(v)@.len() as int) =~= old(v)@);
    }
}

/// Overwrites the four bytes at `off` with `x`, little-endian; every other
/// byte is left as it was.
pub fn write_u32_le_at(v: &mut Vec<u8>, off: usize, x: u32)
    requires
        off + 4 <= old(v)@.len(),
    ensures
        final(v)@.len() == old(v)@.len(),
        le32(final(v)@, off as int) == x,
        forall|i: int|
            0 <= i < old(v)@.len() && !(off <= i < off + 4) ==> final(v)@[i] == old(v)@[i],
{
    let n = v.len();
    proof {
        lemma_u32_le_decompose(x);
        assert(off + 4 <= n);
    }
    v[off] = (x % 256) as u8;
    v[off + 1] = ((x / 256) % 256) as u8;
    v[off + 2] = ((x / 65536) % 256) as u8;
    v[off + 3] = (x / 16777216) as u8;
}

/// A fresh copy of `v[a..b]`.
pub fn copy_range(v: &Vec<u8>, a: usize, b: usize) -> (r: Vec<u8>)
    requires
        a <= b <= v@.len(),
    ensures
        r@ == v@.subrange(a as int, b as int),
{
    let mut r: Vec<u8> = Vec::new();
    let mut i: usize = a;
    while i < b
        invariant
            a <= i <= b <= v@.len(),
            r@ == v@.subrange(a as int, i as int),
        decreases b - i,
    {
        r.push(v[i]);
        proof {
            assert(r@ =~= v@.subrange(a as int, i + 1 as int));
        }
        i = i + 1;
    }
    r
}

/// A fresh copy of the whole of `v`.
pub fn copy_bytes(v: &Vec<u8>) -> (r: Vec<u8>)
    ensures
        r@ == v@,
{
    let r = copy_range(v, 0, v.len());
    proof {
        assert(v@.subrange(0, v@.len() as int) =~= v@);
    }
    r
}

/// Appends `src[a..b]` to `dst`.
pub fn append_range(dst: &mut Vec<u8>, src: &Vec<u8>, a: usize, b: usize)
    requires
        a <= b <= src@.len(),
    ensures
        final(dst)@ == old(dst)@ + src@.subrange(a as int, b as int),
{
    let mut i: usize = a;
    while i < b
        invariant
            a <= i <= b <= src@.len(),
            dst@ == old(dst)@ + src@.subrange(a as int, i as int),
        decreases b - i,
    {
        dst.push(src[i]);
        proof {
            assert(dst@ =~= old(dst)@ + src@.subrange(a as int, i + 1 as int));
        }
        i = i + 1;
    }
}

/// Appends `n` zero bytes to `dst`.
pub fn append_zeroes(dst: &mut Vec<u8>, n: usize)
    ensures
        final(dst)@.len() == old(dst)@.len() + n,
        final(dst)@.subrange(0, old(dst)@.len() as int) == old(dst)@,
        forall|i: int| old(dst)@.len() <= i < final(dst)@.len() ==> final(dst)@[i] == 0u8,
{
    let mut k: usize = 0;
    while k < n
        invariant
            k <= n,
            dst@.len() == old(dst)@.len() + k,
            dst@.subrange(0, old(dst)@.len() as int) == old(dst)@,
            forall|i: int| old(dst)@.len() <= i < dst@.len() ==> dst@[i] == 0u8,
        decreases n - k,
    {
        dst.push(0u8);
        proof {
            assert(dst@.subrange(0, old(dst)@.len() as int) =~= old(dst)@);
        }
        k = k + 1;
    }
}

/// Exact byte-vector equality.
pub fn bytes_eq(a: &Vec<u8>, b: &Vec<u8>) -> (r: bool)
    ensures
        r <==> a@ == b@,
{
    if a.len() != b.len() {
        proof {
            assert(a@.len() != b@.len());
        }
        return false;
    }
    let mut i: usize = 0;
    while i < a.len()
        invariant
            i <= a@.len(),
            a@.len() == b@.len(),
            forall|j: int| 0 <= j < i ==> a@[j] == b@[j],
        decreases a@.len() - i,
    {
        if a[i] != b[i] {
            return false;
        }
        i = i + 1;
    }
    proof {
        assert(a@ =~= b@);
    }
    true
}

/// Rounds `x` up to the next multiple of `a`; `None` when the result would
/// not fit in `u32`.
pub fn align_up_u32(x: u32, a: u32) -> (r: Option<u32>)
    requires
        a >= 1,
    ensures
        match r {
            Some(y) => y == align_up(x as int, a as int),
            None => align_up(x as int, a as int) > u32::MAX,
        },
{
    let num: u64 = x as u64 + a as u64 - 1;
    let q: u64 = num / (a as u64);
    proof {
        lemma_align_up_bounds(x as int, a as int);
    }
    let big: u64 = q * (a as u64);
    if big <= 0xFFFF_FFFFu64 {
        Some(big as u32)
    } else {
        None
    }
}

/// `align_up` never moves a value down, and overshoots by less than one
/// multiple of the alignment.
pub proof fn lemma_align_up_bounds(x: int, a: int)
    requires
        0 <= x,
        1 <= a,
    ensures
        x <= align_up(x, a) <= x + a - 1,
{
    lemma_fundamental_div_mod(x + a - 1, a);
    lemma_mod_bound(x + a - 1, a);
    lemma_mul_is_commutative((x + a - 1) / a, a);
}

} // verus!
