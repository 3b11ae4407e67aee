//! The on-disk layout of the coordinate store: an 8-byte big-endian key per
//! point id and a 16-byte value holding latitude then longitude, each as an
//! 8-byte big-endian two's-complement integer in units of 1e-7 degree.

use vstd::prelude::*;
use crate::geometry::Coord;

verus! {

/// 256 to the power `n`.
pub open spec fn pow256(n: nat) -> nat
    decreases n,
{
    if n == 0 {
        1
    } else {
        256 * pow256((n - 1) as nat)
    }
}

/// The last `n` bytes of `x`, most significant first.
pub open spec fn be_bytes(x: nat, n: nat) -> Seq<u8>
    decreases n,
{
    if n == 0 {
        Seq::empty()
    } else {
        be_bytes(x / 256, (n - 1) as nat).push((x % 256) as u8)
    }
}

/// The number whose big-endian bytes are `s`.
pub open spec fn from_be(s: Seq<u8>) -> nat
    decreases s.len(),
{
    if s.len() == 0 {
        0
    } else {
        (from_be(s.drop_last()) * 256 + s.last()) as nat
    }
}

/// Two's complement of a 64-bit signed value, as an unsigned value.
pub open spec fn unsigned64(v: int) -> nat {
    if v >= 0 {
        v as nat
    } else {
        (v + 0x1_0000_0000_0000_0000) as nat
    }
}

/// The signed 64-bit value with two's complement `u`.
pub open spec fn signed64(u: nat) -> int {
    if u < 0x8000_0000_0000_0000 {
        u as int
    } else {
        u - 0x1_0000_0000_0000_0000
    }
}

/// The key under which point `id` is stored.
pub open spec fn spec_key(id: i64) -> Seq<u8> {
    be_bytes(unsigned64(id as int), 8)
}

/// The stored value for a position.
pub open spec fn spec_value(c: Coord) -> Seq<u8> {
    be_bytes(unsigned64(c.lat as int), 8) + be_bytes(unsigned64(c.lon as int), 8)
}

/// The position a stored value holds; values of another length, or out of
/// range, hold none.
pub open spec fn spec_decode(b: Seq<u8>) -> Option<Coord> {
    if b.len() != 16 {
        None
    } else {
        let lat = signed64(from_be(b.subrange(0, 8)));
        let lon = signed64(from_be(b.subrange(8, 16)));
        if i32::MIN <= lat <= i32::MAX && i32::MIN <= lon <= i32::MAX {
            Some(Coord { lat: lat as i32, lon: lon as i32 })
        } else {
            None
        }
    }
}

proof fn lemma_pow256_values()
    ensures
        pow256(7) == 0x100_0000_0000_0000,
        pow256(8) == 0x1_0000_0000_0000_0000,
{
    assert(pow256(0) == 1);
    assert(pow256(1) == 0x100);
    assert(pow256(2) == 0x1_0000);
    assert(pow256(3) == 0x100_0000);
    assert(pow256(4) == 0x1_0000_0000);
    assert(pow256(5) == 0x100_0000_0000);
    assert(pow256(6) == 0x1_0000_0000_0000);
}

proof fn lemma_be_len(x: nat, n: nat)
    ensures
        be_bytes(x, n).len() == n,
    decreases n,
{
    if n > 0 {
        lemma_be_len(x / 256, (n - 1) as nat);
    }
}

proof fn lemma_from_be_bytes(x: nat, n: nat)
    requires
        x < pow256(n),
    ensures
        from_be(be_bytes(x, n)) == x,
    decreases n,
{
    if n > 0 {
        let p = pow256((n - 1) as nat);
        assert(x / 256 < p) by (nonlinear_arith) requires x < 256 * p;
        lemma_from_be_bytes(x / 256, (n - 1) as nat);
        assert(be_bytes(x, n).drop_last() == be_bytes(x / 256, (n - 1) as nat));
    }
}

proof fn lemma_from_be_bound(s: Seq<u8>)
    ensures
        from_be(s) < pow256(s.len()),
    decreases s.len(),
{
    if s.len() > 0 {
        lemma_from_be_bound(s.drop_last());
        let a = from_be(s.drop_last());
        let p = pow256((s.len() - 1) as nat);
        assert(a * 256 + s.last() < 256 * p) by (nonlinear_arith) requires a < p, s.last() < 256;
    }
}

/// A stored position reads back as itself.
pub proof fn lemma_value_round_trip(c: Coord)
    ensures
        spec_decode(spec_value(c)) == Some(c),
{
    lemma_pow256_values();
    let a = be_bytes(unsigned64(c.lat as int), 8);
    let b = be_bytes(unsigned64(c.lon as int), 8);
    lemma_be_len(unsigned64(c.lat as int), 8);
    lemma_be_len(unsigned64(c.lon as int), 8);
    lemma_from_be_bytes(unsigned64(c.lat as int), 8);
    lemma_from_be_bytes(unsigned64(c.lon as int), 8);
    assert((a + b).subrange(0, 8) =~= a);
    assert((a + b).subrange(8, 16) =~= b);
}

/// Distinct ids have distinct keys.
pub proof fn lemma_key_injective(a: i64, b: i64)
    requires
        spec_key(a) == spec_key(b),
    ensures
        a == b,
{
    lemma_pow256_values();
    lemma_from_be_bytes(unsigned64(a as int), 8);
    lemma_from_be_bytes(unsigned64(b as int), 8);
}

fn push_be(out: &mut Vec<u8>, x: u64, n: u64)
    ensures
        final(out)@ == old(out)@ + be_bytes(x as nat, n as nat),
    decreases n,
{
    if n > 0 {
        push_be(out, x / 256, n - 1);
        out.push((x % 256) as u8);
        assert(final(out)@ =~= old(out)@ + be_bytes(x as nat, n as nat));
    } else {
        assert(out@ =~= old(out)@ + be_bytes(x as nat, n as nat));
    }
}

fn two_complement(v: i64) -> (u: u64)
    ensures
        u == unsigned64(v as int),
{
    if v >= 0 {
        v as u64
    } else {
        (v as i128 + 0x1_0000_0000_0000_0000i128) as u64
    }
}

/// The key under which point `id` is stored.
pub fn key_bytes(id: i64) -> (r: Vec<u8>)
    ensures
        r@ == spec_key(id),
{
    let mut r: Vec<u8> = Vec::new();
    push_be(&mut r, two_complement(id), 8);
    assert(r@ =~= spec_key(id));
    r
}

/// The stored value for a position.
pub fn value_bytes(c: Coord) -> (r: Vec<u8>)
    ensures
        r@ == spec_value(c),
{
    let mut r: Vec<u8> = Vec::new();
    push_be(&mut r, two_complement(c.lat as i64), 8);
    push_be(&mut r, two_complement(c.lon as i64), 8);
    assert(r@ =~= spec_value(c));
    r
}

fn read_be8(b: &[u8], start: usize) -> (r: u64)
    requires
        start + 8 <= b@.len(),
    ensures
        r == from_be(b@.subrange(start as int, start + 8)),
{
    let mut acc: u64 = 0;
    let mut i: usize = start;
    let n = b.len();
    assert(start + 8 <= n);
    let end: usize = start + 8;
    while i < end
        invariant
            end == start + 8,
            start + 8 <= b@.len(),
            start <= i <= start + 8,
            acc == from_be(b@.subrange(start as int, i as int)),
        decreases start + 8 - i,
    {
        proof {
            lemma_from_be_bound(b@.subrange(start as int, i as int));
            lemma_pow256_values();
            if i - start < 7 {
                assert(pow256((i - start) as nat) <= pow256(7)) by {
                    lemma_pow256_mono((i - start) as nat, 7);
                }
            }
        }
        assert(b@.subrange(start as int, i + 1).drop_last() =~= b@.subrange(start as int, i as int));
        acc = acc * 256 + b[i] as u64;
        i = i + 1;
    }
    acc
}

proof fn lemma_pow256_mono(a: nat, b: nat)
    requires
        a <= b,
    ensures
        pow256(a) <= pow256(b),
    decreases b,
{
    if a < b {
        lemma_pow256_mono(a, (b - 1) as nat);
    }
}

fn signed_of(u: u64) -> (v: i64)
    ensures
        v == signed64(u as nat),
{
    if u < 0x8000_0000_0000_0000 {
        u as i64
    } else {
        (u as i128 - 0x1_0000_0000_0000_0000i128) as i64
    }
}

/// The position a stored value holds, if it is well formed.
pub fn decode_value(b: &[u8]) -> (r: Option<Coord>)
    ensures
        r == spec_decode(b@),
{
    if b.len() != 16 {
        return None;
    }
    let lat = signed_of(read_be8(b, 0));
    let lon = signed_of(read_be8(b, 8));
    if lat < i32::MIN as i64 || lat > i32::MAX as i64 || lon < i32::MIN as i64 || lon > i32::MAX as i64 {
        return None;
    }
    Some(Coord { lat: lat as i32, lon: lon as i32 })
}

} // verus!
