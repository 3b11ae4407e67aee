//! Centroid and bounding box of a coordinate sequence, and the fixed
//! seven-decimal text in which both are written out.
//!
//! Positions are integers in units of 1e-7 degree, the resolution of the
//! source data, so every value below is computed exactly.

use vstd::prelude::*;

verus! {

/// A position: latitude and longitude in units of 1e-7 degree.
#[derive(Clone, Copy, Debug, PartialEq, Eq, Structural)]
pub struct Coord {
    pub lat: i32,
    pub lon: i32,
}

/// An axis-aligned bounding box, in units of 1e-7 degree.
#[derive(Clone, Copy, Debug, PartialEq, Eq, Structural)]
pub struct Bounds {
    pub north: i32,
    pub south: i32,
    pub east: i32,
    pub west: i32,
}

pub open spec fn sum_lat(s: Seq<Coord>) -> int
    decreases s.len(),
{
    if s.len() == 0 {
        0
    } else {
        sum_lat(s.drop_last()) + s.last().lat
    }
}

pub open spec fn sum_lon(s: Seq<Coord>) -> int
    decreases s.len(),
{
    if s.len() == 0 {
        0
    } else {
        sum_lon(s.drop_last()) + s.last().lon
    }
}

/// `a / n` rounded to the nearest integer, halves away from zero.
pub open spec fn round_div(a: int, n: int) -> int {
    if a >= 0 {
        (2 * a + n) / (2 * n)
    } else {
        -((2 * (-a) + n) / (2 * n))
    }
}

pub open spec fn max_lat(s: Seq<Coord>) -> int
    decreases s.len(),
{
    if s.len() <= 1 {
        if s.len() == 1 { s[0].lat as int } else { 0 }
    } else if max_lat(s.drop_last()) >= s.last().lat {
        max_lat(s.drop_last())
    } else {
        s.last().lat as int
    }
}

pub open spec fn min_lat(s: Seq<Coord>) -> int
    decreases s.len(),
{
    if s.len() <= 1 {
        if s.len() == 1 { s[0].lat as int } else { 0 }
    } else if min_lat(s.drop_last()) <= s.last().lat {
        min_lat(s.drop_last())
    } else {
        s.last().lat as int
    }
}

pub open spec fn max_lon(s: Seq<Coord>) -> int
    decreases s.len(),
{
    if s.len() <= 1 {
        if s.len() == 1 { s[0].lon as int } else { 0 }
    } else if max_lon(s.drop_last()) >= s.last().lon {
        max_lon(s.drop_last())
    } else {
        s.last().lon as int
    }
}

pub open spec fn min_lon(s: Seq<Coord>) -> int
    decreases s.len(),
{
    if s.len() <= 1 {
        if s.len() == 1 { s[0].lon as int } else { 0 }
    } else if min_lon(s.drop_last()) <= s.last().lon {
        min_lon(s.drop_last())
    } else {
        s.last().lon as int
    }
}

/// The mean position, rounded to the unit; the origin for no positions.
pub open spec fn spec_centroid(s: Seq<Coord>) -> (int, int) {
    if s.len() == 0 {
        (0, 0)
    } else {
        (round_div(sum_lat(s), s.len() as int), round_div(sum_lon(s), s.len() as int))
    }
}

/// The coordinate-wise extremes; all zero for no positions.
pub open spec fn spec_bounds(s: Seq<Coord>) -> (int, int, int, int) {
    if s.len() == 0 {
        (0, 0, 0, 0)
    } else {
        (max_lat(s), min_lat(s), max_lon(s), min_lon(s))
    }
}

proof fn lemma_extremes(s: Seq<Coord>)
    requires
        s.len() > 0,
    ensures
        min_lat(s) <= max_lat(s),
        min_lon(s) <= max_lon(s),
        i32::MIN <= min_lat(s),
        max_lat(s) <= i32::MAX,
        i32::MIN <= min_lon(s),
        max_lon(s) <= i32::MAX,
        s.len() * min_lat(s) <= sum_lat(s) <= s.len() * max_lat(s),
        s.len() * min_lon(s) <= sum_lon(s) <= s.len() * max_lon(s),
    decreases s.len(),
{
    if s.len() == 1 {
        let k = s.len() as int;
        assert(k * s[0].lat == s[0].lat as int) by (nonlinear_arith) requires k == 1;
        assert(k * s[0].lon == s[0].lon as int) by (nonlinear_arith) requires k == 1;
        assert(s.drop_last().len() == 0);
        assert(s.last() == s[0]);
        assert(sum_lat(s.drop_last()) == 0);
        assert(sum_lon(s.drop_last()) == 0);
        assert(sum_lat(s) == s[0].lat);
        assert(sum_lon(s) == s[0].lon);
        assert(min_lat(s) == s[0].lat && max_lat(s) == s[0].lat);
        assert(min_lon(s) == s[0].lon && max_lon(s) == s[0].lon);
    } else {
        let t = s.drop_last();
        lemma_extremes(t);
        let n = t.len() as int;
        assert(s.len() as int == n + 1);
        let (a, b, x) = (min_lat(t), max_lat(t), s.last().lat as int);
        let (mn, mx) = (min_lat(s), max_lat(s));
        assert(mn <= a && mn <= x && b <= mx && x <= mx);
        assert(n * mn <= n * a) by (nonlinear_arith) requires mn <= a, n >= 0;
        assert(n * b <= n * mx) by (nonlinear_arith) requires b <= mx, n >= 0;
        assert((n + 1) * mn == n * mn + mn) by (nonlinear_arith);
        assert((n + 1) * mx == n * mx + mx) by (nonlinear_arith);
        let (c, d, y) = (min_lon(t), max_lon(t), s.last().lon as int);
        let (ln, lx) = (min_lon(s), max_lon(s));
        assert(ln <= c && ln <= y && d <= lx && y <= lx);
        assert(n * ln <= n * c) by (nonlinear_arith) requires ln <= c, n >= 0;
        assert(n * d <= n * lx) by (nonlinear_arith) requires d <= lx, n >= 0;
        assert((n + 1) * ln == n * ln + ln) by (nonlinear_arith);
        assert((n + 1) * lx == n * lx + lx) by (nonlinear_arith);
        assert(sum_lat(s) == sum_lat(t) + x);
        assert(sum_lon(s) == sum_lon(t) + y);
        assert((n + 1) * mn <= sum_lat(s) <= (n + 1) * mx);
        assert((n + 1) * ln <= sum_lon(s) <= (n + 1) * lx);
    }
}

proof fn lemma_round_div_within(a: int, n: int, lo: int, hi: int)
    requires
        n > 0,
        n * lo <= a <= n * hi,
    ensures
        lo <= round_div(a, n) <= hi,
{
    if a >= 0 {
        let q = (2 * a + n) / (2 * n);
        assert(q <= hi) by (nonlinear_arith)
            requires n > 0, a <= n * hi, q == (2 * a + n) / (2 * n);
        assert(lo <= q) by (nonlinear_arith)
            requires n > 0, n * lo <= a, a >= 0, q == (2 * a + n) / (2 * n);
    } else {
        let b = -a;
        let q = (2 * b + n) / (2 * n);
        assert(b <= n * (-lo)) by (nonlinear_arith) requires n * lo <= a, b == -a;
        assert(n * (-hi) <= b) by (nonlinear_arith) requires a <= n * hi, b == -a;
        assert(q <= -lo) by (nonlinear_arith)
            requires n > 0, b <= n * (-lo), q == (2 * b + n) / (2 * n);
        assert(-hi <= q) by (nonlinear_arith)
            requires n > 0, n * (-hi) <= b, b > 0, q == (2 * b + n) / (2 * n);
    }
}

/// Rounds `a / n` to the nearest integer, halves away from zero.
fn rounded_mean(a: i128, n: i128) -> (r: i128)
    requires
        n > 0,
        -0x1_0000_0000_0000_0000_0000_0000 <= a <= 0x1_0000_0000_0000_0000_0000_0000,
        n <= 0x1_0000_0000_0000_0000,
    ensures
        r == round_div(a as int, n as int),
{
    if a >= 0 {
        (2 * a + n) / (2 * n)
    } else {
        -((2 * (-a) + n) / (2 * n))
    }
}

/// The mean position of `coords`, rounded to the unit; the origin when empty.
pub fn calculate_centroid(coords: &[Coord]) -> (r: Coord)
    ensures
        (r.lat as int, r.lon as int) == spec_centroid(coords@),
{
    let n = coords.len();
    if n == 0 {
        return Coord { lat: 0, lon: 0 };
    }
    let mut sl: i128 = 0;
    let mut so: i128 = 0;
    let mut i: usize = 0;
    while i < n
        invariant
            n == coords@.len(),
            i <= n,
            sl == sum_lat(coords@.subrange(0, i as int)),
            so == sum_lon(coords@.subrange(0, i as int)),
            -0x8000_0000 * i <= sl <= 0x8000_0000 * i,
            -0x8000_0000 * i <= so <= 0x8000_0000 * i,
        decreases n - i,
    {
        assert(coords@.subrange(0, i + 1).drop_last() =~= coords@.subrange(0, i as int));
        sl = sl + coords[i].lat as i128;
        so = so + coords[i].lon as i128;
        i = i + 1;
    }
    assert(coords@.subrange(0, n as int) =~= coords@);
    assert(0x8000_0000 * (n as int) <= 0x8000_0000 * 0xffff_ffff_ffff_ffffint) by (nonlinear_arith)
        requires n <= 0xffff_ffff_ffff_ffff, n >= 0;
    assert(0x8000_0000 * 0xffff_ffff_ffff_ffffint < 0x1_0000_0000_0000_0000_0000_0000int);
    assert(i == n);
    assert(-0x8000_0000 * (n as int) <= sl <= 0x8000_0000 * (n as int));
    assert(-0x8000_0000 * (n as int) <= so <= 0x8000_0000 * (n as int));
    proof {
        lemma_extremes(coords@);
        lemma_round_div_within(sl as int, n as int, min_lat(coords@), max_lat(coords@));
        lemma_round_div_within(so as int, n as int, min_lon(coords@), max_lon(coords@));
    }
    let lat = rounded_mean(sl, n as i128);
    let lon = rounded_mean(so, n as i128);
    Coord { lat: lat as i32, lon: lon as i32 }
}

/// The bounding box of `coords`; all zero when empty.
pub fn calculate_bounds(coords: &[Coord]) -> (r: Bounds)
    ensures
        (r.north as int, r.south as int, r.east as int, r.west as int) == spec_bounds(coords@),
{
    let n = coords.len();
    if n == 0 {
        return Bounds { north: 0, south: 0, east: 0, west: 0 };
    }
    let mut b = Bounds { north: coords[0].lat, south: coords[0].lat, east: coords[0].lon, west: coords[0].lon };
    let mut i: usize = 1;
    while i < n
        invariant
            n == coords@.len(),
            1 <= i <= n,
            b.north == max_lat(coords@.subrange(0, i as int)),
            b.south == min_lat(coords@.subrange(0, i as int)),
            b.east == max_lon(coords@.subrange(0, i as int)),
            b.west == min_lon(coords@.subrange(0, i as int)),
        decreases n - i,
    {
        let c = coords[i];
        assert(coords@.subrange(0, i + 1).drop_last() =~= coords@.subrange(0, i as int));
        if c.lat > b.north {
            b.north = c.lat;
        }
        if c.lat < b.south {
            b.south = c.lat;
        }
        if c.lon > b.east {
            b.east = c.lon;
        }
        if c.lon < b.west {
            b.west = c.lon;
        }
        i = i + 1;
    }
    assert(coords@.subrange(0, n as int) =~= coords@);
    b
}

/// Bounds are ordered (north at least south, east at least west), and the
/// empty sequence has the origin as centroid and all-zero bounds.
pub proof fn lemma_bounds_ordered(s: Seq<Coord>)
    ensures
        s.len() > 0 ==> spec_bounds(s).0 >= spec_bounds(s).1 && spec_bounds(s).2 >= spec_bounds(s).3,
        s.len() == 0 ==> spec_centroid(s) == (0int, 0int) && spec_bounds(s) == (0int, 0int, 0int, 0int),
{
    if s.len() > 0 {
        lemma_extremes(s);
    }
}


/// The decimal digits, by value.
pub open spec fn digit_chars() -> Seq<char> {
    seq!['0', '1', '2', '3', '4', '5', '6', '7', '8', '9']
}

/// The shortest decimal text of `n`.
pub open spec fn decimal(n: nat) -> Seq<char>
    decreases n,
{
    if n < 10 {
        seq![digit_chars()[n as int]]
    } else {
        decimal(n / 10).push(digit_chars()[(n % 10) as int])
    }
}

/// The last `w` decimal digits of `n`, with leading zeros.
pub open spec fn fixed_digits(n: nat, w: nat) -> Seq<char>
    decreases w,
{
    if w == 0 {
        Seq::empty()
    } else {
        fixed_digits(n / 10, (w - 1) as nat).push(digit_chars()[(n % 10) as int])
    }
}

/// A value in units of 1e-7 written in degrees with exactly seven decimals,
/// such as `-74.0060000`.
pub open spec fn fixed7_text(v: int) -> Seq<char> {
    let a = if v < 0 { -v } else { v };
    let sign = if v < 0 { seq!['-'] } else { Seq::<char>::empty() };
    sign + decimal((a / 10_000_000) as nat) + seq!['.'] + fixed_digits((a % 10_000_000) as nat, 7)
}

fn digit(d: u64) -> (c: char)
    requires
        d < 10,
    ensures
        c == digit_chars()[d as int],
{
    let table: [char; 10] = ['0', '1', '2', '3', '4', '5', '6', '7', '8', '9'];
    assert(table@ =~= digit_chars());
    table[d as usize]
}

fn push_decimal(out: &mut Vec<char>, n: u64)
    ensures
        final(out)@ == old(out)@ + decimal(n as nat),
    decreases n,
{
    if n < 10 {
        out.push(digit(n));
    } else {
        push_decimal(out, n / 10);
        out.push(digit(n % 10));
    }
}

fn push_fixed_digits(out: &mut Vec<char>, n: u64, w: u64)
    ensures
        final(out)@ == old(out)@ + fixed_digits(n as nat, w as nat),
    decreases w,
{
    if w > 0 {
        push_fixed_digits(out, n / 10, w - 1);
        out.push(digit(n % 10));
    }
}

/// Relies on `String::from_iter` over characters: the string holds exactly
/// the given characters, in order.
#[verifier::external_body]
pub(crate) fn text_from_chars(chars: Vec<char>) -> (s: String)
    ensures
        s@ == chars@,
{
    String::from_iter(chars)
}

/// Writes a value in units of 1e-7 as degrees with exactly seven decimals.
pub fn format_fixed7(v: i32) -> (s: String)
    ensures
        s@ == fixed7_text(v as int),
{
    let a: u64 = if v < 0 { (-(v as i64)) as u64 } else { v as u64 };
    let mut out: Vec<char> = Vec::new();
    if v < 0 {
        out.push('-');
    }
    push_decimal(&mut out, a / 10_000_000);
    out.push('.');
    push_fixed_digits(&mut out, a % 10_000_000, 7);
    proof {
        let sign = if v < 0 { seq!['-'] } else { Seq::<char>::empty() };
        assert(out@ =~= sign + decimal((a / 10_000_000) as nat) + seq!['.'] + fixed_digits((a % 10_000_000) as nat, 7));
    }
    text_from_chars(out)
}

} // verus!
