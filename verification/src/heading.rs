//! Headings: unit vectors in fixed point, and the rotations that steer them.
//!
//! A heading `(x, y)` stands for the direction `(x, y) / HEADING_ONE`. Its
//! length is kept within a few units of `HEADING_ONE`, so the direction's
//! magnitude never drifts however often it is turned.

use crate::fixed::{
    div_round_zero, div_toward_zero, integer_sqrt, isqrt, lemma_isqrt_at_least,
    lemma_isqrt_exists, lemma_product_bound, lemma_rounding_remainder,
};
use crate::mapper::Point;
use vstd::prelude::*;

verus! {

/// The fixed-point value of the length one.
pub const HEADING_ONE: i64 = 1073741824;

/// The squared length of a vector.
pub open spec fn norm2(v: Point) -> int {
    v.x * v.x + v.y * v.y
}

/// The square of `HEADING_ONE - 3`: the least squared length of a heading.
pub const UNIT_NORM_MIN: i64 = 1152921498164396041;

/// The square of `HEADING_ONE + 1`: the greatest squared length of a heading.
pub const UNIT_NORM_MAX: i64 = 1152921506754330625;

/// The square of `HEADING_ONE`.
pub const UNIT_NORM: i64 = 1152921504606846976;

/// The vector's length is `HEADING_ONE` to within rounding: at most one unit
/// longer and at most three shorter.
pub open spec fn is_unit(v: Point) -> bool {
    UNIT_NORM_MIN <= norm2(v) <= UNIT_NORM_MAX
}

/// The vector scaled to length `HEADING_ONE`, each coordinate rounded toward
/// zero.
pub open spec fn normalized(v: Point) -> Point {
    let n = isqrt(norm2(v));
    Point {
        x: div_toward_zero(v.x * HEADING_ONE, n),
        y: div_toward_zero(v.y * HEADING_ONE, n),
    }
}

/// The product of two vectors read as complex numbers, before scaling back:
/// `h` turned by the angle of `t`, and stretched by the length of `t`.
pub open spec fn turned_raw(h: Point, t: Point) -> Point {
    Point { x: h.x * t.x - h.y * t.y, y: h.x * t.y + h.y * t.x }
}

/// The heading `h` turned by the angle of the unit vector `t`.
pub open spec fn rotated(h: Point, t: Point) -> Point {
    normalized(turned_raw(h, t))
}

/// Twice the signed area of the triangle that two vectors span: positive
/// when `b` points counter-clockwise of `a`, negative when clockwise.
pub open spec fn cross(a: Point, b: Point) -> int {
    a.x * b.y - a.y * b.x
}

/// The vector mirrored at the horizontal axis; as a rotation, the opposite
/// turn.
pub open spec fn mirrored(v: Point) -> Point {
    Point { x: v.x, y: -v.y }
}

/// The vector turned left by a quarter turn.
pub open spec fn quarter_left(v: Point) -> Point {
    Point { x: -v.y, y: v.x }
}

/// Squaring keeps the order of non-negative numbers.
pub proof fn lemma_square_le(x: int, y: int)
    by (nonlinear_arith)
    requires
        0 <= x <= y,
    ensures
        x * x <= y * y,
{
}

/// Squaring keeps the strict order of non-negative numbers.
pub proof fn lemma_square_lt(x: int, y: int)
    by (nonlinear_arith)
    requires
        0 <= x < y,
    ensures
        x * x < y * y,
{
}

/// A quotient rounded down, times the divisor, is the largest multiple of
/// the divisor that does not exceed the numerator.
pub proof fn lemma_floor_quotient(a: int, n: int, p: int)
    requires
        0 <= a,
        0 < n,
        p == a / n,
    ensures
        0 <= p,
        p * n <= a < (p + 1) * n,
{
    vstd::arithmetic::div_mod::lemma_fundamental_div_mod(a, n);
    vstd::arithmetic::div_mod::lemma_mod_bound(a, n);
    vstd::arithmetic::div_mod::lemma_div_pos_is_pos(a, n);
    assert(n * p == p * n && (p + 1) * n == p * n + n) by (nonlinear_arith);
}

/// Scaling a vector of length between `n` and `n + 1` by `h / n` gives a
/// vector of length `h`, to within rounding, provided `n` is at least `h`.
proof fn lemma_unit_quotients(a: int, b: int, n: int, p: int, q: int, h: int)
    requires
        0 <= a,
        0 <= b,
        6 <= h <= n,
        n * n <= a * a + b * b < (n + 1) * (n + 1),
        p == (a * h) / n,
        q == (b * h) / n,
    ensures
        (h - 3) * (h - 3) <= p * p + q * q <= (h + 1) * (h + 1),
        0 <= p <= h,
        0 <= q <= h,
{
    let ah = a * h;
    let bh = b * h;
    assert(0 <= ah && 0 <= bh) by (nonlinear_arith)
        requires
            0 <= a,
            0 <= b,
            0 <= h,
            ah == a * h,
            bh == b * h,
    ;
    lemma_floor_quotient(ah, n, p);
    lemma_floor_quotient(bh, n, q);
    let pn = p * n;
    let qn = q * n;
    let s = p * p + q * q;
    assert(0 <= pn && 0 <= qn) by (nonlinear_arith)
        requires
            0 <= p,
            0 <= q,
            0 < n,
            pn == p * n,
            qn == q * n,
    ;
    // Upper bound.
    lemma_square_le(pn, ah);
    lemma_square_le(qn, bh);
    assert(pn * pn + qn * qn == (n * n) * s) by (nonlinear_arith)
        requires
            pn == p * n,
            qn == q * n,
            s == p * p + q * q,
    ;
    assert(ah * ah + bh * bh == (h * h) * (a * a + b * b)) by (nonlinear_arith)
        requires
            ah == a * h,
            bh == b * h,
    ;
    let m = a * a + b * b;
    let hh = h * h;
    let n1 = (n + 1) * (n + 1);
    assert(hh * m < hh * n1) by (nonlinear_arith)
        requires
            m < n1,
            hh == h * h,
            h >= 6,
    ;
    let nn = n * n;
    assert(nn * s < hh * n1);
    if s >= (h + 1) * (h + 1) {
        let h1 = (h + 1) * (h + 1);
        assert(nn * s >= nn * h1) by (nonlinear_arith)
            requires
                s >= h1,
                nn == n * n,
        ;
        lemma_square_le(n * h + h, n * h + n);
        assert(nn * h1 == (n * h + n) * (n * h + n)) by (nonlinear_arith)
            requires
                nn == n * n,
                h1 == (h + 1) * (h + 1),
        ;
        assert(hh * n1 == (n * h + h) * (n * h + h)) by (nonlinear_arith)
            requires
                hh == h * h,
                n1 == (n + 1) * (n + 1),
        ;
        assert(0 <= n * h + h) by (nonlinear_arith)
            requires
                0 <= n,
                0 <= h,
        ;
        assert(false);
    }
    assert(p <= h) by {
        if p >= h + 1 {
            lemma_square_le(h + 1, p);
            assert(q * q >= 0) by (nonlinear_arith);
        }
    }
    assert(q <= h) by {
        if q >= h + 1 {
            lemma_square_le(h + 1, q);
            assert(p * p >= 0) by (nonlinear_arith);
        }
    }
    // Lower bound.
    let p1n = (p + 1) * n;
    let q1n = (q + 1) * n;
    lemma_square_lt(ah, p1n);
    lemma_square_lt(bh, q1n);
    let t = (p + 1) * (p + 1) + (q + 1) * (q + 1);
    assert(p1n * p1n + q1n * q1n == nn * t) by (nonlinear_arith)
        requires
            p1n == (p + 1) * n,
            q1n == (q + 1) * n,
            nn == n * n,
            t == (p + 1) * (p + 1) + (q + 1) * (q + 1),
    ;
    assert(hh * m >= hh * nn) by (nonlinear_arith)
        requires
            m >= nn,
            hh == h * h,
    ;
    assert(nn * t > hh * nn);
    if t <= hh {
        assert(nn * t <= hh * nn) by (nonlinear_arith)
            requires
                t <= hh,
                nn == n * n,
        ;
        assert(false);
    }
    assert(t == s + 2 * p + 2 * q + 2) by (nonlinear_arith)
        requires
            t == (p + 1) * (p + 1) + (q + 1) * (q + 1),
            s == p * p + q * q,
    ;
    assert((h - 3) * (h - 3) == hh - 6 * h + 9) by (nonlinear_arith)
        requires
            hh == h * h,
    ;
}

/// The normalisation of a vector that is at least `HEADING_ONE` long has
/// length `HEADING_ONE` to within rounding.
pub proof fn lemma_normalized_is_unit(v: Point)
    requires
        norm2(v) >= UNIT_NORM,
    ensures
        is_unit(normalized(v)),
        -HEADING_ONE <= normalized(v).x <= HEADING_ONE,
        -HEADING_ONE <= normalized(v).y <= HEADING_ONE,
{
    let h: int = 1073741824;
    let m = norm2(v);
    lemma_isqrt_exists(m);
    let n = isqrt(m);
    assert(h * h == 1152921504606846976) by (nonlinear_arith)
        requires
            h == 1073741824,
    ;
    assert((h - 3) * (h - 3) == 1152921498164396041) by (nonlinear_arith)
        requires
            h == 1073741824,
    ;
    assert((h + 1) * (h + 1) == 1152921506754330625) by (nonlinear_arith)
        requires
            h == 1073741824,
    ;
    lemma_isqrt_at_least(m, h);
    let a = if v.x >= 0 {
        v.x
    } else {
        -v.x
    };
    let b = if v.y >= 0 {
        v.y
    } else {
        -v.y
    };
    assert(a * a == v.x * v.x && b * b == v.y * v.y) by (nonlinear_arith)
        requires
            a == v.x || a == -v.x,
            b == v.y || b == -v.y,
    ;
    assert(a * h == v.x * h || a * h == -(v.x * h)) by (nonlinear_arith)
        requires
            a == v.x || a == -v.x,
    ;
    assert(b * h == v.y * h || b * h == -(v.y * h)) by (nonlinear_arith)
        requires
            b == v.y || b == -v.y,
    ;
    assert(v.x >= 0 ==> v.x * h >= 0) by (nonlinear_arith)
        requires
            h > 0,
    ;
    assert(v.y >= 0 ==> v.y * h >= 0) by (nonlinear_arith)
        requires
            h > 0,
    ;
    assert(v.x < 0 ==> v.x * h < 0) by (nonlinear_arith)
        requires
            h > 0,
    ;
    assert(v.y < 0 ==> v.y * h < 0) by (nonlinear_arith)
        requires
            h > 0,
    ;
    let p = (a * h) / n;
    let q = (b * h) / n;
    lemma_unit_quotients(a, b, n, p, q, h);
    let r = normalized(v);
    assert(r.x == p || r.x == -p);
    assert(r.y == q || r.y == -q);
    assert(r.x * r.x == p * p && r.y * r.y == q * q) by (nonlinear_arith)
        requires
            r.x == p || r.x == -p,
            r.y == q || r.y == -q,
    ;
}

/// Multiplying two vectors as complex numbers multiplies their squared
/// lengths.
pub proof fn lemma_turned_raw_norm(h: Point, t: Point)
    ensures
        norm2(turned_raw(h, t)) == norm2(h) * norm2(t),
{
    let (a, b, c, d) = (h.x, h.y, t.x, t.y);
    let p = a * c;
    let q = b * d;
    let r = a * d;
    let s = b * c;
    assert((p - q) * (p - q) + (r + s) * (r + s) == p * p + q * q + r * r + s * s - 2 * (p * q)
        + 2 * (r * s)) by (nonlinear_arith);
    assert(p * q == r * s) by (nonlinear_arith)
        requires
            p == a * c,
            q == b * d,
            r == a * d,
            s == b * c,
    ;
    assert((a * a + b * b) * (c * c + d * d) == (a * a) * (c * c) + (a * a) * (d * d) + (b * b) * (
    c * c) + (b * b) * (d * d)) by (nonlinear_arith);
    assert(p * p == (a * a) * (c * c)) by (nonlinear_arith)
        requires
            p == a * c,
    ;
    assert(q * q == (b * b) * (d * d)) by (nonlinear_arith)
        requires
            q == b * d,
    ;
    assert(r * r == (a * a) * (d * d)) by (nonlinear_arith)
        requires
            r == a * d,
    ;
    assert(s * s == (b * b) * (c * c)) by (nonlinear_arith)
        requires
            s == b * c,
    ;
}

/// The coordinates of a unit vector are bounded by its length.
pub proof fn lemma_unit_bounds(v: Point)
    requires
        is_unit(v),
    ensures
        -(HEADING_ONE + 1) <= v.x <= HEADING_ONE + 1,
        -(HEADING_ONE + 1) <= v.y <= HEADING_ONE + 1,
{
    let h1: int = 1073741825;
    assert(h1 * h1 == 1152921506754330625) by (nonlinear_arith)
        requires
            h1 == 1073741825,
    ;
    assert(v.x * v.x >= 0 && v.y * v.y >= 0) by (nonlinear_arith);
    if v.x > h1 {
        lemma_square_lt(h1, v.x);
    }
    if v.x < -h1 {
        lemma_square_lt(h1, -v.x);
        assert((-v.x) * (-v.x) == v.x * v.x) by (nonlinear_arith);
    }
    if v.y > h1 {
        lemma_square_lt(h1, v.y);
    }
    if v.y < -h1 {
        lemma_square_lt(h1, -v.y);
        assert((-v.y) * (-v.y) == v.y * v.y) by (nonlinear_arith);
    }
}

/// Turning keeps a heading's length: whatever unit heading is turned by
/// whatever unit rotation, the result is again of unit length.
pub proof fn lemma_rotation_preserves_unit_length(h: Point, t: Point)
    requires
        is_unit(h),
        is_unit(t),
    ensures
        is_unit(rotated(h, t)),
{
    lemma_turned_raw_norm(h, t);
    let a = norm2(h);
    let b = norm2(t);
    assert(a * b >= 1152921504606846976) by (nonlinear_arith)
        requires
            a >= 1152921498164396041,
            b >= 1152921498164396041,
    ;
    lemma_normalized_is_unit(turned_raw(h, t));
}

/// The length of the product of two unit vectors, rounded down, lies between
/// the least and the greatest squared length of a heading.
pub proof fn lemma_turned_length(h: Point, t: Point)
    requires
        is_unit(h),
        is_unit(t),
    ensures
        UNIT_NORM_MIN <= isqrt(norm2(turned_raw(h, t))) <= UNIT_NORM_MAX,
        crate::fixed::is_isqrt(norm2(turned_raw(h, t)), isqrt(norm2(turned_raw(h, t)))),
{
    let lo: int = 1152921498164396041;
    let hi: int = 1152921506754330625;
    let aa = norm2(h);
    let bb = norm2(t);
    let m = norm2(turned_raw(h, t));
    lemma_turned_raw_norm(h, t);
    assert(lo * lo <= aa * bb <= hi * hi) by (nonlinear_arith)
        requires
            0 < lo <= aa <= hi,
            lo <= bb <= hi,
    ;
    lemma_isqrt_exists(m);
    let n = isqrt(m);
    lemma_isqrt_at_least(m, lo);
    if n > hi {
        lemma_square_lt(hi, n);
    }
}

/// Turning goes the way the rotation points: a rotation that points above
/// the horizontal axis turns every heading counter-clockwise, one that
/// points below it turns every heading clockwise.
pub proof fn lemma_rotation_turns_its_way(h: Point, t: Point)
    requires
        is_unit(h),
        is_unit(t),
    ensures
        t.y >= 3 ==> cross(h, rotated(h, t)) > 0,
        t.y <= -3 ==> cross(h, rotated(h, t)) < 0,
{
    let one: int = 1073741824;
    let lo: int = 1152921498164396041;
    let hi: int = 1152921506754330625;
    let raw = turned_raw(h, t);
    let aa = norm2(h);
    let bb = norm2(t);
    let m = norm2(raw);
    lemma_turned_raw_norm(h, t);
    assert(lo * lo <= aa * bb <= hi * hi) by (nonlinear_arith)
        requires
            0 < lo <= aa <= hi,
            lo <= bb <= hi,
    ;
    lemma_isqrt_exists(m);
    let n = isqrt(m);
    lemma_isqrt_at_least(m, lo);
    assert(n <= hi) by {
        if n > hi {
            lemma_square_lt(hi, n);
        }
    }
    let r = rotated(h, t);
    let x = raw.x * one;
    let y = raw.y * one;
    lemma_rounding_remainder(x, n);
    lemma_rounding_remainder(y, n);
    let px = x - r.x * n;
    let py = y - r.y * n;
    lemma_unit_bounds(h);
    lemma_product_bound(h.x, py, one + 1, n);
    lemma_product_bound(h.y, px, one + 1, n);
    let rest = h.x * py - h.y * px;
    let lead = one * (t.y * aa);
    // n * cross(h, r) is the leading term less what rounding left over.
    assert(n * cross(h, r) == h.x * (r.y * n) - h.y * (r.x * n)) by (nonlinear_arith)
        requires
            cross(h, r) == h.x * r.y - h.y * r.x,
    ;
    assert(h.x * (r.y * n) == h.x * y - h.x * py) by (nonlinear_arith)
        requires
            py == y - r.y * n,
    ;
    assert(h.y * (r.x * n) == h.y * x - h.y * px) by (nonlinear_arith)
        requires
            px == x - r.x * n,
    ;
    assert(h.x * y - h.y * x == one * (h.x * raw.y - h.y * raw.x)) by (nonlinear_arith)
        requires
            x == raw.x * one,
            y == raw.y * one,
    ;
    assert(h.x * raw.y - h.y * raw.x == t.y * aa) by {
        let (a, b, c, d) = (h.x, h.y, t.x, t.y);
        assert(a * (a * d + b * c) - b * (a * c - b * d) == d * (a * a + b * b))
            by (nonlinear_arith);
    }
    assert(n * cross(h, r) == lead - rest);
    assert((one + 1) * n <= (one + 1) * hi) by (nonlinear_arith)
        requires
            n <= hi,
            one == 1073741824,
    ;
    assert(-2 * ((one + 1) * hi) <= rest <= 2 * ((one + 1) * hi));
    assert(2 * ((one + 1) * hi) < one * (3 * lo)) by (nonlinear_arith)
        requires
            one == 1073741824,
            lo == 1152921498164396041,
            hi == 1152921506754330625,
    ;
    if t.y >= 3 {
        assert(lead >= one * (3 * lo)) by (nonlinear_arith)
            requires
                lead == one * (t.y * aa),
                t.y >= 3,
                aa >= lo,
                lo > 0,
                one > 0,
        ;
        assert(cross(h, r) > 0) by (nonlinear_arith)
            requires
                n * cross(h, r) > 0,
                n > 0,
        ;
    }
    if t.y <= -3 {
        assert(lead <= -(one * (3 * lo))) by (nonlinear_arith)
            requires
                lead == one * (t.y * aa),
                t.y <= -3,
                aa >= lo,
                lo > 0,
                one > 0,
        ;
        assert(cross(h, r) < 0) by (nonlinear_arith)
            requires
                n * cross(h, r) < 0,
                n > 0,
        ;
    }
}

/// Mirroring and quarter turns keep a vector's length exactly.
pub proof fn lemma_mirror_and_quarter_turn_keep_length(v: Point)
    ensures
        norm2(mirrored(v)) == norm2(v),
        norm2(quarter_left(v)) == norm2(v),
{
    assert((-v.y) * (-v.y) == v.y * v.y) by (nonlinear_arith);
}

/// A direction of motion: a vector of unit length in fixed point.
#[derive(Clone, Copy, Debug)]
pub struct Heading {
    x: i64,
    y: i64,
}

impl View for Heading {
    type V = Point;

    closed spec fn view(&self) -> Point {
        Point { x: self.x as int, y: self.y as int }
    }
}

/// The vector scaled to unit length. The caller passes a vector that is at
/// least `HEADING_ONE` long, so that no precision is lost.
fn normalize(x: i128, y: i128) -> (out: Heading)
    requires
        -0x4000_0000_0000_0000 <= x <= 0x4000_0000_0000_0000,
        -0x4000_0000_0000_0000 <= y <= 0x4000_0000_0000_0000,
        norm2(Point { x: x as int, y: y as int }) >= UNIT_NORM,
    ensures
        out@ == normalized(Point { x: x as int, y: y as int }),
        is_unit(out@),
{
    let ghost v = Point { x: x as int, y: y as int };
    assert(0 <= x * x <= 0x4000_0000_0000_0000 * 0x4000_0000_0000_0000) by (nonlinear_arith)
        requires
            -0x4000_0000_0000_0000 <= x <= 0x4000_0000_0000_0000,
    ;
    assert(0 <= y * y <= 0x4000_0000_0000_0000 * 0x4000_0000_0000_0000) by (nonlinear_arith)
        requires
            -0x4000_0000_0000_0000 <= y <= 0x4000_0000_0000_0000,
    ;
    let m: u128 = (x * x) as u128 + (y * y) as u128;
    let n = integer_sqrt(m);
    proof {
        assert(1073741824 * 1073741824 == 1152921504606846976) by (nonlinear_arith);
        lemma_isqrt_at_least(m as int, 1073741824);
        lemma_normalized_is_unit(v);
    }
    assert(-0x4000_0000_0000_0000 * 1073741824 <= x * HEADING_ONE <= 0x4000_0000_0000_0000
        * 1073741824) by (nonlinear_arith)
        requires
            -0x4000_0000_0000_0000 <= x <= 0x4000_0000_0000_0000,
    ;
    assert(-0x4000_0000_0000_0000 * 1073741824 <= y * HEADING_ONE <= 0x4000_0000_0000_0000
        * 1073741824) by (nonlinear_arith)
        requires
            -0x4000_0000_0000_0000 <= y <= 0x4000_0000_0000_0000,
    ;
    let hx = div_round_zero(x * (HEADING_ONE as i128), n as i128);
    let hy = div_round_zero(y * (HEADING_ONE as i128), n as i128);
    Heading { x: hx as i64, y: hy as i64 }
}

impl Heading {
    #[verifier::type_invariant]
    spec fn inv(self) -> bool {
        is_unit(self@)
    }

    /// The heading along the positive horizontal axis.
    pub fn east() -> (h: Heading)
        ensures
            h@ == (Point { x: HEADING_ONE as int, y: 0 }),
            is_unit(h@),
    {
        assert(1073741824 * 1073741824 == 1152921504606846976) by (nonlinear_arith);
        Heading { x: HEADING_ONE, y: 0 }
    }

    /// The heading that points along `(x, y)`, or nothing for the zero vector,
    /// which points nowhere.
    pub fn from_vector(x: i32, y: i32) -> (out: Option<Heading>)
        ensures
            out.is_some() <==> (x != 0 || y != 0),
            out matches Some(h) ==> h@ == normalized(
                Point { x: x * 0x8000_0000, y: y * 0x8000_0000 },
            ) && is_unit(h@),
    {
        if x == 0 && y == 0 {
            return None;
        }
        let sx: i128 = (x as i128) * 0x8000_0000;
        let sy: i128 = (y as i128) * 0x8000_0000;
        assert(sx * sx + sy * sy >= 1152921504606846976) by (nonlinear_arith)
            requires
                sx == x * 0x8000_0000,
                sy == y * 0x8000_0000,
                x != 0 || y != 0,
        ;
        Some(normalize(sx, sy))
    }

    /// The heading with exactly the components `(x, y)`, or nothing when they
    /// do not make a vector of unit length.
    pub fn from_unit(x: i64, y: i64) -> (out: Option<Heading>)
        ensures
            out.is_some() <==> is_unit(Point { x: x as int, y: y as int }),
            out matches Some(h) ==> h@ == (Point { x: x as int, y: y as int }),
    {
        let ghost v = Point { x: x as int, y: y as int };
        if x > HEADING_ONE + 1 || x < -(HEADING_ONE + 1) || y > HEADING_ONE + 1 || y < -(
        HEADING_ONE + 1) {
            proof {
                if is_unit(v) {
                    lemma_unit_bounds(v);
                }
            }
            return None;
        }
        proof {
            lemma_square_le(if x >= 0 { x as int } else { -x as int }, 1073741825);
            lemma_square_le(if y >= 0 { y as int } else { -y as int }, 1073741825);
            assert((-x) * (-x) == x * x && (-y) * (-y) == y * y) by (nonlinear_arith);
            assert(1073741825 * 1073741825 == 1152921506754330625) by (nonlinear_arith);
            assert(x * x >= 0 && y * y >= 0) by (nonlinear_arith);
        }
        let n: i128 = (x as i128) * (x as i128) + (y as i128) * (y as i128);
        if n < UNIT_NORM_MIN as i128 || n > UNIT_NORM_MAX as i128 {
            None
        } else {
            Some(Heading { x, y })
        }
    }

    /// The horizontal component, in units of `1 / HEADING_ONE`.
    pub fn x(&self) -> (v: i64)
        ensures
            v == self@.x,
            is_unit(self@),
            -(HEADING_ONE + 1) <= v <= HEADING_ONE + 1,
    {
        proof {
            use_type_invariant(self);
            lemma_unit_bounds(self@);
        }
        self.x
    }

    /// The vertical component, in units of `1 / HEADING_ONE`.
    pub fn y(&self) -> (v: i64)
        ensures
            v == self@.y,
            is_unit(self@),
            -(HEADING_ONE + 1) <= v <= HEADING_ONE + 1,
    {
        proof {
            use_type_invariant(self);
            lemma_unit_bounds(self@);
        }
        self.y
    }

    /// This heading turned by the angle of `by`: counter-clockwise where `by`
    /// points above the horizontal axis.
    pub fn rotate(&self, by: &Heading) -> (out: Heading)
        ensures
            out@ == rotated(self@, by@),
            is_unit(out@),
    {
        let hx = self.x() as i128;
        let hy = self.y() as i128;
        let tx = by.x() as i128;
        let ty = by.y() as i128;
        proof {
            lemma_turned_raw_norm(self@, by@);
            lemma_rotation_preserves_unit_length(self@, by@);
            let a = norm2(self@);
            let b = norm2(by@);
            assert(a * b >= 1152921504606846976) by (nonlinear_arith)
                requires
                    a >= 1152921498164396041,
                    b >= 1152921498164396041,
            ;
        }
        assert(-1073741825 * 1073741825 <= hx * tx <= 1073741825 * 1073741825) by (nonlinear_arith)
            requires
                -1073741825 <= hx <= 1073741825,
                -1073741825 <= tx <= 1073741825,
        ;
        assert(-1073741825 * 1073741825 <= hy * ty <= 1073741825 * 1073741825) by (nonlinear_arith)
            requires
                -1073741825 <= hy <= 1073741825,
                -1073741825 <= ty <= 1073741825,
        ;
        assert(-1073741825 * 1073741825 <= hx * ty <= 1073741825 * 1073741825) by (nonlinear_arith)
            requires
                -1073741825 <= hx <= 1073741825,
                -1073741825 <= ty <= 1073741825,
        ;
        assert(-1073741825 * 1073741825 <= hy * tx <= 1073741825 * 1073741825) by (nonlinear_arith)
            requires
                -1073741825 <= hy <= 1073741825,
                -1073741825 <= tx <= 1073741825,
        ;
        normalize(hx * tx - hy * ty, hx * ty + hy * tx)
    }

    /// The opposite turn: this vector mirrored at the horizontal axis.
    pub fn mirror(&self) -> (out: Heading)
        ensures
            out@ == mirrored(self@),
            is_unit(out@),
    {
        let x = self.x();
        let y = self.y();
        proof {
            lemma_mirror_and_quarter_turn_keep_length(self@);
        }
        Heading { x, y: -y }
    }

    /// This heading turned left by a quarter turn, exactly.
    pub fn quarter_turn_left(&self) -> (out: Heading)
        ensures
            out@ == quarter_left(self@),
            is_unit(out@),
    {
        let x = self.x();
        let y = self.y();
        proof {
            lemma_mirror_and_quarter_turn_keep_length(self@);
        }
        Heading { x: -y, y: x }
    }
}

} // verus!
