use vstd::prelude::*;
use crate::measurement::{coord_in_range, RADIUS_LIMIT};

verus! {

/// A point of the plane, in thousandths of a unit.
#[derive(Clone, Copy, Debug, PartialEq, Eq)]
pub struct Point {
    pub x: i64,
    pub y: i64,
}

/// A circle around a measuring position whose radius is the estimated range.
#[derive(Clone, Copy, Debug, PartialEq, Eq)]
pub struct Circle {
    pub center: Point,
    pub radius: u64,
}

/// The largest `r` with `r * r <= n` (zero for negative `n`).
pub open spec fn floor_sqrt(n: int) -> int
    decreases n,
{
    if n <= 0 {
        0
    } else {
        let r = floor_sqrt(n - 1);
        if (r + 1) * (r + 1) <= n {
            r + 1
        } else {
            r
        }
    }
}

pub open spec fn is_floor_sqrt(n: int, r: int) -> bool {
    0 <= r && r * r <= n && n < (r + 1) * (r + 1)
}

pub proof fn lemma_floor_sqrt(n: int)
    requires
        n >= 0,
    ensures
        is_floor_sqrt(n, floor_sqrt(n)),
    decreases n,
{
    if n > 0 {
        lemma_floor_sqrt(n - 1);
        let r = floor_sqrt(n - 1);
        assert(n < (r + 2) * (r + 2)) by (nonlinear_arith)
            requires n - 1 < (r + 1) * (r + 1), r >= 0;
    }
}

pub proof fn lemma_floor_sqrt_unique(n: int, a: int, b: int)
    requires
        is_floor_sqrt(n, a),
        is_floor_sqrt(n, b),
    ensures
        a == b,
{
    if a < b {
        assert((a + 1) * (a + 1) <= b * b) by (nonlinear_arith)
            requires 0 <= a, a + 1 <= b;
    } else if b < a {
        assert((b + 1) * (b + 1) <= a * a) by (nonlinear_arith)
            requires 0 <= b, b + 1 <= a;
    }
}

/// Integer square root, rounded down.
pub fn int_sqrt(n: u128) -> (r: u128)
    ensures
        r as int == floor_sqrt(n as int),
        r < 0x1_0000_0000_0000_0000u128,
{
    let mut lo: u128 = 0;
    let mut hi: u128 = 0x1_0000_0000_0000_0000;
    assert(n < hi * hi) by (nonlinear_arith)
        requires hi == 0x1_0000_0000_0000_0000u128, n < 0x1_0000_0000_0000_0000_0000_0000_0000_0000;
    while hi - lo > 1
        invariant
            lo < hi <= 0x1_0000_0000_0000_0000u128,
            lo * lo <= n,
            n < hi * hi,
        decreases hi - lo,
    {
        let mid: u128 = lo + (hi - lo) / 2;
        assert(mid * mid < 0x1_0000_0000_0000_0000_0000_0000_0000_0000) by (nonlinear_arith)
            requires mid < 0x1_0000_0000_0000_0000u128;
        if mid * mid <= n {
            lo = mid;
        } else {
            hi = mid;
        }
    }
    proof {
        assert(hi == lo + 1);
        lemma_floor_sqrt(n as int);
        lemma_floor_sqrt_unique(n as int, lo as int, floor_sqrt(n as int));
    }
    lo
}

pub open spec fn sq(v: int) -> int {
    v * v
}

/// Squared distance between the centers.
pub open spec fn center_gap_sq(c1: Circle, c2: Circle) -> int {
    sq(c2.center.x - c1.center.x) + sq(c2.center.y - c1.center.y)
}

/// The two circles have distinct centers and meet in at least one point:
/// `|r1 - r2| <= d <= r1 + r2`.
pub open spec fn circles_meet(c1: Circle, c2: Circle) -> bool {
    let d2 = center_gap_sq(c1, c2);
    d2 > 0 && sq(c1.radius - c2.radius) <= d2 && d2 <= sq(c1.radius + c2.radius)
}

/// `2 * a * d`, where `a` is the distance from the first center to the chord.
pub open spec fn chord_offset(c1: Circle, c2: Circle) -> int {
    sq(c1.radius as int) - sq(c2.radius as int) + center_gap_sq(c1, c2)
}

/// `(2 * h * d)^2`, where `h` is the half length of the chord.
pub open spec fn half_chord_sq(c1: Circle, c2: Circle) -> int {
    4 * sq(c1.radius as int) * center_gap_sq(c1, c2) - sq(chord_offset(c1, c2))
}

/// The intersection point to the right of the line from the first center to
/// the second, `p0 + h * (dy, -dx) / d`, each coordinate rounded down.
pub open spec fn intersection_x(c1: Circle, c2: Circle) -> int {
    let dx = c2.center.x - c1.center.x;
    let dy = c2.center.y - c1.center.y;
    let h = floor_sqrt(half_chord_sq(c1, c2));
    c1.center.x + (chord_offset(c1, c2) * dx + h * dy) / (2 * center_gap_sq(c1, c2))
}

pub open spec fn intersection_y(c1: Circle, c2: Circle) -> int {
    let dx = c2.center.x - c1.center.x;
    let dy = c2.center.y - c1.center.y;
    let h = floor_sqrt(half_chord_sq(c1, c2));
    c1.center.y + (chord_offset(c1, c2) * dy - h * dx) / (2 * center_gap_sq(c1, c2))
}

/// A circle that the intersection arithmetic accepts.
pub open spec fn circle_in_range(c: Circle) -> bool {
    coord_in_range(c.center.x) && coord_in_range(c.center.y) && c.radius <= RADIUS_LIMIT
}


/// The half-chord term factors into the two feasibility margins.
proof fn lemma_half_chord_factors(r1: int, r2: int, d2: int)
    ensures
        4 * sq(r1) * d2 - sq(sq(r1) - sq(r2) + d2) == (sq(r1 + r2) - d2) * (d2 - sq(r1 - r2)),
{
    assert(4 * (r1 * r1) * d2 - (r1 * r1 - r2 * r2 + d2) * (r1 * r1 - r2 * r2 + d2)
        == ((r1 + r2) * (r1 + r2) - d2) * (d2 - (r1 - r2) * (r1 - r2))) by (nonlinear_arith);
}

/// The magnitude of `k * u + h * v` is at most `2 * r * d2` when
/// `k^2 + h^2 <= 4 * r^2 * d2` and `u^2 + v^2 == d2`.
proof fn lemma_projection_bound(k: int, h: int, u: int, v: int, r: int, d2: int)
    requires
        r >= 0,
        d2 == u * u + v * v,
        k * k + h * h <= 4 * (r * r) * d2,
    ensures
        -(2 * r * d2) <= k * u + h * v <= 2 * r * d2,
{
    let n = k * u + h * v;
    let m = k * v - h * u;
    let a = k * u;
    let b = h * v;
    let c = k * v;
    let e = h * u;
    assert(n * n == a * a + 2 * (a * b) + b * b) by (nonlinear_arith)
        requires n == a + b;
    assert(m * m == c * c - 2 * (c * e) + e * e) by (nonlinear_arith)
        requires m == c - e;
    assert(a * b == c * e) by (nonlinear_arith)
        requires a == k * u, b == h * v, c == k * v, e == h * u;
    assert(a * a + c * c == (k * k) * d2) by (nonlinear_arith)
        requires a == k * u, c == k * v, d2 == u * u + v * v;
    assert(b * b + e * e == (h * h) * d2) by (nonlinear_arith)
        requires b == h * v, e == h * u, d2 == u * u + v * v;
    assert((k * k + h * h) * d2 == (k * k) * d2 + (h * h) * d2) by (nonlinear_arith);
    assert(n * n + m * m == (k * k + h * h) * d2);
    assert(d2 >= 0) by (nonlinear_arith)
        requires d2 == u * u + v * v;
    assert((k * k + h * h) * d2 <= 4 * (r * r) * d2 * d2) by (nonlinear_arith)
        requires k * k + h * h <= 4 * (r * r) * d2, d2 >= 0;
    assert(m * m >= 0) by (nonlinear_arith);
    let b = 2 * r * d2;
    assert(b >= 0) by (nonlinear_arith)
        requires r >= 0, d2 >= 0, b == 2 * r * d2;
    assert(n * n <= b * b) by (nonlinear_arith)
        requires n * n + m * m <= 4 * (r * r) * d2 * d2, m * m >= 0, b == 2 * r * d2;
    assert(-b <= n <= b) by (nonlinear_arith)
        requires n * n <= b * b, b >= 0;
}

/// Division rounded towards negative infinity.
fn floor_div(n: i128, d: i128) -> (q: i128)
    requires
        d > 0,
        n > i128::MIN,
    ensures
        q == n / d,
{
    if n >= 0 {
        n / d
    } else {
        let m: i128 = -n - 1;
        let t: i128 = m / d;
        proof {
            let ni = n as int;
            let di = d as int;
            let ti = t as int;
            let rm = m as int % di;
            assert(m as int == ti * di + rm && 0 <= rm < di) by (nonlinear_arith)
                requires ti == (m as int) / di, rm == (m as int) % di, di > 0;
            assert(ni == (-ti - 1) * di + (di - 1 - rm)) by (nonlinear_arith)
                requires m as int == ti * di + rm, m as int == -ni - 1;
            vstd::arithmetic::div_mod::lemma_fundamental_div_mod_converse(
                ni, di, -ti - 1, di - 1 - rm);
        }
        -t - 1
    }
}

/// Intersects two circles. `None` when the centers coincide or the circles
/// do not meet; otherwise the intersection point that lies to the right of
/// the line from the first center to the second (the only one when the
/// circles touch).
pub fn find_circle_intersection(circle1: &Circle, circle2: &Circle) -> (r: Option<Point>)
    requires
        circle_in_range(*circle1),
        circle_in_range(*circle2),
    ensures
        r is Some <==> circles_meet(*circle1, *circle2),
        r matches Some(p) ==> p.x == intersection_x(*circle1, *circle2)
            && p.y == intersection_y(*circle1, *circle2),
{
    let x1 = circle1.center.x as i128;
    let y1 = circle1.center.y as i128;
    let dx: i128 = circle2.center.x as i128 - x1;
    let dy: i128 = circle2.center.y as i128 - y1;
    let r1 = circle1.radius as i128;
    let r2 = circle2.radius as i128;
    assert(0 <= dx * dx <= 1000000000000000000 && 0 <= dy * dy <= 1000000000000000000)
        by (nonlinear_arith)
        requires -1000000000 <= dx <= 1000000000, -1000000000 <= dy <= 1000000000;
    let d2: i128 = dx * dx + dy * dy;
    let sum: i128 = r1 + r2;
    let diff: i128 = r1 - r2;
    assert(0 <= sum * sum <= 4000000000000000000 && 0 <= diff * diff <= 1000000000000000000
        && 0 <= r1 * r1 <= 1000000000000000000 && 0 <= r2 * r2 <= 1000000000000000000)
        by (nonlinear_arith)
        requires 0 <= r1 <= 1000000000, 0 <= r2 <= 1000000000, sum == r1 + r2, diff == r1 - r2;
    if d2 == 0 || d2 > sum * sum || d2 < diff * diff {
        return None;
    }
    let k: i128 = r1 * r1 - r2 * r2 + d2;
    let outer: i128 = sum * sum - d2;
    let inner: i128 = d2 - diff * diff;
    assert(0 <= outer * inner <= 8000000000000000000000000000000000000) by (nonlinear_arith)
        requires 0 <= outer <= 4000000000000000000, 0 <= inner <= 2000000000000000000;
    let disc: i128 = outer * inner;
    proof {
        lemma_half_chord_factors(r1 as int, r2 as int, d2 as int);
        assert(disc == 4 * (r1 * r1) * d2 - k * k);
        assert(disc == half_chord_sq(*circle1, *circle2));
    }
    let h: i128 = int_sqrt(disc as u128) as i128;
    proof {
        lemma_floor_sqrt(disc as int);
        assert(h * h <= disc);
        assert(k * k + h * h <= 4 * (r1 * r1) * d2);
        assert((-h) * (-h) == h * h && (-h) * dx == -(h * dx)) by (nonlinear_arith);
        lemma_projection_bound(k as int, h as int, dx as int, dy as int, r1 as int, d2 as int);
        lemma_projection_bound(k as int, -(h as int), dy as int, dx as int, r1 as int, d2 as int);
        assert(-30000000000000000000000000000 <= k * dx <= 30000000000000000000000000000
            && -30000000000000000000000000000 <= k * dy <= 30000000000000000000000000000)
            by (nonlinear_arith)
            requires -1000000000000000000 <= k <= 3000000000000000000,
                -1000000000 <= dx <= 1000000000, -1000000000 <= dy <= 1000000000;
        assert(-20000000000000000000000000000 <= h * dx <= 20000000000000000000000000000
            && -20000000000000000000000000000 <= h * dy <= 20000000000000000000000000000)
            by (nonlinear_arith)
            requires 0 <= h <= 0x1_0000_0000_0000_0000, -1000000000 <= dx <= 1000000000,
                -1000000000 <= dy <= 1000000000;
    }
    let nx: i128 = k * dx + h * dy;
    let ny: i128 = k * dy - h * dx;
    let den: i128 = 2 * d2;
    let qx = floor_div(nx, den);
    let qy = floor_div(ny, den);
    proof {
        assert(-r1 <= qx <= r1 && -r1 <= qy <= r1) by (nonlinear_arith)
            requires qx == nx / den, qy == ny / den, den == 2 * d2, d2 > 0, r1 >= 0,
                -(2 * r1 * d2) <= nx <= 2 * r1 * d2, -(2 * r1 * d2) <= ny <= 2 * r1 * d2;
    }
    Some(Point { x: (x1 + qx) as i64, y: (y1 + qy) as i64 })
}

} // verus!
