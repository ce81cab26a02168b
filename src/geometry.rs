use vstd::prelude::*;

verus! {

/// Length of a unit direction vector in fixed point: a heading `(cos a, sin a)`
/// is held as `(round(cos a * DIR_SCALE), round(sin a * DIR_SCALE))`.
pub const DIR_SCALE: i64 = 65536;

/// Largest magnitude of a world coordinate that the library accepts.
pub const COORD_LIMIT: i64 = 68719476736;

/// A point or vector in world units (or, for a heading, in `DIR_SCALE` units).
#[derive(Debug, Clone, Copy, PartialEq, Eq, Structural)]
pub struct Vec2 {
    pub x: i64,
    pub y: i64,
}

impl Vec2 {
    pub fn new(x: i64, y: i64) -> (r: Vec2)
        ensures
            r.x == x,
            r.y == y,
    {
        Vec2 { x, y }
    }
}

/// A world coordinate small enough that the library's products cannot overflow.
pub open spec fn coord_ok(c: int) -> bool {
    -COORD_LIMIT <= c <= COORD_LIMIT
}

pub open spec fn point_ok(p: Vec2) -> bool {
    coord_ok(p.x as int) && coord_ok(p.y as int)
}

/// A heading: each component lies within one unit of `DIR_SCALE`.
pub open spec fn dir_ok(d: Vec2) -> bool {
    -DIR_SCALE <= d.x <= DIR_SCALE && -DIR_SCALE <= d.y <= DIR_SCALE
}

pub open spec fn abs(a: int) -> int {
    if a < 0 { -a } else { a }
}

/// Squared Euclidean distance between two points.
pub open spec fn dist_sq(a: Vec2, b: Vec2) -> int {
    (a.x - b.x) * (a.x - b.x) + (a.y - b.y) * (a.y - b.y)
}

/// Division rounded toward negative infinity.
pub fn floor_div(a: i64, b: i64) -> (r: i64)
    requires
        b > 0,
        a > i64::MIN,
    ensures
        r == a as int / b as int,
{
    if a >= 0 {
        a / b
    } else {
        let q = (-a - 1) / b;
        assert((-a - 1) as int / b as int == q);
        proof {
            lemma_floor_of_negative(a as int, b as int);
        }
        -q - 1
    }
}

/// Division rounded toward negative infinity, on wide integers.
pub fn floor_div_wide(a: i128, b: i128) -> (r: i128)
    requires
        b > 0,
        a > i128::MIN,
    ensures
        r == a as int / b as int,
{
    if a >= 0 {
        a / b
    } else {
        let q = (-a - 1) / b;
        proof {
            lemma_floor_of_negative(a as int, b as int);
        }
        -q - 1
    }
}

proof fn lemma_floor_of_negative(a: int, b: int)
    requires
        a < 0,
        b > 0,
    ensures
        a / b == -((-a - 1) / b) - 1,
{
    let q = (-a - 1) / b;
    let r = (-a - 1) % b;
    assert(-a - 1 == q * b + r && 0 <= r < b) by (nonlinear_arith)
        requires
            q == (-a - 1) / b,
            r == (-a - 1) % b,
            b > 0,
    {
        vstd::arithmetic::div_mod::lemma_fundamental_div_mod(-a - 1, b);
    }
    assert(a == (-q - 1) * b + (b - 1 - r)) by (nonlinear_arith)
        requires
            -a - 1 == q * b + r,
    {}
    vstd::arithmetic::div_mod::lemma_fundamental_div_mod_converse_div(a, b, -q - 1, b - 1 - r);
}

/// Squared Euclidean distance between two points, exactly.
pub fn distance_squared(a: Vec2, b: Vec2) -> (r: i128)
    requires
        point_ok(a),
        point_ok(b),
    ensures
        r == dist_sq(a, b),
{
    let dx = a.x as i128 - b.x as i128;
    let dy = a.y as i128 - b.y as i128;
    assert(dx * dx <= 0x4000000000000000000) by (nonlinear_arith)
        requires
            -0x2000000000 <= dx <= 0x2000000000,
    {}
    assert(dy * dy <= 0x4000000000000000000) by (nonlinear_arith)
        requires
            -0x2000000000 <= dy <= 0x2000000000,
    {}
    assert(dx * dx >= 0 && dy * dy >= 0) by (nonlinear_arith);
    dx * dx + dy * dy
}

/// The integer square root of `n >= 0`: the largest `r` with `r * r <= n`.
pub open spec fn floor_sqrt(n: int) -> int {
    choose|r: int| #[trigger] is_sqrt_floor(n, r)
}

pub open spec fn is_sqrt_floor(n: int, r: int) -> bool {
    0 <= r && r * r <= n < (r + 1) * (r + 1)
}

/// `floor_sqrt` is the one root that brackets `n`.
pub proof fn lemma_floor_sqrt_unique(n: int, r: int)
    requires
        0 <= r,
        r * r <= n < (r + 1) * (r + 1),
    ensures
        floor_sqrt(n) == r,
{
    assert(is_sqrt_floor(n, r));
    let q = floor_sqrt(n);
    assert(is_sqrt_floor(n, q));
    if q < r {
        assert((q + 1) * (q + 1) <= r * r) by (nonlinear_arith)
            requires
                0 <= q < r,
        ;
    }
    if r < q {
        assert((r + 1) * (r + 1) <= q * q) by (nonlinear_arith)
            requires
                0 <= r < q,
        ;
    }
}

/// The integer square root: the largest `r` with `r * r <= n`.
pub fn isqrt(n: u128) -> (r: u64)
    ensures
        r * r <= n < (r + 1) * (r + 1),
        r == floor_sqrt(n as int),
{
    let mut lo: u128 = 0;
    let mut hi: u128 = 0x1_0000_0000_0000_0000;
    assert(hi * hi > u128::MAX) by (nonlinear_arith)
        requires
            hi == 0x1_0000_0000_0000_0000u128,
    ;
    while hi - lo > 1
        invariant
            lo < hi <= 0x1_0000_0000_0000_0000,
            lo * lo <= n,
            n < hi * hi,
        decreases hi - lo,
    {
        let mid = lo + (hi - lo) / 2;
        assert(lo < mid < hi);
        if mid <= 0xFFFF_FFFF_FFFF_FFFF {
            assert(mid * mid <= 0xFFFF_FFFF_FFFF_FFFF * 0xFFFF_FFFF_FFFF_FFFF) by (nonlinear_arith)
                requires
                    mid <= 0xFFFF_FFFF_FFFF_FFFF,
            ;
        }
        if mid <= 0xFFFF_FFFF_FFFF_FFFF && mid * mid <= n {
            lo = mid;
        } else {
            if mid > 0xFFFF_FFFF_FFFF_FFFF {
                assert(mid * mid > n) by (nonlinear_arith)
                    requires
                        mid >= 0x1_0000_0000_0000_0000,
                        n <= u128::MAX,
                ;
            }
            hi = mid;
        }
    }
    assert(lo < 0x1_0000_0000_0000_0000);
    assert(hi == lo + 1);
    proof {
        lemma_floor_sqrt_unique(n as int, lo as int);
    }
    lo as u64
}

/// The distance between two points, rounded down.
pub fn distance(a: Vec2, b: Vec2) -> (r: u64)
    requires
        point_ok(a),
        point_ok(b),
    ensures
        r * r <= dist_sq(a, b) < (r + 1) * (r + 1),
        r == floor_sqrt(dist_sq(a, b)),
{
    let d = distance_squared(a, b);
    assert(d >= 0) by (nonlinear_arith)
        requires
            d == dist_sq(a, b),
    ;
    isqrt(d as u128)
}

} // verus!
