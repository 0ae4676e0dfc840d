//! Plane geometry over integer coordinates.
//!
//! Coordinates are in thousandths of a world unit, so that one world unit is
//! 1000.  Every position handled by the combat core stays within
//! `COORD_LIMIT` of the origin in each axis, which keeps every squared
//! distance inside an `i64`.

use vstd::prelude::*;

verus! {

/// Largest coordinate magnitude the combat core handles (one million world
/// units from the origin).
pub const COORD_LIMIT: i64 = 1_000_000_000;

/// A point or direction in the plane, in thousandths of a world unit.
#[derive(Clone, Copy, PartialEq, Eq, Structural, Debug)]
pub struct Vec2 {
    pub x: i64,
    pub y: i64,
}

impl Vec2 {
    pub open spec fn in_bounds(self) -> bool {
        &&& -COORD_LIMIT <= self.x <= COORD_LIMIT
        &&& -COORD_LIMIT <= self.y <= COORD_LIMIT
    }

    pub fn new(x: i64, y: i64) -> (v: Vec2)
        ensures
            v == (Vec2 { x, y }),
    {
        Vec2 { x, y }
    }

    pub open spec fn is_zero(self) -> bool {
        self.x == 0 && self.y == 0
    }
}

/// Division that rounds toward zero, as the hardware division of the
/// executable code does.
pub open spec fn tdiv(a: int, b: int) -> int
    recommends
        b >= 1,
{
    if a >= 0 {
        a / b
    } else {
        -((-a) / b)
    }
}

/// `tdiv` never rounds past zero nor away from it: the quotient lies between
/// zero and the dividend.
pub proof fn lemma_tdiv_bounds(a: int, b: int)
    requires
        b >= 1,
    ensures
        a >= 0 ==> 0 <= tdiv(a, b) <= a,
        a < 0 ==> a <= tdiv(a, b) <= 0,
{
    if a >= 0 {
        vstd::arithmetic::div_mod::lemma_div_pos_is_pos(a, b);
        vstd::arithmetic::div_mod::lemma_div_nonincreasing(a, b);
    } else {
        vstd::arithmetic::div_mod::lemma_div_pos_is_pos(-a, b);
        vstd::arithmetic::div_mod::lemma_div_nonincreasing(-a, b);
    }
}

/// Truncating division of an `i64` by a positive divisor.
pub fn div_trunc(a: i64, b: i64) -> (r: i64)
    requires
        b >= 1,
        a > i64::MIN,
    ensures
        r == tdiv(a as int, b as int),
        a >= 0 ==> 0 <= r <= a,
        a < 0 ==> a <= r <= 0,
{
    proof {
        lemma_tdiv_bounds(a as int, b as int);
    }
    if a >= 0 {
        a / b
    } else {
        -((-a) / b)
    }
}

/// The squared distance between two points, exact in `int`.
pub open spec fn dist_sq_spec(a: Vec2, b: Vec2) -> int {
    (a.x - b.x) * (a.x - b.x) + (a.y - b.y) * (a.y - b.y)
}

/// The squared distance of two in-bound points fits comfortably in an `i64`.
pub proof fn lemma_dist_sq_range(a: Vec2, b: Vec2)
    requires
        a.in_bounds(),
        b.in_bounds(),
    ensures
        0 <= dist_sq_spec(a, b) <= 8_000_000_000_000_000_000,
{
    let dx = a.x - b.x;
    let dy = a.y - b.y;
    assert(0 <= dx * dx <= 4_000_000_000_000_000_000) by (nonlinear_arith)
        requires
            -2_000_000_000 <= dx <= 2_000_000_000,
    ;
    assert(0 <= dy * dy <= 4_000_000_000_000_000_000) by (nonlinear_arith)
        requires
            -2_000_000_000 <= dy <= 2_000_000_000,
    ;
}

pub fn dist_sq(a: Vec2, b: Vec2) -> (r: i64)
    requires
        a.in_bounds(),
        b.in_bounds(),
    ensures
        r == dist_sq_spec(a, b),
{
    proof {
        lemma_dist_sq_range(a, b);
        let dx = a.x - b.x;
        let dy = a.y - b.y;
        assert(0 <= dx * dx <= 4_000_000_000_000_000_000) by (nonlinear_arith)
            requires
                -2_000_000_000 <= dx <= 2_000_000_000,
        ;
        assert(0 <= dy * dy <= 4_000_000_000_000_000_000) by (nonlinear_arith)
            requires
                -2_000_000_000 <= dy <= 2_000_000_000,
        ;
    }
    let dx = a.x - b.x;
    let dy = a.y - b.y;
    dx * dx + dy * dy
}

/// `r` is the integer square root of `n`, rounded down.
pub open spec fn is_sqrt_floor(n: int, r: int) -> bool {
    0 <= r && r * r <= n < (r + 1) * (r + 1)
}

/// The non-negative integer square root, rounded down.  Unique, so `choose`
/// picks it whenever it exists; `isqrt` below proves that it always does.
pub open spec fn sqrt_floor(n: int) -> int {
    choose|r: int| is_sqrt_floor(n, r)
}

/// No two distinct non-negative integers both square to at most `n` with
/// their successors squaring past `n`.
pub proof fn lemma_sqrt_floor_unique(n: int, r1: int, r2: int)
    by (nonlinear_arith)
    requires
        0 <= r1,
        r1 * r1 <= n < (r1 + 1) * (r1 + 1),
        0 <= r2,
        r2 * r2 <= n < (r2 + 1) * (r2 + 1),
    ensures
        r1 == r2,
{
}

/// The integer square root of `n`, rounded down.
pub fn isqrt(n: u64) -> (r: u64)
    ensures
        0 <= r,
        r * r <= n < (r + 1) * (r + 1),
        r == sqrt_floor(n as int),
{
    let mut lo: u64 = 0;
    let mut hi: u64 = 4_294_967_295;
    proof {
        assert(n < (4_294_967_295u64 + 1) * (4_294_967_295u64 + 1)) by (nonlinear_arith)
            requires
                n <= u64::MAX,
        ;
    }
    while lo < hi
        invariant
            lo <= hi <= 4_294_967_295,
            lo * lo <= n,
            n < (hi + 1) * (hi + 1),
        decreases hi - lo,
    {
        let mid = lo + (hi - lo + 1) / 2;
        proof {
            assert(mid * mid <= u64::MAX) by (nonlinear_arith)
                requires
                    0 <= mid <= 4_294_967_295u64,
            ;
        }
        if mid * mid <= n {
            lo = mid;
        } else {
            hi = mid - 1;
        }
    }
    proof {
        assert(is_sqrt_floor(n as int, lo as int));
        assert(is_sqrt_floor(n as int, sqrt_floor(n as int)));
        lemma_sqrt_floor_unique(n as int, lo as int, sqrt_floor(n as int));
    }
    lo
}

/// The length of `d`, rounded down: what the aim vector is divided by when
/// it is rescaled to a fixed speed.
pub open spec fn length_floor(d: Vec2) -> int {
    sqrt_floor(d.x * d.x + d.y * d.y)
}

/// `d` rescaled so that its length is close to `speed`: each component is
/// multiplied by `speed` and divided, rounding toward zero, by the rounded
/// length of `d`.
pub open spec fn scaled_spec(d: Vec2, speed: int) -> Vec2 {
    let len = length_floor(d);
    Vec2 { x: tdiv(d.x * speed, len) as i64, y: tdiv(d.y * speed, len) as i64 }
}

/// Rescale the non-zero direction `d` to the given speed.
pub fn scale_to_speed(d: Vec2, speed: i64) -> (v: Vec2)
    requires
        -2_000_000_000 <= d.x <= 2_000_000_000,
        -2_000_000_000 <= d.y <= 2_000_000_000,
        !d.is_zero(),
        1 <= speed <= 3_000_000,
    ensures
        v == scaled_spec(d, speed as int),
{
    proof {
        assert(0 <= d.x * d.x <= 4_000_000_000_000_000_000 && 0 <= d.y * d.y
            <= 4_000_000_000_000_000_000 && d.x * d.x + d.y * d.y >= 1) by (nonlinear_arith)
            requires
                -2_000_000_000 <= d.x <= 2_000_000_000,
                -2_000_000_000 <= d.y <= 2_000_000_000,
                !(d.x == 0 && d.y == 0),
        ;
    }
    let dx = d.x;
    let dy = d.y;
    let nsq: u64 = (dx * dx) as u64 + (dy * dy) as u64;
    let len_u: u64 = isqrt(nsq);
    proof {
        assert(len_u >= 1) by {
            assert(len_u * len_u <= nsq < (len_u + 1) * (len_u + 1));
            if len_u == 0 {
                assert(nsq < 1);
            }
        }
        assert(len_u * len_u <= 8_000_000_000_000_000_000);
        assert(len_u <= 3_000_000_000) by (nonlinear_arith)
            requires
                len_u * len_u <= 8_000_000_000_000_000_000u64,
        ;
        assert(-6_000_000_000_000_000 <= dx * speed <= 6_000_000_000_000_000
            && -6_000_000_000_000_000 <= dy * speed <= 6_000_000_000_000_000)
            by (nonlinear_arith)
            requires
                -2_000_000_000 <= dx <= 2_000_000_000,
                -2_000_000_000 <= dy <= 2_000_000_000,
                1 <= speed <= 3_000_000,
        ;
    }
    let len: i64 = len_u as i64;
    let vx = div_trunc(dx * speed, len);
    let vy = div_trunc(dy * speed, len);
    Vec2 { x: vx, y: vy }
}

/// One step of the soft pull toward `target`: each coordinate moves by one
/// hundredth of its distance to the target, rounded toward zero.
pub open spec fn pull_coord(c: int, target: int) -> int {
    c + tdiv(target - c, 100)
}

pub open spec fn attract_spec(pos: Vec2, target: Vec2) -> Vec2 {
    Vec2 {
        x: pull_coord(pos.x as int, target.x as int) as i64,
        y: pull_coord(pos.y as int, target.y as int) as i64,
    }
}

/// The pulled coordinate stays between its old value and the target.
pub proof fn lemma_pull_coord_between(c: int, target: int)
    ensures
        c <= target ==> c <= pull_coord(c, target) <= target,
        target <= c ==> target <= pull_coord(c, target) <= c,
{
    lemma_tdiv_bounds(target - c, 100);
}

/// After one pull, the remaining offset `d - tdiv(d, 100)` is no larger in
/// magnitude than `d`, and strictly smaller once `d` reaches a hundredth of
/// a world unit.
pub proof fn lemma_pull_shrinks(d: int)
    ensures
        d >= 0 ==> 0 <= d - tdiv(d, 100) <= d,
        d < 0 ==> d <= d - tdiv(d, 100) <= 0,
        d >= 100 ==> d - tdiv(d, 100) <= d - 1,
        d <= -100 ==> d - tdiv(d, 100) >= d + 1,
{
    lemma_tdiv_bounds(d, 100);
    vstd::arithmetic::div_mod::lemma_div_by_self(100);
    if d >= 100 {
        vstd::arithmetic::div_mod::lemma_div_is_ordered(100, d, 100);
    }
    if d <= -100 {
        vstd::arithmetic::div_mod::lemma_div_is_ordered(100, -d, 100);
    }
}

/// Squares are monotone in the magnitude of their argument.
proof fn lemma_sq_le(a: int, b: int)
    by (nonlinear_arith)
    requires
        -b <= a <= b,
    ensures
        a * a <= b * b,
{
}

proof fn lemma_sq_lt(a: int, b: int)
    by (nonlinear_arith)
    requires
        1 <= b,
        -(b - 1) <= a <= b - 1,
    ensures
        a * a < b * b,
{
}

/// One attraction step brings a point strictly closer to its target, as long
/// as they are at least a seventh of a world unit apart (so that at least
/// one coordinate offset reaches the rounding granularity of the pull).
pub proof fn lemma_attract_strictly_closer(pos: Vec2, target: Vec2)
    requires
        20_000 <= dist_sq_spec(pos, target),
    ensures
        dist_sq_spec(attract_spec(pos, target), target) < dist_sq_spec(pos, target),
{
    let dx = pos.x - target.x;
    let dy = pos.y - target.y;
    let nx = pull_coord(pos.x as int, target.x as int) - target.x;
    let ny = pull_coord(pos.y as int, target.y as int) - target.y;
    assert(nx == dx - tdiv(dx, 100));
    assert(ny == dy - tdiv(dy, 100));
    lemma_pull_coord_between(pos.x as int, target.x as int);
    lemma_pull_coord_between(pos.y as int, target.y as int);
    assert(attract_spec(pos, target).x == pull_coord(pos.x as int, target.x as int));
    assert(attract_spec(pos, target).y == pull_coord(pos.y as int, target.y as int));
    assert(dist_sq_spec(attract_spec(pos, target), target) == nx * nx + ny * ny);
    lemma_pull_shrinks(dx);
    lemma_pull_shrinks(dy);
    let adx = if dx >= 0 { dx } else { -dx };
    let ady = if dy >= 0 { dy } else { -dy };
    if adx <= 99 && ady <= 99 {
        lemma_sq_le(dx, 99);
        lemma_sq_le(dy, 99);
        assert(dist_sq_spec(pos, target) <= 19_602);
    } else if adx >= 100 {
        lemma_sq_lt(nx, adx);
        lemma_sq_le(ny, ady);
        assert(adx * adx == dx * dx && ady * ady == dy * dy) by (nonlinear_arith)
            requires
                adx == (if dx >= 0 { dx } else { -dx }) && ady == (if dy >= 0 { dy } else { -dy }),
        ;
    } else {
        lemma_sq_lt(ny, ady);
        lemma_sq_le(nx, adx);
        assert(adx * adx == dx * dx && ady * ady == dy * dy) by (nonlinear_arith)
            requires
                adx == (if dx >= 0 { dx } else { -dx }) && ady == (if dy >= 0 { dy } else { -dy }),
        ;
    }
}

/// Move `pos` one attraction step toward `target`.
pub fn attract_step(pos: Vec2, target: Vec2) -> (r: Vec2)
    requires
        pos.in_bounds(),
        target.in_bounds(),
    ensures
        r == attract_spec(pos, target),
        r.in_bounds(),
{
    proof {
        lemma_pull_coord_between(pos.x as int, target.x as int);
        lemma_pull_coord_between(pos.y as int, target.y as int);
    }
    let nx = pos.x + div_trunc(target.x - pos.x, 100);
    let ny = pos.y + div_trunc(target.y - pos.y, 100);
    Vec2 { x: nx, y: ny }
}

} // verus!
