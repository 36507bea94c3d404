use vstd::prelude::*;

verus! {

/// Columns of the grid.
pub const COLUMNS: usize = 6;

/// Rows of the grid.
pub const ROWS: usize = 8;

/// Integer units in one pixel.
pub const UNIT: i64 = 1024;

/// Side of one cell.
pub const SIDE: i64 = 200 * UNIT;

/// Radius of a ball.
pub const RADIUS: i64 = 20 * UNIT;

/// Width of the playing field.
pub const CLIENT_WIDTH: i64 = 6 * SIDE - UNIT;

/// Height of the playing field.
pub const CLIENT_HEIGHT: i64 = 8 * SIDE - UNIT;

/// Speed of a shot ball, per tick.
pub const SPEED: i64 = 50 * UNIT;

/// Drawn size of a special tile.
pub const NUM_SIZE: i64 = 100 * UNIT;

/// Distance from a special tile's center within which a ball triggers it.
pub const TRIGGER_RADIUS: i64 = 50 * UNIT + RADIUS + 10 * UNIT;

/// Speed of the ghost ball that traces the aiming preview.
pub const PREVIEW_SPEED: i64 = 512;

/// A position.
#[derive(Debug, PartialEq, Eq, Structural, Clone, Copy)]
pub struct Point {
    pub x: i64,
    pub y: i64,
}

/// A displacement per tick.
#[derive(Debug, PartialEq, Eq, Structural, Clone, Copy)]
pub struct Vector {
    pub x: i64,
    pub y: i64,
}

impl Point {
    pub fn new(x: i64, y: i64) -> (r: Self)
        ensures
            r == (Point { x, y }),
    {
        Point { x, y }
    }
}

impl Vector {
    pub fn new(x: i64, y: i64) -> (r: Self)
        ensures
            r == (Vector { x, y }),
    {
        Vector { x, y }
    }
}

/// Both components of the velocity are at most a shot's speed.
pub open spec fn speed_ok(v: Vector) -> bool {
    -SPEED <= v.x <= SPEED && -SPEED <= v.y <= SPEED
}

/// `v` limited to `[min, max]`.
pub open spec fn clip_spec(v: int, min: int, max: int) -> int {
    if v < min {
        min
    } else if v > max {
        max
    } else {
        v
    }
}

/// Limits `v` to `[min, max]`.
pub fn clip(v: i64, min: i64, max: i64) -> (r: i64)
    requires
        min <= max,
    ensures
        r == clip_spec(v as int, min as int, max as int),
        min <= r <= max,
{
    if v < min {
        min
    } else if v > max {
        max
    } else {
        v
    }
}

/// `r` is the integer square root of `n`.
pub open spec fn is_isqrt(n: int, r: int) -> bool {
    0 <= r && r * r <= n < (r + 1) * (r + 1)
}

/// The integer square root of `n`.
pub open spec fn isqrt(n: int) -> int {
    choose|r: int| is_isqrt(n, r)
}

/// A number has one integer square root.
pub proof fn lemma_isqrt_unique(n: int, r: int)
    requires
        is_isqrt(n, r),
    ensures
        isqrt(n) == r,
{
    let s = isqrt(n);
    assert(is_isqrt(n, s));
    if s < r {
        assert((s + 1) * (s + 1) <= r * r) by (nonlinear_arith)
            requires
                0 <= s < r,
        ;
    }
    if r < s {
        assert((r + 1) * (r + 1) <= s * s) by (nonlinear_arith)
            requires
                0 <= r < s,
        ;
    }
}

/// The integer square root of `n`, by bisection.
pub fn sqrt_floor(n: u64) -> (r: u64)
    requires
        n < 0x1000_0000_0000_0000,
    ensures
        is_isqrt(n as int, r as int),
        r < 0x4000_0000,
{
    let mut lo: u64 = 0;
    let mut hi: u64 = 0x4000_0000;
    assert(hi * hi == 0x1000_0000_0000_0000);
    while hi - lo > 1
        invariant
            lo < hi <= 0x4000_0000,
            lo * lo <= n,
            n < hi * hi,
        decreases hi - lo,
    {
        let mid = lo + (hi - lo) / 2;
        assert(mid * mid < 0x1000_0000_0000_0000) by (nonlinear_arith)
            requires
                mid < 0x4000_0000,
        ;
        if mid * mid <= n {
            lo = mid;
        } else {
            hi = mid;
        }
    }
    lo
}

/// Division that rounds toward zero, by a positive divisor.
pub open spec fn trunc_div(a: int, b: int) -> int {
    if a >= 0 {
        a / b
    } else {
        -((-a) / b)
    }
}

/// A ball in flight.
#[derive(Debug, PartialEq, Eq, Structural, Clone, Copy)]
pub struct Ball {
    pub pos: Point,
    pub speed: Vector,
}

impl Ball {
    pub fn new(pos: Point, speed: Vector) -> (r: Self)
        ensures
            r == (Ball { pos, speed }),
    {
        Ball { pos, speed }
    }

    /// The ball lies on the playing field and moves no faster than a shot.
    pub open spec fn valid(self) -> bool {
        &&& 0 <= self.pos.x <= CLIENT_WIDTH
        &&& 0 <= self.pos.y <= CLIENT_HEIGHT
        &&& speed_ok(self.speed)
    }

    /// The ball lies within one cell of the field and moves no faster than a
    /// shot; true of a ball that has just been retired.
    pub open spec fn near_field(self) -> bool {
        &&& -SIDE <= self.pos.x <= CLIENT_WIDTH + SIDE
        &&& -SIDE <= self.pos.y <= CLIENT_HEIGHT + SIDE
        &&& speed_ok(self.speed)
    }
}

} // verus!
