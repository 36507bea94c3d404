use vstd::prelude::*;

use crate::cell::{BallType, Difficulty, Special};
use crate::ticker::{MapTicker, TickerView};
use crate::geom::{
    clip, clip_spec, isqrt, lemma_isqrt_unique, speed_ok, sqrt_floor, trunc_div, Ball, Point, Vector, CLIENT_HEIGHT, CLIENT_WIDTH, COLUMNS, RADIUS, ROWS,
    SIDE, SPEED, PREVIEW_SPEED, TRIGGER_RADIUS, UNIT,
};

verus! {

/// The sides of a cell that matter for one bounce: the four straight sides,
/// and the four rounded corners.
#[derive(Debug, PartialEq, Eq, Structural, Clone, Copy)]
pub struct Sides {
    pub left: bool,
    pub top: bool,
    pub right: bool,
    pub bottom: bool,
    pub left_top_arc: bool,
    pub right_top_arc: bool,
    pub left_bottom_arc: bool,
    pub right_bottom_arc: bool,
}

/// `(r, c)` names a cell of the grid.
pub open spec fn in_grid(r: int, c: int) -> bool {
    0 <= r < ROWS && 0 <= c < COLUMNS
}

/// Position of cell `(r, c)` in the row-major cell sequence.
pub open spec fn cell_index(r: int, c: int) -> int {
    r * COLUMNS + c
}

/// What a cell becomes when a ball hits it.
pub open spec fn hit_cell(b: BallType) -> BallType {
    match b {
        BallType::Normal(n) => if n == 1 {
            BallType::Empty
        } else {
            BallType::Normal((n - 1) as i32)
        },
        _ => b,
    }
}

/// The sides of the box `[ls, rs] x [ts, bs]` that a ball centered at `p`
/// touches or has passed. The last row has no bottom side.
pub open spec fn touch_sides(p: Point, ls: int, ts: int, rs: int, bs: int) -> Sides {
    Sides {
        left: p.x - RADIUS <= ls,
        top: p.y - RADIUS <= ts,
        right: p.x + RADIUS > rs,
        bottom: bs < CLIENT_HEIGHT && p.y + RADIUS > bs,
        left_top_arc: false,
        right_top_arc: false,
        left_bottom_arc: false,
        right_bottom_arc: false,
    }
}

/// Column of the cell that holds `p`, before it is limited to the grid.
pub open spec fn col_of(p: Point) -> int {
    p.x / SIDE
}

/// Row of the cell that holds `p`, before it is limited to the grid.
pub open spec fn row_of(p: Point) -> int {
    p.y / SIDE
}

/// `pos` mirrored back across a low wall (left or top) at `side`.
pub open spec fn reflect_low(pos: int, side: int) -> int {
    pos + 2 * (side - (pos - RADIUS))
}

/// `pos` mirrored back across a high wall (right or bottom) at `side`.
pub open spec fn reflect_high(pos: int, side: int) -> int {
    pos + 2 * (side - (pos + RADIUS))
}

/// The ball heads right, or straight down or not at all.
pub open spec fn heads_right(v: Vector) -> bool {
    v.x > 0 || (v.x == 0 && v.y >= 0)
}

/// New velocity from a random tile. `draw` is a velocity at a random angle
/// drawn around the positive x axis; a ball that heads right gets it mirrored,
/// so that it is drawn around the negative x axis.
pub open spec fn redirect(v: Vector, draw: Vector) -> Vector {
    if heads_right(v) {
        Vector { x: (-draw.x) as i64, y: draw.y }
    } else {
        draw
    }
}

/// `p` lies within the trigger radius of the point `(cx, cy)`.
pub open spec fn within_trigger(p: Point, cx: int, cy: int) -> bool {
    (p.x - cx) * (p.x - cx) + (p.y - cy) * (p.y - cy) <= TRIGGER_RADIUS * TRIGGER_RADIUS
}

/// The effect of the special tile under the ball, before it moves: the new
/// board, the new ball, and whether the ball is retired.
pub open spec fn special_step(bv: BoardView, b: Ball, draw: Vector) -> (BoardView, Ball, bool) {
    let c = clip_spec(col_of(b.pos), 0, COLUMNS - 1);
    let r = clip_spec(row_of(b.pos), 0, ROWS - 1);
    let cx = col_of(b.pos) * SIDE + SIDE / 2;
    let cy = row_of(b.pos) * SIDE + SIDE / 2;
    match bv.cell(r, c) {
        BallType::Special(s) => if within_trigger(b.pos, cx, cy) {
            match s {
                Special::New => (
                    BoardView {
                        balls_num: if bv.balls_num < i32::MAX {
                            bv.balls_num + 1
                        } else {
                            bv.balls_num
                        },
                        ..bv.set_cell(r, c, BallType::Empty)
                    },
                    b,
                    false,
                ),
                Special::Delete => (bv.set_cell(r, c, BallType::Empty), b, true),
                Special::Random | Special::RandomOld => (
                    bv.set_cell(r, c, BallType::Special(Special::RandomOld)),
                    Ball { speed: redirect(b.speed, draw), ..b },
                    false,
                ),
                Special::DoubleScore => (
                    BoardView { doubled_score: true, ..bv.set_cell(r, c, BallType::Empty) },
                    b,
                    false,
                ),
            }
        } else {
            (bv, b, false)
        },
        _ => (bv, b, false),
    }
}

/// Flat bounce off the left or right side of cell `(r, c)`, whose box spans
/// `ls..rs`; `b` has already moved.
pub open spec fn flat_x(
    bv: BoardView,
    b: Ball,
    before: Sides,
    after: Sides,
    r: int,
    c: int,
    ls: int,
    rs: int,
) -> (BoardView, Ball) {
    if before.left && after.left {
        (
            bv.hit(r, c - 1),
            Ball {
                pos: Point { x: reflect_low(b.pos.x as int, ls) as i64, ..b.pos },
                speed: Vector { x: (-b.speed.x) as i64, ..b.speed },
            },
        )
    } else if before.right && after.right {
        (
            bv.hit(r, c + 1),
            Ball {
                pos: Point { x: reflect_high(b.pos.x as int, rs) as i64, ..b.pos },
                speed: Vector { x: (-b.speed.x) as i64, ..b.speed },
            },
        )
    } else {
        (bv, b)
    }
}

/// Flat bounce off the top or bottom side of cell `(r, c)`, whose box spans
/// `ts..bs`, or exit past the bottom of the field (the third component).
pub open spec fn flat_y(
    bv: BoardView,
    b: Ball,
    before: Sides,
    after: Sides,
    r: int,
    c: int,
    ts: int,
    bs: int,
) -> (BoardView, Ball, bool) {
    if before.top && after.top {
        (
            bv.hit(r - 1, c),
            Ball {
                pos: Point { y: reflect_low(b.pos.y as int, ts) as i64, ..b.pos },
                speed: Vector { y: (-b.speed.y) as i64, ..b.speed },
            },
            false,
        )
    } else if before.bottom && b.pos.y + RADIUS >= CLIENT_HEIGHT && b.speed.y > 0 {
        (bv, b, true)
    } else if before.bottom && after.bottom {
        (
            bv.hit(r + 1, c),
            Ball {
                pos: Point { y: reflect_high(b.pos.y as int, bs) as i64, ..b.pos },
                speed: Vector { y: (-b.speed.y) as i64, ..b.speed },
            },
            false,
        )
    } else {
        (bv, b, false)
    }
}

/// Deflection around a rounded corner whose inner circle is centered at
/// `(sx, sy)`: the offsets from the center are swapped, and so are the
/// velocity components.
pub open spec fn arc_ball(b: Ball, sx: int, sy: int, minus: bool) -> Ball {
    let ox = sx - b.pos.x;
    let oy = sy - b.pos.y;
    if minus {
        Ball {
            pos: Point { x: (sx - oy) as i64, y: (sy - ox) as i64 },
            speed: Vector { x: b.speed.y, y: b.speed.x },
        }
    } else {
        Ball {
            pos: Point { x: (sx + oy) as i64, y: (sy + ox) as i64 },
            speed: Vector { x: (-b.speed.y) as i64, y: (-b.speed.x) as i64 },
        }
    }
}

/// Rounded-corner bounce: a corner fires when it was rounded before the move
/// and the ball touches both of its sides after it.
pub open spec fn arc_step(
    bv: BoardView,
    b: Ball,
    before: Sides,
    after: Sides,
    r: int,
    c: int,
    ls: int,
    ts: int,
    rs: int,
    bs: int,
) -> (BoardView, Ball) {
    if before.left_top_arc && after.left && after.top {
        (bv.hit(r - 1, c - 1), arc_ball(b, ls + RADIUS, ts + RADIUS, false))
    } else if before.right_top_arc && after.right && after.top {
        (bv.hit(r - 1, c + 1), arc_ball(b, rs - RADIUS, ts + RADIUS, true))
    } else if before.left_bottom_arc && after.left && after.bottom {
        (bv.hit(r + 1, c - 1), arc_ball(b, ls + RADIUS, bs - RADIUS, true))
    } else if before.right_bottom_arc && after.right && after.bottom {
        (bv.hit(r + 1, c + 1), arc_ball(b, rs - RADIUS, bs - RADIUS, false))
    } else {
        (bv, b)
    }
}

/// A ball never goes slower than one pixel per tick vertically.
pub open spec fn min_vertical(b: Ball) -> Ball {
    if -UNIT < b.speed.y < UNIT {
        Ball {
            speed: Vector { y: if b.speed.y > 0 { UNIT } else { (-UNIT) as i64 }, ..b.speed },
            ..b
        }
    } else {
        b
    }
}

/// One step of a ball against the grid, after any special tile took effect:
/// the ball moves by its velocity, bounces off flat sides and rounded corners
/// of its cell, hitting the blocks it bounces off, or leaves the field.
pub open spec fn collide(bv: BoardView, b: Ball) -> (BoardView, Ball, bool) {
    let ls = col_of(b.pos) * SIDE;
    let rs = (col_of(b.pos) + 1) * SIDE - UNIT;
    let ts = row_of(b.pos) * SIDE;
    let bs = (row_of(b.pos) + 1) * SIDE - UNIT;
    let c = clip_spec(col_of(b.pos), 0, COLUMNS - 1);
    let r = clip_spec(row_of(b.pos), 0, ROWS - 1);
    let before = bv.wall_sides(r, c);
    let moved = Ball {
        pos: Point { x: (b.pos.x + b.speed.x) as i64, y: (b.pos.y + b.speed.y) as i64 },
        speed: b.speed,
    };
    let after = touch_sides(moved.pos, ls, ts, rs, bs);
    let (bv1, b1) = flat_x(bv, moved, before, after, r, c, ls, rs);
    let (bv2, b2, out) = flat_y(bv1, b1, before, after, r, c, ts, bs);
    if out {
        (bv2, b2, true)
    } else {
        let (bv3, b3) = arc_step(bv2, b2, before, after, r, c, ls, ts, rs, bs);
        (bv3, min_vertical(b3), false)
    }
}

/// One step of a ball: the special tile under it, then the move and its
/// bounces. The flag tells whether the ball is retired. `draw` is the
/// velocity that a random tile hands out.
#[verifier::opaque]
pub open spec fn bounce_spec(bv: BoardView, b: Ball, draw: Vector) -> (BoardView, Ball, bool) {
    let (bv1, b1, gone) = special_step(bv, b, draw);
    if gone {
        (bv1, b1, true)
    } else {
        collide(bv1, b1)
    }
}

/// The random outcomes that one new top row is built from.
#[derive(Debug)]
pub struct RowDraw {
    /// For each column, the rounded sample of the block-count distribution,
    /// or zero where the column was drawn empty.
    pub blocks: Vec<i32>,
    /// Column of a new random tile, if one is placed.
    pub random_col: Option<usize>,
    /// Column of a new removing tile, if one is placed.
    pub delete_col: Option<usize>,
    /// Column of a new double-score tile, if one is placed.
    pub double_col: Option<usize>,
    /// The coin that decides a new spawning tile below the hardest tier.
    pub spawn_coin: bool,
    /// Column of a new spawning tile, if one is placed.
    pub spawn_col: usize,
}

/// Below this number of balls per shot, new spawning tiles may appear.
pub const SPAWN_CEILING: usize = 1073741823;

/// A column index, or none.
pub open spec fn col_ok(c: Option<usize>) -> bool {
    c.is_some() ==> c.unwrap() < COLUMNS
}

impl RowDraw {
    /// One count per column and every column on the grid.
    pub open spec fn wf(&self) -> bool {
        &&& self.blocks@.len() == COLUMNS
        &&& col_ok(self.random_col)
        &&& col_ok(self.delete_col)
        &&& col_ok(self.double_col)
        &&& self.spawn_col < COLUMNS
    }
}

/// What a cell becomes when it moves down a row: a spent random tile is
/// cleared, anything else moves as it is.
pub open spec fn shift_cell(b: BallType) -> BallType {
    if b == BallType::Special(Special::RandomOld) {
        BallType::Empty
    } else {
        b
    }
}

/// The cells after every row moved down by one; the top row stays.
pub open spec fn shifted(cells: Seq<BallType>) -> Seq<BallType> {
    Seq::new(
        cells.len(),
        |i: int|
            if i < COLUMNS {
                cells[i]
            } else {
                shift_cell(cells[i - COLUMNS])
            },
    )
}

/// The bottom row of `cells` holds a block.
pub open spec fn bottom_reached(cells: Seq<BallType>) -> bool {
    exists|c: int| 0 <= c < COLUMNS && (#[trigger] cells[cell_index(ROWS - 1, c)]).is_block()
}

/// A spawning tile joins the new row.
pub open spec fn spawn_placed(bv: BoardView, d: RowDraw) -> bool {
    bv.balls_num < SPAWN_CEILING && (bv.difficulty == Difficulty::Compete || d.spawn_coin)
}

/// Cell `c` of a new top row: a block where the sample is positive, then the
/// random, removing, double-score and spawning tiles in that order, each
/// overwriting what stands in its column.
pub open spec fn new_row_cell(bv: BoardView, d: RowDraw, c: int) -> BallType {
    if spawn_placed(bv, d) && d.spawn_col == c {
        BallType::Special(Special::New)
    } else if d.double_col == Some(c as usize) {
        BallType::Special(Special::DoubleScore)
    } else if d.delete_col == Some(c as usize) {
        BallType::Special(Special::Delete)
    } else if d.random_col == Some(c as usize) {
        BallType::Special(Special::Random)
    } else if d.blocks@[c] > 0 {
        BallType::Normal(d.blocks@[c])
    } else {
        BallType::Empty
    }
}

/// Launch targets lie within this distance of the origin on each axis.
pub const TARGET_LIMIT: i64 = 0x1000_0000;

/// The launch velocity toward a target at offset `(dx, dy)` from the launch
/// point: the offset scaled to `speed`, then bent upward where it would be
/// flatter than `speed / SPEED` pixels per tick upward.
pub open spec fn launch_spec(dx: int, dy: int, speed: int) -> Vector {
    let len = isqrt(dx * dx + dy * dy);
    let lim = -(speed * UNIT / (SPEED as int));
    let vx = if len == 0 {
        0
    } else {
        trunc_div(dx * speed, len)
    };
    let vy = if len == 0 {
        0
    } else {
        trunc_div(dy * speed, len)
    };
    Vector { x: vx as i64, y: (if vy > lim {
        lim
    } else {
        vy
    }) as i64 }
}

/// The ghost ball of the aiming preview may go on at `(x, y)`: it is within
/// the field and the cells under its left and right edges are open.
pub open spec fn preview_free(bv: BoardView, x: int, y: int) -> bool {
    &&& RADIUS <= x <= CLIENT_WIDTH - RADIUS
    &&& RADIUS <= y
    &&& bv.is_open((y - RADIUS) / (SIDE as int), (x - RADIUS) / (SIDE as int))
    &&& bv.is_open((y - RADIUS) / (SIDE as int), (x + RADIUS) / (SIDE as int))
}

/// The ghost ball may go on after `j` steps of `v` from `s`.
pub open spec fn preview_step_free(bv: BoardView, s: Point, v: Vector, j: int) -> bool {
    preview_free(bv, s.x + j * v.x, s.y + j * v.y)
}

/// The mathematical state of a board.
pub struct BoardView {
    pub cells: Seq<BallType>,
    pub difficulty: Difficulty,
    pub score: int,
    pub start: int,
    pub startv: Vector,
    pub sample: Point,
    pub balls_num: int,
    pub doubled_score: bool,
}

impl BoardView {
    pub open spec fn cell(self, r: int, c: int) -> BallType {
        self.cells[cell_index(r, c)]
    }

    /// A straight side toward `(r, c)` reflects: the cell is a block or lies
    /// off the grid.
    pub open spec fn is_wall(self, r: int, c: int) -> bool {
        !in_grid(r, c) || self.cell(r, c).is_block()
    }

    /// Cell `(r, c)` is on the grid and holds no block.
    pub open spec fn is_open(self, r: int, c: int) -> bool {
        in_grid(r, c) && !self.cell(r, c).is_block()
    }

    /// The launch point.
    pub open spec fn startp(self) -> Point {
        Point { x: self.start as i64, y: (CLIENT_HEIGHT - RADIUS) as i64 }
    }

    /// A corner toward `(r, c)` is rounded: the cell is a block of the grid.
    pub open spec fn is_corner_block(self, r: int, c: int) -> bool {
        in_grid(r, c) && self.cell(r, c).is_block()
    }

    /// The sides of cell `(r, c)` that reflect a ball. A corner counts only
    /// when neither of its two straight sides does, so that a square corner
    /// is never both a flat and a rounded bounce.
    pub open spec fn wall_sides(self, r: int, c: int) -> Sides {
        let left = self.is_wall(r, c - 1);
        let top = self.is_wall(r - 1, c);
        let right = self.is_wall(r, c + 1);
        let bottom = self.is_wall(r + 1, c);
        Sides {
            left,
            top,
            right,
            bottom,
            left_top_arc: self.is_corner_block(r - 1, c - 1) && !(left || top),
            right_top_arc: self.is_corner_block(r - 1, c + 1) && !(right || top),
            left_bottom_arc: self.is_corner_block(r + 1, c - 1) && !(left || bottom),
            right_bottom_arc: self.is_corner_block(r + 1, c + 1) && !(right || bottom),
        }
    }

    /// The board after a ball hits cell `(r, c)`: a block loses one count and
    /// the score grows by one; off the grid nothing happens.
    pub open spec fn hit(self, r: int, c: int) -> BoardView {
        if in_grid(r, c) {
            BoardView {
                cells: self.cells.update(cell_index(r, c), hit_cell(self.cell(r, c))),
                score: self.score + 1,
                ..self
            }
        } else {
            self
        }
    }

    /// The cell `(r, c)` replaced by `b`.
    pub open spec fn set_cell(self, r: int, c: int, b: BallType) -> BoardView {
        BoardView { cells: self.cells.update(cell_index(r, c), b), ..self }
    }

    pub open spec fn wf(self) -> bool {
        &&& self.cells.len() == ROWS * COLUMNS
        &&& forall|i: int| 0 <= i < self.cells.len() ==> (#[trigger] self.cells[i]).wf()
        &&& 1 <= self.balls_num <= i32::MAX
        &&& RADIUS <= self.start <= CLIENT_WIDTH - RADIUS
        &&& speed_ok(self.startv)
        &&& 0 <= self.score <= u64::MAX
    }
}

/// The whole state of one game: the grid, the score and the launch point.
#[derive(Debug)]
pub struct Board {
    map: Vec<BallType>,
    difficulty: Difficulty,
    score: u64,
    start: i64,
    startv: Vector,
    sample: Point,
    balls_num: usize,
    doubled_score: bool,
}

impl View for Board {
    type V = BoardView;

    closed spec fn view(&self) -> BoardView {
        BoardView {
            cells: self.map@,
            difficulty: self.difficulty,
            score: self.score as int,
            start: self.start as int,
            startv: self.startv,
            sample: self.sample,
            balls_num: self.balls_num as int,
            doubled_score: self.doubled_score,
        }
    }
}

/// Sides of the cell box that the ball at `p` touches or has passed.
fn get_side(p: Point, ls: i64, ts: i64, rs: i64, bs: i64) -> (r: Sides)
    requires
        -SIDE <= p.x <= CLIENT_WIDTH + SIDE,
        -SIDE <= p.y <= CLIENT_HEIGHT + SIDE,
        -SIDE <= ls <= CLIENT_WIDTH + SIDE,
        -SIDE <= rs <= CLIENT_WIDTH + SIDE,
        -SIDE <= ts <= CLIENT_HEIGHT + SIDE,
        -SIDE <= bs <= CLIENT_HEIGHT + SIDE,
    ensures
        r == touch_sides(p, ls as int, ts as int, rs as int, bs as int),
{
    Sides {
        left: p.x - RADIUS <= ls,
        top: p.y - RADIUS <= ts,
        right: p.x + RADIUS > rs,
        bottom: bs < CLIENT_HEIGHT && p.y + RADIUS > bs,
        left_top_arc: false,
        right_top_arc: false,
        left_bottom_arc: false,
        right_bottom_arc: false,
    }
}

/// Column and row of the cell that holds a point of the field.
fn locate(p: Point) -> (res: (i64, i64))
    requires
        0 <= p.x <= CLIENT_WIDTH,
        0 <= p.y <= CLIENT_HEIGHT,
    ensures
        res.0 == col_of(p),
        res.1 == row_of(p),
        0 <= res.0 < COLUMNS,
        0 <= res.1 < ROWS,
        res.0 * SIDE <= p.x < res.0 * SIDE + SIDE,
        res.1 * SIDE <= p.y < res.1 * SIDE + SIDE,
{
    (p.x / SIDE, p.y / SIDE)
}

/// Flat bounce along one axis: the velocity component flips and the position
/// is mirrored back across the wall at `side`.
fn change_ball(speed: &mut i64, pos: &mut i64, side: i64, minus: bool)
    requires
        -SPEED <= *old(speed) <= SPEED,
        -4 * SIDE <= *old(pos) <= 12 * SIDE,
        -4 * SIDE <= side <= 12 * SIDE,
    ensures
        *final(speed) == -*old(speed),
        *final(pos) == if minus {
            reflect_low(*old(pos) as int, side as int)
        } else {
            reflect_high(*old(pos) as int, side as int)
        },
{
    *speed = -*speed;
    let off = side - (*pos + if minus {
        -RADIUS
    } else {
        RADIUS
    });
    *pos = *pos + off * 2;
}

/// Rounded-corner bounce around the inner circle centered at `(sx, sy)`.
fn change_ball_arc(b: &mut Ball, sx: i64, sy: i64, minus: bool)
    requires
        speed_ok(old(b).speed),
        -4 * SIDE <= old(b).pos.x <= 12 * SIDE,
        -4 * SIDE <= old(b).pos.y <= 12 * SIDE,
        -4 * SIDE <= sx <= 12 * SIDE,
        -4 * SIDE <= sy <= 12 * SIDE,
    ensures
        *final(b) == arc_ball(*old(b), sx as int, sy as int, minus),
{
    let ox = sx - b.pos.x;
    let oy = sy - b.pos.y;
    if minus {
        b.pos = Point { x: sx - oy, y: sy - ox };
        b.speed = Vector { x: b.speed.y, y: b.speed.x };
    } else {
        b.pos = Point { x: sx + oy, y: sy + ox };
        b.speed = Vector { x: -b.speed.y, y: -b.speed.x };
    }
}

/// The velocity that a random tile gives a ball moving at `v`.
fn redirect_speed(v: Vector, draw: Vector) -> (r: Vector)
    requires
        speed_ok(draw),
    ensures
        r == redirect(v, draw),
        speed_ok(r),
{
    if v.x > 0 || (v.x == 0 && v.y >= 0) {
        Vector { x: -draw.x, y: draw.y }
    } else {
        draw
    }
}

/// A hit leaves every other cell as it was.
proof fn lemma_hit_keeps_other(bv: BoardView, r: int, c: int, r2: int, c2: int)
    requires
        bv.wf(),
        (r, c) != (r2, c2),
    ensures
        bv.hit(r, c).is_wall(r2, c2) == bv.is_wall(r2, c2),
        bv.hit(r, c).is_corner_block(r2, c2) == bv.is_corner_block(r2, c2),
{
    if in_grid(r, c) && in_grid(r2, c2) {
        assert(cell_index(r, c) != cell_index(r2, c2));
    }
}

/// A non-negative coordinate lies within the cell that division names.
proof fn lemma_cell_span(v: int)
    requires
        0 <= v,
    ensures
        0 <= v / (SIDE as int),
        (v / (SIDE as int)) * SIDE <= v < (v / (SIDE as int)) * SIDE + SIDE,
{
    vstd::arithmetic::div_mod::lemma_fundamental_div_mod(v, SIDE as int);
    vstd::arithmetic::div_mod::lemma_mod_pos_bound(v, SIDE as int);
}

/// A ball that stays in play after a step still lies on the field and moves
/// no faster than a shot.
pub proof fn lemma_bounce_keeps_valid(bv: BoardView, b: Ball, draw: Vector)
    requires
        bv.wf(),
        b.valid(),
        speed_ok(draw),
    ensures
        !bounce_spec(bv, b, draw).2 ==> bounce_spec(bv, b, draw).1.valid(),
        bounce_spec(bv, b, draw).2 ==> bounce_spec(bv, b, draw).1.near_field(),
{
    reveal(bounce_spec);
    let (bv1, b1, gone) = special_step(bv, b, draw);
    if !gone {
        assert(b1.valid());
        lemma_collide_keeps_valid(bv1, b1);
    }
}

#[verifier::rlimit(80)]
proof fn lemma_collide_keeps_valid(bv: BoardView, b: Ball)
    requires
        b.valid(),
    ensures
        !collide(bv, b).2 ==> collide(bv, b).1.valid(),
        collide(bv, b).2 ==> collide(bv, b).1.near_field(),
{
    let cx = col_of(b.pos);
    let ry = row_of(b.pos);
    let ls = cx * SIDE;
    let rs = (cx + 1) * SIDE - UNIT;
    let ts = ry * SIDE;
    let bs = (ry + 1) * SIDE - UNIT;
    lemma_cell_span(b.pos.x as int);
    lemma_cell_span(b.pos.y as int);
    assert(SIDE == 204800 && UNIT == 1024 && RADIUS == 20480 && SPEED == 51200);
    assert(CLIENT_WIDTH == 6 * 204800 - 1024 && CLIENT_HEIGHT == 8 * 204800 - 1024);
    assert(0 <= cx < COLUMNS && ls <= b.pos.x < ls + SIDE);
    assert(0 <= ry < ROWS && ts <= b.pos.y < ts + SIDE);
    let c = clip_spec(cx, 0, COLUMNS - 1);
    let r = clip_spec(ry, 0, ROWS - 1);
    assert(c == cx && r == ry);
    let before = bv.wall_sides(r, c);
    let moved = Ball {
        pos: Point { x: (b.pos.x + b.speed.x) as i64, y: (b.pos.y + b.speed.y) as i64 },
        speed: b.speed,
    };
    let after = touch_sides(moved.pos, ls, ts, rs, bs);
    let (bv1, b1) = flat_x(bv, moved, before, after, r, c, ls, rs);
    let (bv2, b2, out) = flat_y(bv1, b1, before, after, r, c, ts, bs);
    assert(c == 0 ==> before.left);
    assert(c == COLUMNS - 1 ==> before.right);
    assert(r == 0 ==> before.top);
    assert(r == ROWS - 1 ==> before.bottom);
    assert(0 <= b1.pos.x <= CLIENT_WIDTH);
    assert(speed_ok(b1.speed));
    assert(b1.pos.y == moved.pos.y && b1.speed.y == moved.speed.y);
    if out {
        assert(b2 == b1);
    }
    if !out {
        assert(0 <= b2.pos.y <= CLIENT_HEIGHT);
        assert(b2.pos.x == b1.pos.x);
        assert(speed_ok(b2.speed));
        let (bv3, b3) = arc_step(bv2, b2, before, after, r, c, ls, ts, rs, bs);
        assert(b3.valid());
    }
}

/// `a * speed / len`, rounded toward zero, for `|a| <= len`.
fn scale_component(a: i64, speed: i64, len: i64) -> (r: i64)
    requires
        0 < len <= 0x4000_0000,
        -len <= a <= len,
        0 < speed <= SPEED,
    ensures
        r == trunc_div(a * speed, len as int),
        -speed <= r <= speed,
{
    let m: i64 = if a >= 0 {
        a
    } else {
        -a
    };
    assert(0 <= m * speed <= len * speed) by (nonlinear_arith)
        requires
            0 <= m <= len,
            0 < speed,
    ;
    assert(len * speed <= 0x4000_0000 * SPEED) by (nonlinear_arith)
        requires
            0 < len <= 0x4000_0000,
            0 < speed <= SPEED,
    ;
    proof {
        vstd::arithmetic::div_mod::lemma_div_is_ordered(m * speed, len * speed, len as int);
        vstd::arithmetic::div_mod::lemma_div_by_multiple(speed as int, len as int);
        vstd::arithmetic::div_mod::lemma_div_pos_is_pos(m * speed, len as int);
        assert(len * speed == speed * len) by (nonlinear_arith);
    }
    let q = (m * speed) / len;
    if a >= 0 {
        q
    } else {
        assert(-(a * speed) == m * speed) by (nonlinear_arith)
            requires
                m == -a,
        ;
        -q
    }
}

/// After its step, the ball at `b` keeps clear of every side of its cell:
/// it crosses no boundary.
pub open spec fn stays_clear(b: Ball) -> bool {
    let ls = col_of(b.pos) * SIDE;
    let rs = (col_of(b.pos) + 1) * SIDE - UNIT;
    let ts = row_of(b.pos) * SIDE;
    let bs = (row_of(b.pos) + 1) * SIDE - UNIT;
    let x = b.pos.x + b.speed.x;
    let y = b.pos.y + b.speed.y;
    ls < x - RADIUS && x + RADIUS <= rs && ts < y - RADIUS && y + RADIUS < bs
}

/// A ball off any special tile whose step crosses no cell boundary does not
/// bounce: it stays in play, keeps its horizontal velocity, and keeps the
/// sign of its vertical velocity (which only the least vertical speed may
/// raise); the board is unchanged.
pub proof fn lemma_no_spurious_bounce(bv: BoardView, b: Ball, draw: Vector)
    requires
        bv.wf(),
        b.valid(),
        !(bv.cell(row_of(b.pos), col_of(b.pos)) is Special),
        stays_clear(b),
    ensures
        ({
            let (bv1, b1, out) = bounce_spec(bv, b, draw);
            &&& !out
            &&& bv1 == bv
            &&& b1.pos.x == b.pos.x + b.speed.x
            &&& b1.pos.y == b.pos.y + b.speed.y
            &&& b1.speed.x == b.speed.x
            &&& (b.speed.y > 0 ==> b1.speed.y > 0)
            &&& (b.speed.y < 0 ==> b1.speed.y < 0)
            &&& (b.speed.y <= -UNIT || UNIT <= b.speed.y ==> b1.speed == b.speed)
        }),
{
    reveal(bounce_spec);
    lemma_cell_span(b.pos.x as int);
    lemma_cell_span(b.pos.y as int);
    assert(SIDE == 204800 && UNIT == 1024 && RADIUS == 20480 && SPEED == 51200);
    assert(CLIENT_WIDTH == 6 * 204800 - 1024 && CLIENT_HEIGHT == 8 * 204800 - 1024);
    assert(special_step(bv, b, draw) == (bv, b, false));
}

/// A removing tile under a ball within its trigger radius clears, and the
/// ball is retired on that same step.
pub proof fn lemma_delete_retires(bv: BoardView, b: Ball, draw: Vector)
    requires
        bv.wf(),
        b.valid(),
        bv.cell(row_of(b.pos), col_of(b.pos)) == BallType::Special(Special::Delete),
        within_trigger(
            b.pos,
            col_of(b.pos) * SIDE + SIDE / 2,
            row_of(b.pos) * SIDE + SIDE / 2,
        ),
    ensures
        bounce_spec(bv, b, draw) == (
            bv.set_cell(row_of(b.pos), col_of(b.pos), BallType::Empty),
            b,
            true,
        ),
{
    reveal(bounce_spec);
    lemma_cell_span(b.pos.x as int);
    lemma_cell_span(b.pos.y as int);
    assert(SIDE == 204800 && CLIENT_WIDTH == 6 * 204800 - 1024 && CLIENT_HEIGHT == 8 * 204800
        - 1024);
}

impl Board {
    /// Whether cell `(r, c)` is a block; `None` off the grid.
    fn is_normal(&self, r: i64, c: i64) -> (res: Option<bool>)
        requires
            self@.wf(),
        ensures
            res.is_some() == in_grid(r as int, c as int),
            res.is_some() ==> res.unwrap() == self@.cell(r as int, c as int).is_block(),
    {
        if 0 <= r && r < ROWS as i64 && 0 <= c && c < COLUMNS as i64 {
            let i = (r as usize) * COLUMNS + (c as usize);
            Some(self.map[i].is_normal())
        } else {
            None
        }
    }

    fn is_side(&self, r: i64, c: i64) -> (res: bool)
        requires
            self@.wf(),
        ensures
            res == self@.is_wall(r as int, c as int),
    {
        match self.is_normal(r, c) {
            Some(b) => b,
            None => true,
        }
    }

    fn is_pluge(&self, r: i64, c: i64) -> (res: bool)
        requires
            self@.wf(),
        ensures
            res == self@.is_corner_block(r as int, c as int),
    {
        match self.is_normal(r, c) {
            Some(b) => b,
            None => false,
        }
    }

    /// The reflecting sides of cell `(r, c)`.
    fn bounce_side(&self, c: i64, r: i64) -> (res: Sides)
        requires
            self@.wf(),
            0 <= r < ROWS,
            0 <= c < COLUMNS,
        ensures
            res == self@.wall_sides(r as int, c as int),
    {
        let left = self.is_side(r, c - 1);
        let top = self.is_side(r - 1, c);
        let right = self.is_side(r, c + 1);
        let bottom = self.is_side(r + 1, c);
        Sides {
            left,
            top,
            right,
            bottom,
            left_top_arc: self.is_pluge(r - 1, c - 1) && !(left || top),
            right_top_arc: self.is_pluge(r - 1, c + 1) && !(right || top),
            left_bottom_arc: self.is_pluge(r + 1, c - 1) && !(left || bottom),
            right_bottom_arc: self.is_pluge(r + 1, c + 1) && !(right || bottom),
        }
    }

    /// A ball hits cell `(r, c)`: a block loses one count, becoming empty at
    /// zero, and the score grows by exactly one. Off the grid nothing happens.
    pub fn hit(&mut self, r: i64, c: i64)
        requires
            old(self)@.wf(),
            old(self)@.is_wall(r as int, c as int),
            old(self)@.score < u64::MAX,
        ensures
            final(self)@ == old(self)@.hit(r as int, c as int),
            final(self)@.wf(),
    {
        if 0 <= r && r < ROWS as i64 && 0 <= c && c < COLUMNS as i64 {
            let i = (r as usize) * COLUMNS + (c as usize);
            let nb = match self.map[i] {
                BallType::Normal(s) => if s == 1 {
                    BallType::Empty
                } else {
                    BallType::Normal(s - 1)
                },
                other => other,
            };
            self.map.set(i, nb);
            self.score = self.score + 1;
            proof {
                assert(self@.cells =~= old(self)@.cells.update(
                    cell_index(r as int, c as int),
                    hit_cell(old(self)@.cell(r as int, c as int)),
                ));
            }
        }
    }
    /// The special tile under the ball takes effect if the ball is within
    /// its trigger radius. Returns whether the ball is retired.
    fn trigger_special(&mut self, b: &mut Ball, draw: Vector) -> (gone: bool)
        requires
            old(self)@.wf(),
            old(b).valid(),
            speed_ok(draw),
        ensures
            (final(self)@, *final(b), gone) == special_step(old(self)@, *old(b), draw),
            final(self)@.wf(),
            final(b).valid(),
    {
        let (cr, rr) = locate(b.pos);
        let c = clip(cr, 0, (COLUMNS - 1) as i64);
        let r = clip(rr, 0, (ROWS - 1) as i64);
        let i = (r as usize) * COLUMNS + (c as usize);
        let cur = self.map[i];
        match cur {
            BallType::Special(s) => {
                let dx = b.pos.x - (cr * SIDE + SIDE / 2);
                let dy = b.pos.y - (rr * SIDE + SIDE / 2);
                assert(dx * dx <= 2 * SIDE * 2 * SIDE) by (nonlinear_arith)
                    requires
                        -2 * SIDE <= dx <= 2 * SIDE,
                ;
                assert(dy * dy <= 2 * SIDE * 2 * SIDE) by (nonlinear_arith)
                    requires
                        -2 * SIDE <= dy <= 2 * SIDE,
                ;
                assert(dx * dx >= 0 && dy * dy >= 0) by (nonlinear_arith);
                assert(TRIGGER_RADIUS == 81920);
                if dx * dx + dy * dy <= TRIGGER_RADIUS * TRIGGER_RADIUS {
                    match s {
                        Special::New => {
                            if self.balls_num < i32::MAX as usize {
                                self.balls_num = self.balls_num + 1;
                            }
                            self.map.set(i, BallType::Empty);
                            false
                        },
                        Special::Delete => {
                            self.map.set(i, BallType::Empty);
                            true
                        },
                        Special::Random | Special::RandomOld => {
                            b.speed = redirect_speed(b.speed, draw);
                            self.map.set(i, BallType::Special(Special::RandomOld));
                            false
                        },
                        Special::DoubleScore => {
                            self.doubled_score = true;
                            self.map.set(i, BallType::Empty);
                            false
                        },
                    }
                } else {
                    false
                }
            },
            _ => false,
        }
    }

    /// Flat bounce off the left or right side of the ball's cell.
    fn bounce_x(
        &mut self,
        b: &mut Ball,
        before: Sides,
        after: Sides,
        r: i64,
        c: i64,
        ls: i64,
        rs: i64,
    )
        requires
            old(self)@.wf(),
            old(self)@.score < u64::MAX,
            0 <= r < ROWS,
            0 <= c < COLUMNS,
            before.left ==> old(self)@.is_wall(r as int, c - 1),
            before.right ==> old(self)@.is_wall(r as int, c + 1),
            speed_ok(old(b).speed),
            -2 * SIDE <= old(b).pos.x <= 8 * SIDE,
            -2 * SIDE <= ls <= 8 * SIDE,
            -2 * SIDE <= rs <= 8 * SIDE,
        ensures
            (final(self)@, *final(b)) == flat_x(
                old(self)@,
                *old(b),
                before,
                after,
                r as int,
                c as int,
                ls as int,
                rs as int,
            ),
            final(self)@.wf(),
            final(self)@.score <= old(self)@.score + 1,
    {
        if before.left && after.left {
            change_ball(&mut b.speed.x, &mut b.pos.x, ls, true);
            self.hit(r, c - 1);
        } else if before.right && after.right {
            change_ball(&mut b.speed.x, &mut b.pos.x, rs, false);
            self.hit(r, c + 1);
        }
    }

    /// Flat bounce off the top or bottom side of the ball's cell; returns
    /// whether the ball leaves past the bottom of the field instead.
    fn bounce_y(
        &mut self,
        b: &mut Ball,
        before: Sides,
        after: Sides,
        r: i64,
        c: i64,
        ts: i64,
        bs: i64,
    ) -> (out: bool)
        requires
            old(self)@.wf(),
            old(self)@.score < u64::MAX,
            0 <= r < ROWS,
            0 <= c < COLUMNS,
            before.top ==> old(self)@.is_wall(r - 1, c as int),
            before.bottom ==> old(self)@.is_wall(r + 1, c as int),
            speed_ok(old(b).speed),
            -2 * SIDE <= old(b).pos.y <= 10 * SIDE,
            -2 * SIDE <= ts <= 10 * SIDE,
            -2 * SIDE <= bs <= 10 * SIDE,
        ensures
            (final(self)@, *final(b), out) == flat_y(
                old(self)@,
                *old(b),
                before,
                after,
                r as int,
                c as int,
                ts as int,
                bs as int,
            ),
            final(self)@.wf(),
            final(self)@.score <= old(self)@.score + 1,
    {
        if before.top && after.top {
            change_ball(&mut b.speed.y, &mut b.pos.y, ts, true);
            self.hit(r - 1, c);
            false
        } else if before.bottom && b.pos.y + RADIUS >= CLIENT_HEIGHT && b.speed.y > 0 {
            true
        } else if before.bottom && after.bottom {
            change_ball(&mut b.speed.y, &mut b.pos.y, bs, false);
            self.hit(r + 1, c);
            false
        } else {
            false
        }
    }

    /// Rounded-corner bounce at one of the four corners of the ball's cell.
    fn bounce_arc(
        &mut self,
        b: &mut Ball,
        before: Sides,
        after: Sides,
        r: i64,
        c: i64,
        ls: i64,
        ts: i64,
        rs: i64,
        bs: i64,
    )
        requires
            old(self)@.wf(),
            old(self)@.score < u64::MAX,
            0 <= r < ROWS,
            0 <= c < COLUMNS,
            before.left_top_arc ==> old(self)@.is_corner_block(r - 1, c - 1),
            before.right_top_arc ==> old(self)@.is_corner_block(r - 1, c + 1),
            before.left_bottom_arc ==> old(self)@.is_corner_block(r + 1, c - 1),
            before.right_bottom_arc ==> old(self)@.is_corner_block(r + 1, c + 1),
            speed_ok(old(b).speed),
            -2 * SIDE <= old(b).pos.x <= 10 * SIDE,
            -2 * SIDE <= old(b).pos.y <= 10 * SIDE,
            -2 * SIDE <= ls <= 10 * SIDE,
            -2 * SIDE <= rs <= 10 * SIDE,
            -2 * SIDE <= ts <= 10 * SIDE,
            -2 * SIDE <= bs <= 10 * SIDE,
        ensures
            (final(self)@, *final(b)) == arc_step(
                old(self)@,
                *old(b),
                before,
                after,
                r as int,
                c as int,
                ls as int,
                ts as int,
                rs as int,
                bs as int,
            ),
            final(self)@.wf(),
            final(self)@.score <= old(self)@.score + 1,
    {
        if before.left_top_arc && after.left && after.top {
            change_ball_arc(b, ls + RADIUS, ts + RADIUS, false);
            self.hit(r - 1, c - 1);
        } else if before.right_top_arc && after.right && after.top {
            change_ball_arc(b, rs - RADIUS, ts + RADIUS, true);
            self.hit(r - 1, c + 1);
        } else if before.left_bottom_arc && after.left && after.bottom {
            change_ball_arc(b, ls + RADIUS, bs - RADIUS, true);
            self.hit(r + 1, c - 1);
        } else if before.right_bottom_arc && after.right && after.bottom {
            change_ball_arc(b, rs - RADIUS, bs - RADIUS, false);
            self.hit(r + 1, c + 1);
        }
    }

    /// Moves the ball one step and resolves its bounces. Returns whether the
    /// ball left the field.
    #[verifier::rlimit(100)]
    fn collide(&mut self, b: &mut Ball) -> (out: bool)
        requires
            old(self)@.wf(),
            old(b).valid(),
            old(self)@.score <= u64::MAX - 3,
        ensures
            (final(self)@, *final(b), out) == collide(old(self)@, *old(b)),
            final(self)@.wf(),
            final(self)@.score <= old(self)@.score + 3,
    {
        let (cr, rr) = locate(b.pos);
        let ls = cr * SIDE;
        let rs = (cr + 1) * SIDE - UNIT;
        let ts = rr * SIDE;
        let bs = (rr + 1) * SIDE - UNIT;
        let c = clip(cr, 0, (COLUMNS - 1) as i64);
        let r = clip(rr, 0, (ROWS - 1) as i64);
        let before = self.bounce_side(c, r);
        let ghost b0 = *b;
        b.pos = Point { x: b.pos.x + b.speed.x, y: b.pos.y + b.speed.y };
        let after = get_side(b.pos, ls, ts, rs, bs);
        let ghost bv0 = self@;
        let ghost moved = *b;
        assert(c == cr && r == rr);
        assert(moved == (Ball {
            pos: Point { x: (b0.pos.x + b0.speed.x) as i64, y: (b0.pos.y + b0.speed.y) as i64 },
            speed: b0.speed,
        }));
        self.bounce_x(b, before, after, r, c, ls, rs);
        proof {
            lemma_hit_keeps_other(bv0, r as int, c - 1, r - 1, c as int);
            lemma_hit_keeps_other(bv0, r as int, c + 1, r - 1, c as int);
            lemma_hit_keeps_other(bv0, r as int, c - 1, r + 1, c as int);
            lemma_hit_keeps_other(bv0, r as int, c + 1, r + 1, c as int);
        }
        let ghost bv1 = self@;
        if self.bounce_y(b, before, after, r, c, ts, bs) {
            return true;
        }
        proof {
            let ds = seq![-1int, 1];
            assert forall|i: int, j: int| 0 <= i < 2 && 0 <= j < 2 implies
                #[trigger] self@.is_corner_block(r + ds[i], c + ds[j]) == bv0.is_corner_block(r + ds[i], c + ds[j]) by {
                lemma_hit_keeps_other(bv0, r as int, c - 1, r + ds[i], c + ds[j]);
                lemma_hit_keeps_other(bv0, r as int, c + 1, r + ds[i], c + ds[j]);
                lemma_hit_keeps_other(bv1, r - 1, c as int, r + ds[i], c + ds[j]);
                lemma_hit_keeps_other(bv1, r + 1, c as int, r + ds[i], c + ds[j]);
            }
            assert(ds[0] == -1 && ds[1] == 1);
        }
        self.bounce_arc(b, before, after, r, c, ls, ts, rs, bs);
        if -UNIT < b.speed.y && b.speed.y < UNIT {
            b.speed.y = if b.speed.y > 0 {
                UNIT
            } else {
                -UNIT
            };
        }
        false
    }

    /// One step of one ball: the special tile under it takes effect, then the
    /// ball moves and bounces off the blocks around its cell, hitting each
    /// block it bounces off. Returns whether the ball is retired, by a
    /// removing tile or by leaving past the bottom. `draw` is the velocity
    /// that a random tile hands out (see `redirect`).
    pub fn bounce(&mut self, b: &mut Ball, draw: Vector) -> (exited: bool)
        requires
            old(self)@.wf(),
            old(b).valid(),
            speed_ok(draw),
            old(self)@.score <= u64::MAX - 3,
        ensures
            (final(self)@, *final(b), exited) == bounce_spec(old(self)@, *old(b), draw),
            final(self)@.wf(),
            final(self)@.score <= old(self)@.score + 3,
    {
        proof {
            reveal(bounce_spec);
        }
        if self.trigger_special(b, draw) {
            return true;
        }
        self.collide(b)
    }
    /// A board of the given difficulty with an empty grid, one ball per
    /// shot, no score and the launch point in the middle.
    pub fn new(difficulty: Difficulty) -> (r: Self)
        ensures
            r@.wf(),
            r@.difficulty == difficulty,
            r@.balls_num == 1,
            r@.score == 0,
            r@.start == CLIENT_WIDTH / 2,
            r@.doubled_score == false,
            forall|i: int| 0 <= i < ROWS * COLUMNS ==> r@.cells[i] == BallType::Empty,
    {
        let mut b = Board {
            map: Vec::new(),
            difficulty,
            score: 0,
            start: CLIENT_WIDTH / 2,
            startv: Vector { x: 0, y: -SPEED },
            sample: Point { x: CLIENT_WIDTH / 2, y: CLIENT_HEIGHT - RADIUS },
            balls_num: 1,
            doubled_score: false,
        };
        b.init(difficulty);
        b
    }

    /// Starts a new round: an empty grid, one ball per shot, no score, the
    /// launch point in the middle.
    pub fn init(&mut self, difficulty: Difficulty)
        requires
            speed_ok(old(self)@.startv),
        ensures
            final(self)@.wf(),
            final(self)@.difficulty == difficulty,
            final(self)@.balls_num == 1,
            final(self)@.score == 0,
            final(self)@.start == CLIENT_WIDTH / 2,
            final(self)@.doubled_score == old(self)@.doubled_score,
            final(self)@.startv == old(self)@.startv,
            final(self)@.sample == old(self)@.sample,
            forall|i: int| 0 <= i < ROWS * COLUMNS ==> final(self)@.cells[i] == BallType::Empty,
    {
        self.difficulty = difficulty;
        self.balls_num = 1;
        self.start = CLIENT_WIDTH / 2;
        let mut map: Vec<BallType> = Vec::new();
        let mut i: usize = 0;
        while i < ROWS * COLUMNS
            invariant
                i <= ROWS * COLUMNS,
                map@.len() == i,
                forall|j: int| 0 <= j < i ==> map@[j] == BallType::Empty,
            decreases ROWS * COLUMNS - i,
        {
            map.push(BallType::Empty);
            i = i + 1;
        }
        self.map = map;
        self.score = 0;
    }

    /// Whether the bottom row holds a block: the round is over.
    pub fn is_over(&self) -> (r: bool)
        requires
            self@.wf(),
        ensures
            r == bottom_reached(self@.cells),
    {
        let mut c: usize = 0;
        while c < COLUMNS
            invariant
                c <= COLUMNS,
                self@.wf(),
                forall|k: int|
                    0 <= k < c ==> !(#[trigger] self@.cells[cell_index(ROWS - 1, k)]).is_block(),
            decreases COLUMNS - c,
        {
            if self.map[(ROWS - 1) * COLUMNS + c].is_normal() {
                assert(self@.cells[cell_index(ROWS - 1, c as int)].is_block());
                return true;
            }
            c = c + 1;
        }
        false
    }

    /// Moves every row down by one, clearing spent random tiles on the way;
    /// then, unless the bottom row now holds a block (the round is over, and
    /// `false` comes back with the top row untouched), fills the top row from
    /// `draw`.
    pub fn reset(&mut self, draw: &RowDraw) -> (r: bool)
        requires
            old(self)@.wf(),
            draw.wf(),
        ensures
            final(self)@.wf(),
            r == !bottom_reached(shifted(old(self)@.cells)),
            forall|i: int|
                COLUMNS <= i < ROWS * COLUMNS ==> final(self)@.cells[i] == shifted(
                    old(self)@.cells,
                )[i],
            !r ==> forall|c: int| 0 <= c < COLUMNS ==> final(self)@.cells[c] == old(self)@.cells[c],
            r ==> forall|c: int|
                0 <= c < COLUMNS ==> final(self)@.cells[c] == new_row_cell(old(self)@, *draw, c),
            final(self)@.cells.len() == old(self)@.cells.len(),
            final(self)@.difficulty == old(self)@.difficulty,
            final(self)@.score == old(self)@.score,
            final(self)@.start == old(self)@.start,
            final(self)@.startv == old(self)@.startv,
            final(self)@.sample == old(self)@.sample,
            final(self)@.balls_num == old(self)@.balls_num,
            final(self)@.doubled_score == old(self)@.doubled_score,
    {
        let ghost old_cells = self@.cells;
        let mut i: usize = ROWS * COLUMNS;
        while i > COLUMNS
            invariant
                COLUMNS <= i <= ROWS * COLUMNS,
                self@.cells.len() == ROWS * COLUMNS,
                old_cells.len() == ROWS * COLUMNS,
                forall|j: int| 0 <= j < i ==> self@.cells[j] == old_cells[j],
                forall|j: int| i <= j < ROWS * COLUMNS ==> self@.cells[j] == shifted(old_cells)[j],
                self@ == (BoardView { cells: self@.cells, ..old(self)@ }),
            decreases i,
        {
            i = i - 1;
            let t = self.map[i - COLUMNS];
            let nb = match t {
                BallType::Special(Special::RandomOld) => BallType::Empty,
                _ => t,
            };
            self.map.set(i, nb);
        }
        assert(self@.cells =~= shifted(old_cells));
        assert(self@.wf());
        if self.is_over() {
            return false;
        }
        let ghost mid = self@;
        let mut c: usize = 0;
        while c < COLUMNS
            invariant
                c <= COLUMNS,
                draw.wf(),
                self@.cells.len() == ROWS * COLUMNS,
                mid.cells.len() == ROWS * COLUMNS,
                forall|j: int| COLUMNS <= j < ROWS * COLUMNS ==> self@.cells[j] == mid.cells[j],
                forall|j: int| 0 <= j < c ==> self@.cells[j] == (if draw.blocks@[j] > 0 {
                    BallType::Normal(draw.blocks@[j])
                } else {
                    BallType::Empty
                }),
                self@ == (BoardView { cells: self@.cells, ..mid }),
            decreases COLUMNS - c,
        {
            let v = draw.blocks[c];
            if v > 0 {
                self.map.set(c, BallType::Normal(v));
            } else {
                self.map.set(c, BallType::Empty);
            }
            c = c + 1;
        }
        if let Some(rc) = draw.random_col {
            self.map.set(rc, BallType::Special(Special::Random));
        }
        if let Some(dc) = draw.delete_col {
            self.map.set(dc, BallType::Special(Special::Delete));
        }
        if let Some(dc) = draw.double_col {
            self.map.set(dc, BallType::Special(Special::DoubleScore));
        }
        if self.balls_num < SPAWN_CEILING && (self.difficulty == Difficulty::Compete
            || draw.spawn_coin) {
            self.map.set(draw.spawn_col, BallType::Special(Special::New));
        }
        assert forall|i: int| 0 <= i < self@.cells.len() implies (#[trigger] self@.cells[i]).wf() by {
            if i >= COLUMNS {
                assert(self@.cells[i] == mid.cells[i]);
            }
        }
        true
    }
    /// The launch point.
    pub fn startp(&self) -> (r: Point)
        ensures
            r == self@.startp(),
    {
        Point { x: self.start, y: CLIENT_HEIGHT - RADIUS }
    }

    /// The launch velocity toward target `p` at the given speed (see
    /// `launch_spec`).
    fn get_start(&self, p: Point, speed: i64) -> (r: Vector)
        requires
            self@.wf(),
            -TARGET_LIMIT <= p.x <= TARGET_LIMIT,
            -TARGET_LIMIT <= p.y <= TARGET_LIMIT,
            0 < speed <= SPEED,
        ensures
            r == launch_spec(p.x - self@.start, p.y - (CLIENT_HEIGHT - RADIUS), speed as int),
            -speed <= r.x <= speed,
            -speed <= r.y <= -(speed * UNIT / (SPEED as int)),
    {
        let dx = p.x - self.start;
        let dy = p.y - (CLIENT_HEIGHT - RADIUS);
        assert(-0x2000_0000 <= dx <= 0x2000_0000 && -0x2000_0000 <= dy <= 0x2000_0000);
        assert(dx * dx <= 0x0400_0000_0000_0000 && dy * dy <= 0x0400_0000_0000_0000 && dx * dx
            >= 0 && dy * dy >= 0) by (nonlinear_arith)
            requires
                -0x2000_0000 <= dx <= 0x2000_0000,
                -0x2000_0000 <= dy <= 0x2000_0000,
        ;
        let n = (dx * dx + dy * dy) as u64;
        let len = sqrt_floor(n) as i64;
        proof {
            lemma_isqrt_unique(n as int, len as int);
            assert(-len <= dx <= len && -len <= dy <= len) by (nonlinear_arith)
                requires
                    dx * dx + dy * dy < (len + 1) * (len + 1),
                    dx * dx >= 0,
                    dy * dy >= 0,
                    len >= 0,
            ;
            assert(len <= 0x4000_0000) by (nonlinear_arith)
                requires
                    len * len <= n,
                    n < 0x1000_0000_0000_0000,
                    len >= 0,
            ;
        }
        let lim = -(speed * UNIT / SPEED);
        let vx = if len == 0 {
            0
        } else {
            scale_component(dx, speed, len)
        };
        let vy = if len == 0 {
            0
        } else {
            scale_component(dy, speed, len)
        };
        Vector { x: vx, y: if vy > lim {
            lim
        } else {
            vy
        } }
    }

    /// Traces the aiming preview toward target `p`: a slow ghost ball leaves
    /// the launch point with the launch direction and goes on while
    /// `preview_free` holds; its last free position is the preview point.
    pub fn update_sample(&mut self, p: Point)
        requires
            old(self)@.wf(),
            -TARGET_LIMIT <= p.x <= TARGET_LIMIT,
            -TARGET_LIMIT <= p.y <= TARGET_LIMIT,
        ensures
            ({
                let v = launch_spec(
                    p.x - old(self)@.start,
                    p.y - (CLIENT_HEIGHT - RADIUS),
                    PREVIEW_SPEED as int,
                );
                let s = old(self)@.startp();
                exists|k: int|
                    k >= 1 && final(self)@.sample.x == s.x + (k - 1) * v.x && final(self)@.sample.y
                        == s.y + (k - 1) * v.y && !preview_step_free(old(self)@, s, v, k) && forall|
                        j: int,
                    |
                        1 <= j < k ==> #[trigger] preview_step_free(old(self)@, s, v, j)
            }),
            final(self)@ == (BoardView { sample: final(self)@.sample, ..old(self)@ }),
    {
        let v = self.get_start(p, PREVIEW_SPEED);
        let s = self.startp();
        let ghost bv0 = self@;
        let mut x = s.x + v.x;
        let mut y = s.y + v.y;
        let ghost mut k: int = 1;
        assert(x == s.x + 1 * v.x && y == s.y + 1 * v.y);
        while self.preview_free(x, y)
            invariant
                self@.wf(),
                -SPEED <= v.x <= SPEED,
                -SPEED <= v.y < 0,
                k >= 1,
                x == s.x + k * v.x,
                y == s.y + k * v.y,
                -2 * SPEED <= x <= CLIENT_WIDTH + 2 * SPEED,
                -2 * SPEED <= y <= CLIENT_HEIGHT,
                self@ == bv0,
                forall|j: int| 1 <= j < k ==> #[trigger] preview_step_free(bv0, s, v, j),
            decreases y + 2 * SPEED,
        {
            proof {
                assert(s.x + (k + 1) * v.x == s.x + k * v.x + v.x) by (nonlinear_arith);
                assert(s.y + (k + 1) * v.y == s.y + k * v.y + v.y) by (nonlinear_arith);
            }
            x = x + v.x;
            y = y + v.y;
            proof {
                k = k + 1;
            }
        }
        proof {
            assert(x - v.x == s.x + (k - 1) * v.x) by (nonlinear_arith)
                requires
                    x == s.x + k * v.x,
            ;
            assert(y - v.y == s.y + (k - 1) * v.y) by (nonlinear_arith)
                requires
                    y == s.y + k * v.y,
            ;
        }
        self.sample = Point { x: x - v.x, y: y - v.y };
        assert(!preview_step_free(bv0, s, v, k));
        assert(self@.sample.x == s.x + (k - 1) * v.x && self@.sample.y == s.y + (k - 1) * v.y);
    }

    /// Whether the ghost ball of the preview may go on at `(x, y)`.
    fn preview_free(&self, x: i64, y: i64) -> (r: bool)
        requires
            self@.wf(),
            -4 * SIDE <= x <= 12 * SIDE,
            -4 * SIDE <= y <= 12 * SIDE,
        ensures
            r == preview_free(self@, x as int, y as int),
    {
        if !(RADIUS <= x && x <= CLIENT_WIDTH - RADIUS && RADIUS <= y) {
            return false;
        }
        let r = (y - RADIUS) / SIDE;
        let c1 = (x - RADIUS) / SIDE;
        let c2 = (x + RADIUS) / SIDE;
        match (self.is_normal(r, c1), self.is_normal(r, c2)) {
            (Some(b1), Some(b2)) => !b1 && !b2,
            _ => false,
        }
    }
    /// The launch velocity of the current shot.
    pub fn start_velocity(&self) -> (r: Vector)
        ensures
            r == self@.startv,
    {
        self.startv
    }

    /// Ends a shot: the launch point moves to `new_start` if there is one,
    /// and the double score of the shot ends.
    pub(crate) fn commit_shot(&mut self, new_start: Option<i64>)
        requires
            old(self)@.wf(),
            new_start.is_some() ==> RADIUS <= new_start.unwrap() <= CLIENT_WIDTH - RADIUS,
        ensures
            final(self)@ == (BoardView {
                start: match new_start {
                    Some(s) => s as int,
                    None => old(self)@.start,
                },
                doubled_score: false,
                ..old(self)@
            }),
            final(self)@.wf(),
    {
        if let Some(s) = new_start {
            self.start = s;
        }
        self.doubled_score = false;
    }

    /// Launches a shot toward target `p`: the launch velocity is set, and a
    /// ticker comes back with all of this shot's balls still to spawn.
    pub fn start(&mut self, p: Point) -> (t: MapTicker)
        requires
            old(self)@.wf(),
            -TARGET_LIMIT <= p.x <= TARGET_LIMIT,
            -TARGET_LIMIT <= p.y <= TARGET_LIMIT,
        ensures
            final(self)@ == (BoardView {
                startv: launch_spec(
                    p.x - old(self)@.start,
                    p.y - (CLIENT_HEIGHT - RADIUS),
                    SPEED as int,
                ),
                ..old(self)@
            }),
            final(self)@.wf(),
            t@ == (TickerView {
                balls: Seq::empty(),
                remain: old(self)@.balls_num,
                stopped: 0,
                iloop: 3,
                new_start: None,
            }),
            t@.wf(),
    {
        self.startv = self.get_start(p, SPEED);
        MapTicker::new(self.balls_num)
    }

    pub fn balls(&self) -> (r: &Vec<BallType>)
        ensures
            r@ == self@.cells,
    {
        &self.map
    }

    /// The cell at row `r`, column `c`.
    pub fn cell(&self, r: usize, c: usize) -> (b: BallType)
        requires
            self@.wf(),
            r < ROWS,
            c < COLUMNS,
        ensures
            b == self@.cell(r as int, c as int),
    {
        self.map[r * COLUMNS + c]
    }

    pub fn difficulty(&self) -> (r: Difficulty)
        ensures
            r == self@.difficulty,
    {
        self.difficulty
    }

    pub fn balls_num(&self) -> (r: usize)
        ensures
            r == self@.balls_num,
    {
        self.balls_num
    }

    pub fn score(&self) -> (r: u64)
        ensures
            r == self@.score,
    {
        self.score
    }

    pub fn column_len(&self) -> (r: usize)
        ensures
            r == COLUMNS,
    {
        COLUMNS
    }

    pub fn row_len(&self) -> (r: usize)
        ensures
            r == ROWS,
    {
        ROWS
    }

    /// The preview point of the aiming trace.
    pub fn sample(&self) -> (r: Point)
        ensures
            r == self@.sample,
    {
        self.sample
    }

    /// Whether the current shot scores double.
    pub fn doubled_score(&self) -> (r: bool)
        ensures
            r == self@.doubled_score,
    {
        self.doubled_score
    }
    /// A board from its parts, with the preview point at the launch point.
    pub(crate) fn from_parts(
        map: Vec<BallType>,
        difficulty: Difficulty,
        score: u64,
        start: i64,
        startv: Vector,
        balls_num: usize,
        doubled_score: bool,
    ) -> (r: Self)
        ensures
            r@ == (BoardView {
                cells: map@,
                difficulty,
                score: score as int,
                start: start as int,
                startv,
                sample: Point { x: start, y: (CLIENT_HEIGHT - RADIUS) as i64 },
                balls_num: balls_num as int,
                doubled_score,
            }),
    {
        Board {
            map,
            difficulty,
            score,
            start,
            startv,
            sample: Point { x: start, y: CLIENT_HEIGHT - RADIUS },
            balls_num,
            doubled_score,
        }
    }
}

} // verus!
