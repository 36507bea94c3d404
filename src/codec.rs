use vstd::prelude::*;

use crate::board::{Board, BoardView};
use crate::cell::{difficulty_code, BallType, Difficulty, Special};
use crate::geom::{
    Ball, Point, Vector, CLIENT_HEIGHT, CLIENT_WIDTH, COLUMNS, RADIUS, ROWS, SPEED,
};
use crate::num::{
    bits_of_units, bits_to_units, get_le, le_bytes, le_value, lemma_le_round_trip,
    lemma_le_value_bound, lemma_pow256_facts, lemma_units_round_trip, put_le,
    units_of_bits, units_to_bits, DOUBLE_LIMIT,
};
use crate::ticker::{MapTicker, TickerView};

verus! {

/// The record format this library reads and writes.
pub const RECORD_VERSION: i32 = 2;

/// Why a record could not be read. All of these mean the data is invalid.
#[derive(Debug, PartialEq, Eq, Structural, Clone, Copy)]
pub enum RecordError {
    /// The record ends before a field it needs.
    Truncated,
    /// The record is of another format version.
    Version,
    /// The difficulty code is unknown.
    Difficulty,
    /// A cell code is unknown.
    Cell,
    /// A value is out of its range: a number that is not finite or too large,
    /// a launch point or a ball off the field, a velocity faster than a shot,
    /// or counts that do not add up.
    Value,
}

/// Offset of the shot block.
pub const SHOT_AT: usize = 264;

/// Offset of the first live ball.
pub const BALLS_AT: usize = 284;

/// Bytes per live ball.
pub const BALL_SIZE: usize = 32;

/// The unsigned number in `k` bytes at `off`.
pub open spec fn u_at(s: Seq<u8>, off: int, k: int) -> int {
    le_value(s.subrange(off, off + k)) as int
}

/// The 32-bit signed number at `off`.
pub open spec fn i32_at(s: Seq<u8>, off: int) -> int {
    let u = u_at(s, off, 4);
    if u < 0x8000_0000 {
        u
    } else {
        u - 0x1_0000_0000
    }
}

/// The binary64 at `off`, in units.
pub open spec fn units_at(s: Seq<u8>, off: int) -> Option<int> {
    units_of_bits(u_at(s, off, 8))
}

/// The cell that a code names.
pub open spec fn cell_of_code(v: int) -> Option<BallType> {
    if 1 <= v <= i32::MAX {
        Some(BallType::Normal(v as i32))
    } else if v == 0 {
        Some(BallType::Empty)
    } else if v == -1 {
        Some(BallType::Special(Special::New))
    } else if v == -2 {
        Some(BallType::Special(Special::Delete))
    } else if v == -3 {
        Some(BallType::Special(Special::Random))
    } else if v == -4 {
        Some(BallType::Special(Special::RandomOld))
    } else if v == -5 {
        Some(BallType::Special(Special::DoubleScore))
    } else {
        None
    }
}

/// The difficulty that a code names.
pub open spec fn difficulty_of_code(v: int) -> Option<Difficulty> {
    if v == 0 {
        Some(Difficulty::Simple)
    } else if v == 1 {
        Some(Difficulty::Normal)
    } else if v == 2 {
        Some(Difficulty::Hard)
    } else if v == 3 {
        Some(Difficulty::Compete)
    } else {
        None
    }
}

/// Cell `i` of the record.
pub open spec fn cell_at(s: Seq<u8>, i: int) -> Option<BallType> {
    cell_of_code(i32_at(s, 72 + 4 * i))
}

/// Live ball `i` of the record.
pub open spec fn ball_at(s: Seq<u8>, i: int) -> Option<Ball> {
    let o = BALLS_AT + BALL_SIZE * i;
    match (units_at(s, o), units_at(s, o + 8), units_at(s, o + 16), units_at(s, o + 24)) {
        (Some(px), Some(py), Some(vx), Some(vy)) => Some(
            Ball {
                pos: Point { x: px as i64, y: py as i64 },
                speed: Vector { x: vx as i64, y: vy as i64 },
            },
        ),
        _ => None,
    }
}

/// The number of live balls that the record announces.
pub open spec fn live_at(s: Seq<u8>) -> int {
    u_at(s, 276, 8)
}

/// The head's numbers are all readable and in range.
pub open spec fn header_ok(s: Seq<u8>) -> bool {
    &&& units_at(s, 8) is Some
    &&& units_at(s, 24) is Some
    &&& units_at(s, 40) is Some
    &&& units_at(s, 48) is Some
    &&& 1 <= i32_at(s, 4)
    &&& RADIUS <= units_at(s, 8).unwrap() <= CLIENT_WIDTH - RADIUS
    &&& -SPEED <= units_at(s, 40).unwrap() <= SPEED
    &&& -SPEED <= units_at(s, 48).unwrap() <= SPEED
}

/// The board that a record describes.
pub open spec fn board_of(s: Seq<u8>) -> BoardView {
    let start = units_at(s, 8).unwrap();
    BoardView {
        cells: Seq::new((ROWS * COLUMNS) as nat, |i: int| cell_at(s, i).unwrap()),
        difficulty: difficulty_of_code(i32_at(s, 68)).unwrap(),
        score: u_at(s, 60, 8),
        start,
        startv: Vector { x: units_at(s, 40).unwrap() as i64, y: units_at(s, 48).unwrap() as i64 },
        sample: Point { x: start as i64, y: (CLIENT_HEIGHT - RADIUS) as i64 },
        balls_num: i32_at(s, 4),
        doubled_score: i32_at(s, 56) != 0,
    }
}

/// The launch point of the next shot that the record names, if it differs
/// from the current one.
pub open spec fn new_start_of(s: Seq<u8>) -> Option<i64> {
    if units_at(s, 24).unwrap() != units_at(s, 8).unwrap() {
        Some(units_at(s, 24).unwrap() as i64)
    } else {
        None
    }
}

/// The shot block's numbers and balls are all readable and in range.
pub open spec fn shot_ok(s: Seq<u8>) -> bool {
    let live = live_at(s);
    &&& forall|i: int|
        0 <= i < live ==> (#[trigger] ball_at(s, i)) is Some && ball_at(s, i).unwrap().valid()
    &&& 0 <= i32_at(s, 268)
    &&& i32_at(s, 268) + live <= i32_at(s, SHOT_AT as int)
    &&& 0 <= i32_at(s, 272) < 4
    &&& new_start_of(s) is Some ==> RADIUS <= new_start_of(s).unwrap() <= CLIENT_WIDTH - RADIUS
}

/// The shot that a record describes.
pub open spec fn ticker_of(s: Seq<u8>) -> TickerView {
    let live = live_at(s);
    TickerView {
        balls: Seq::new(live as nat, |i: int| ball_at(s, i).unwrap()),
        remain: i32_at(s, SHOT_AT as int) - i32_at(s, 268) - live,
        stopped: i32_at(s, 268),
        iloop: i32_at(s, 272),
        new_start: new_start_of(s),
    }
}

/// What a record reads as: the board and the shot in progress, if any, or
/// the first thing wrong with it, in this order: too short for the version,
/// another version, too short for the head, the difficulty, a cell, a value
/// of the head, too short for the balls, a value of the shot.
pub open spec fn parse(s: Seq<u8>) -> Result<(BoardView, Option<TickerView>), RecordError> {
    if s.len() < 4 {
        Err(RecordError::Truncated)
    } else if i32_at(s, 0) != RECORD_VERSION {
        Err(RecordError::Version)
    } else if s.len() < BALLS_AT {
        Err(RecordError::Truncated)
    } else if difficulty_of_code(i32_at(s, 68)) is None {
        Err(RecordError::Difficulty)
    } else if exists|i: int| 0 <= i < ROWS * COLUMNS && (#[trigger] cell_at(s, i)) is None {
        Err(RecordError::Cell)
    } else if !header_ok(s) {
        Err(RecordError::Value)
    } else if live_at(s) == 0 {
        Ok((board_of(s), None))
    } else if s.len() < BALLS_AT + BALL_SIZE * live_at(s) {
        Err(RecordError::Truncated)
    } else if !shot_ok(s) {
        Err(RecordError::Value)
    } else {
        Ok((board_of(s), Some(ticker_of(s))))
    }
}

/// The view of a decoding result.
pub open spec fn result_view(r: Result<(Board, Option<MapTicker>), RecordError>) -> Result<
    (BoardView, Option<TickerView>),
    RecordError,
> {
    match r {
        Ok((b, t)) => Ok(
            (
                b@,
                match t {
                    Some(t) => Some(t@),
                    None => None,
                },
            ),
        ),
        Err(e) => Err(e),
    }
}

fn read_i32(bytes: &Vec<u8>, off: usize) -> (r: i32)
    requires
        off + 4 <= bytes@.len(),
    ensures
        r == i32_at(bytes@, off as int),
{
    let u = get_le(bytes, off, 4);
    proof {
        lemma_le_value_bound(bytes@.subrange(off as int, off + 4));
        lemma_pow256_facts();
    }
    if u < 0x8000_0000 {
        u as i32
    } else {
        (u as i64 - 0x1_0000_0000) as i32
    }
}

fn read_u64(bytes: &Vec<u8>, off: usize) -> (r: u64)
    requires
        off + 8 <= bytes@.len(),
    ensures
        r == u_at(bytes@, off as int, 8),
{
    get_le(bytes, off, 8)
}

fn read_units(bytes: &Vec<u8>, off: usize) -> (r: Option<i64>)
    requires
        off + 8 <= bytes@.len(),
    ensures
        r.is_some() == units_at(bytes@, off as int).is_some(),
        r.is_some() ==> r.unwrap() == units_at(bytes@, off as int).unwrap(),
{
    bits_to_units(get_le(bytes, off, 8))
}

/// The four bytes of a 32-bit signed field.
pub open spec fn le32(v: int) -> Seq<u8> {
    le_bytes(
        (if v >= 0 {
            v
        } else {
            v + 0x1_0000_0000
        }) as nat,
        4,
    )
}

/// The eight bytes of a 64-bit unsigned field.
pub open spec fn le64(v: int) -> Seq<u8> {
    le_bytes(v as nat, 8)
}

/// The eight bytes of a binary64 field holding `x` units.
pub open spec fn le_double(x: int) -> Seq<u8> {
    le_bytes(bits_of_units(x) as nat, 8)
}

/// The height of the launch line, written beside each launch point.
pub open spec fn anchor_y() -> int {
    CLIENT_HEIGHT - RADIUS
}

/// The launch point that the record names for the next shot.
pub open spec fn end_pos(bv: BoardView, t: Option<TickerView>) -> int {
    match t {
        Some(t) => match t.new_start {
            Some(x) => x as int,
            None => bv.start,
        },
        None => bv.start,
    }
}

/// The fixed-size head of a record.
pub open spec fn header_bytes(bv: BoardView, end: int) -> Seq<u8> {
    le32(RECORD_VERSION as int) + le32(bv.balls_num) + le_double(bv.start) + le_double(anchor_y())
        + le_double(end) + le_double(anchor_y()) + le_double(bv.startv.x as int) + le_double(
        bv.startv.y as int,
    ) + le32(
        if bv.doubled_score {
            1
        } else {
            0
        },
    ) + le64(bv.score) + le32(difficulty_code(bv.difficulty))
}

/// The cell codes, in row-major order.
pub open spec fn cells_bytes(cells: Seq<BallType>) -> Seq<u8>
    decreases cells.len(),
{
    if cells.len() == 0 {
        Seq::empty()
    } else {
        cells_bytes(cells.drop_last()) + le32(cells.last().code())
    }
}

/// Position and velocity of each live ball.
pub open spec fn balls_bytes(balls: Seq<Ball>) -> Seq<u8>
    decreases balls.len(),
{
    if balls.len() == 0 {
        Seq::empty()
    } else {
        let b = balls.last();
        balls_bytes(balls.drop_last()) + le_double(b.pos.x as int) + le_double(b.pos.y as int)
            + le_double(b.speed.x as int) + le_double(b.speed.y as int)
    }
}

/// The shot block: counts, spawn phase and live balls; with no shot, the
/// counts of a shot that has not begun and no balls.
pub open spec fn shot_bytes(bv: BoardView, t: Option<TickerView>) -> Seq<u8> {
    match t {
        Some(t) => le32(t.total()) + le32(t.stopped) + le32(t.iloop) + le64(t.balls.len() as int)
            + balls_bytes(t.balls),
        None => le32(bv.balls_num) + le32(bv.balls_num) + le32(0) + le64(0),
    }
}

/// The record of a board and the shot in progress, if any.
pub open spec fn record(bv: BoardView, t: Option<TickerView>) -> Seq<u8> {
    header_bytes(bv, end_pos(bv, t)) + cells_bytes(bv.cells) + shot_bytes(bv, t)
}

/// The view of an optional ticker.
pub open spec fn ticker_view(t: Option<&MapTicker>) -> Option<TickerView> {
    match t {
        Some(t) => Some(t@),
        None => None,
    }
}

proof fn lemma_i32_field(v: int)
    requires
        i32::MIN <= v <= i32::MAX,
    ensures
        le32(v).len() == 4,
        ({
            let u = le_value(le32(v)) as int;
            (if u < 0x8000_0000 {
                u
            } else {
                u - 0x1_0000_0000
            }) == v
        }),
{
    lemma_pow256_facts();
    let u = if v >= 0 {
        v
    } else {
        v + 0x1_0000_0000
    };
    lemma_le_round_trip(u as nat, 4);
}

proof fn lemma_u64_field(v: int)
    requires
        0 <= v <= u64::MAX,
    ensures
        le64(v).len() == 8,
        le_value(le64(v)) == v,
{
    lemma_pow256_facts();
    lemma_le_round_trip(v as nat, 8);
}

proof fn lemma_double_field(x: int)
    requires
        -DOUBLE_LIMIT < x < DOUBLE_LIMIT,
    ensures
        le_double(x).len() == 8,
        units_of_bits(le_value(le_double(x)) as int) == Some(x),
{
    lemma_pow256_facts();
    lemma_units_round_trip(x);
    lemma_le_round_trip(bits_of_units(x) as nat, 8);
}

/// Where the code of cell `i` lies in the cell block.
proof fn lemma_cells_bytes(cells: Seq<BallType>, i: int)
    requires
        0 <= i < cells.len(),
    ensures
        cells_bytes(cells).len() == 4 * cells.len(),
        cells_bytes(cells).subrange(4 * i, 4 * i + 4) == le32(cells[i].code()),
    decreases cells.len(),
{
    lemma_pow256_facts();
    let pre = cells.drop_last();
    if i < cells.len() - 1 {
        lemma_cells_bytes(pre, i);
        assert(cells_bytes(cells).subrange(4 * i, 4 * i + 4) =~= cells_bytes(pre).subrange(
            4 * i,
            4 * i + 4,
        ));
    } else {
        if pre.len() > 0 {
            lemma_cells_bytes(pre, 0);
        } else {
            assert(cells_bytes(pre) == Seq::<u8>::empty());
        }
        assert(cells_bytes(cells).subrange(4 * i, 4 * i + 4) =~= le32(cells[i].code()));
    }
}

/// Where ball `i` lies in the ball block.
proof fn lemma_balls_bytes(balls: Seq<Ball>, i: int)
    requires
        0 <= i < balls.len(),
    ensures
        balls_bytes(balls).len() == 32 * balls.len(),
        balls_bytes(balls).subrange(32 * i, 32 * i + 8) == le_double(balls[i].pos.x as int),
        balls_bytes(balls).subrange(32 * i + 8, 32 * i + 16) == le_double(balls[i].pos.y as int),
        balls_bytes(balls).subrange(32 * i + 16, 32 * i + 24) == le_double(
            balls[i].speed.x as int,
        ),
        balls_bytes(balls).subrange(32 * i + 24, 32 * i + 32) == le_double(
            balls[i].speed.y as int,
        ),
    decreases balls.len(),
{
    lemma_pow256_facts();
    let pre = balls.drop_last();
    let all = balls_bytes(balls);
    if i < balls.len() - 1 {
        lemma_balls_bytes(pre, i);
        let p = balls_bytes(pre);
        assert(all.subrange(32 * i, 32 * i + 8) =~= p.subrange(32 * i, 32 * i + 8));
        assert(all.subrange(32 * i + 8, 32 * i + 16) =~= p.subrange(32 * i + 8, 32 * i + 16));
        assert(all.subrange(32 * i + 16, 32 * i + 24) =~= p.subrange(32 * i + 16, 32 * i + 24));
        assert(all.subrange(32 * i + 24, 32 * i + 32) =~= p.subrange(32 * i + 24, 32 * i + 32));
    } else {
        if pre.len() > 0 {
            lemma_balls_bytes(pre, 0);
        } else {
            assert(balls_bytes(pre) == Seq::<u8>::empty());
        }
        let b = balls[i];
        assert(all.subrange(32 * i, 32 * i + 8) =~= le_double(b.pos.x as int));
        assert(all.subrange(32 * i + 8, 32 * i + 16) =~= le_double(b.pos.y as int));
        assert(all.subrange(32 * i + 16, 32 * i + 24) =~= le_double(b.speed.x as int));
        assert(all.subrange(32 * i + 24, 32 * i + 32) =~= le_double(b.speed.y as int));
    }
}

fn put_i32(buf: &mut Vec<u8>, v: i32)
    ensures
        final(buf)@ == old(buf)@ + le32(v as int),
{
    let u: u64 = if v >= 0 {
        v as u64
    } else {
        (v as i64 + 0x1_0000_0000) as u64
    };
    proof {
        lemma_pow256_facts();
    }
    put_le(buf, u, 4);
}

fn put_u64(buf: &mut Vec<u8>, v: u64)
    ensures
        final(buf)@ == old(buf)@ + le64(v as int),
{
    proof {
        lemma_pow256_facts();
    }
    put_le(buf, v, 8);
}

fn put_double(buf: &mut Vec<u8>, x: i64)
    requires
        -DOUBLE_LIMIT < x < DOUBLE_LIMIT,
    ensures
        final(buf)@ == old(buf)@ + le_double(x as int),
{
    let b = units_to_bits(x);
    proof {
        lemma_pow256_facts();
    }
    put_le(buf, b, 8);
}

impl Board {
    /// The record of this board and of the shot in progress, if any.
    pub fn to_vec(&self, ticker: Option<&MapTicker>) -> (r: Vec<u8>)
        requires
            self@.wf(),
            ticker.is_some() ==> ticker.unwrap()@.wf(),
        ensures
            r@ == record(self@, ticker_view(ticker)),
    {
        let mut w: Vec<u8> = Vec::new();
        let ghost t = ticker_view(ticker);
        put_i32(&mut w, RECORD_VERSION);
        put_i32(&mut w, self.balls_num() as i32);
        let start = self.startp().x;
        put_double(&mut w, start);
        put_double(&mut w, CLIENT_HEIGHT - RADIUS);
        let end = match ticker {
            Some(t) => match t.new_startp() {
                Some(p) => p.x,
                None => start,
            },
            None => start,
        };
        put_double(&mut w, end);
        put_double(&mut w, CLIENT_HEIGHT - RADIUS);
        let v = self.start_velocity();
        put_double(&mut w, v.x);
        put_double(&mut w, v.y);
        put_i32(
            &mut w,
            if self.doubled_score() {
                1
            } else {
                0
            },
        );
        put_u64(&mut w, self.score());
        put_i32(&mut w, self.difficulty().to_i32());
        assert(w@ =~= header_bytes(self@, end_pos(self@, t)));
        let ghost head = w@;
        let cells = self.balls();
        let mut i: usize = 0;
        while i < ROWS * COLUMNS
            invariant
                i <= ROWS * COLUMNS,
                cells@ == self@.cells,
                self@.wf(),
                w@ == head + cells_bytes(cells@.take(i as int)),
            decreases ROWS * COLUMNS - i,
        {
            proof {
                assert(cells@.take(i + 1).drop_last() =~= cells@.take(i as int));
            }
            put_i32(&mut w, cells[i].to_i32());
            proof {
                assert(w@ =~= head + cells_bytes(cells@.take(i + 1)));
            }
            i = i + 1;
        }
        assert(cells@.take(ROWS * COLUMNS) =~= self@.cells);
        let ghost body = w@;
        match ticker {
            Some(t) => {
                let balls = t.balls();
                let n = balls.len();
                put_i32(&mut w, (t.stopped() + t.remain() + n) as i32);
                put_i32(&mut w, t.stopped() as i32);
                put_i32(&mut w, t.iloop() as i32);
                put_u64(&mut w, n as u64);
                let ghost mid = w@;
                let mut j: usize = 0;
                while j < n
                    invariant
                        j <= n == balls@.len(),
                        forall|k: int| 0 <= k < n ==> (#[trigger] balls@[k]).valid(),
                        w@ == mid + balls_bytes(balls@.take(j as int)),
                    decreases n - j,
                {
                    proof {
                        assert(balls@.take(j + 1).drop_last() =~= balls@.take(j as int));
                    }
                    let b = balls[j];
                    put_double(&mut w, b.pos.x);
                    put_double(&mut w, b.pos.y);
                    put_double(&mut w, b.speed.x);
                    put_double(&mut w, b.speed.y);
                    proof {
                        assert(w@ =~= mid + balls_bytes(balls@.take(j + 1)));
                    }
                    j = j + 1;
                }
                assert(balls@.take(n as int) =~= balls@);
            },
            None => {
                put_i32(&mut w, self.balls_num() as i32);
                put_i32(&mut w, self.balls_num() as i32);
                put_i32(&mut w, 0);
                put_u64(&mut w, 0);
            },
        }
        assert(w@ =~= record(self@, t));
        w
    }
    /// Reads a record back: the board and the shot in progress, if any, or
    /// the first thing wrong with the record (see `parse`).
    pub fn from_bytes(bytes: &Vec<u8>) -> (r: Result<(Board, Option<MapTicker>), RecordError>)
        ensures
            result_view(r) == parse(bytes@),
    {
        let len = bytes.len();
        if len < 4 {
            return Err(RecordError::Truncated);
        }
        if read_i32(bytes, 0) != RECORD_VERSION {
            return Err(RecordError::Version);
        }
        if len < BALLS_AT {
            return Err(RecordError::Truncated);
        }
        let difficulty = match Difficulty::from_i32(read_i32(bytes, 68)) {
            Some(d) => d,
            None => {
                return Err(RecordError::Difficulty);
            },
        };
        assert(difficulty_of_code(i32_at(bytes@, 68)) == Some(difficulty));
        let mut map: Vec<BallType> = Vec::new();
        let mut i: usize = 0;
        while i < ROWS * COLUMNS
            invariant
                i <= ROWS * COLUMNS,
                len == bytes@.len() >= BALLS_AT,
                i32_at(bytes@, 0) == RECORD_VERSION,
                difficulty_of_code(i32_at(bytes@, 68)) is Some,
                map@.len() == i,
                forall|k: int| 0 <= k < i ==> cell_at(bytes@, k) == Some(#[trigger] map@[k]),
            decreases ROWS * COLUMNS - i,
        {
            match BallType::from_i32(read_i32(bytes, 72 + 4 * i)) {
                Some(b) => {
                    map.push(b);
                },
                None => {
                    assert(cell_at(bytes@, i as int) is None);
                    return Err(RecordError::Cell);
                },
            }
            i = i + 1;
        }
        assert forall|k: int| 0 <= k < ROWS * COLUMNS implies #[trigger] cell_at(bytes@, k) is Some by {
            assert(cell_at(bytes@, k) == Some(map@[k]));
        }
        let balls_num = read_i32(bytes, 4);
        let (start, end, vx, vy) = match (
            read_units(bytes, 8),
            read_units(bytes, 24),
            read_units(bytes, 40),
            read_units(bytes, 48),
        ) {
            (Some(a), Some(b), Some(c), Some(d)) => (a, b, c, d),
            _ => {
                return Err(RecordError::Value);
            },
        };
        if !(1 <= balls_num && RADIUS <= start && start <= CLIENT_WIDTH - RADIUS && -SPEED <= vx
            && vx <= SPEED && -SPEED <= vy && vy <= SPEED) {
            return Err(RecordError::Value);
        }
        let doubled = read_i32(bytes, 56) != 0;
        let score = read_u64(bytes, 60);
        let board = Board::from_parts(
            map,
            difficulty,
            score,
            start,
            Vector { x: vx, y: vy },
            balls_num as usize,
            doubled,
        );
        assert(board@.cells =~= board_of(bytes@).cells);
        assert(board@ == board_of(bytes@));
        let live = read_u64(bytes, 276);
        if live == 0 {
            return Ok((board, None));
        }
        if live > ((len - BALLS_AT) / BALL_SIZE) as u64 {
            return Err(RecordError::Truncated);
        }
        assert(bytes@.len() >= BALLS_AT + BALL_SIZE * live_at(bytes@));
        let total = read_i32(bytes, SHOT_AT);
        let stopped = read_i32(bytes, 268);
        let iloop = read_i32(bytes, 272);
        let live = live as usize;
        let mut balls: Vec<Ball> = Vec::new();
        let mut j: usize = 0;
        while j < live
            invariant
                j <= live == live_at(bytes@),
                len == bytes@.len() >= BALLS_AT + BALL_SIZE * live,
                i32_at(bytes@, 0) == RECORD_VERSION,
                difficulty_of_code(i32_at(bytes@, 68)) is Some,
                forall|k: int| 0 <= k < ROWS * COLUMNS ==> #[trigger] cell_at(bytes@, k) is Some,
                header_ok(bytes@),
                live_at(bytes@) != 0,
                balls@.len() == j,
                forall|k: int|
                    0 <= k < j ==> ball_at(bytes@, k) == Some(#[trigger] balls@[k])
                        && balls@[k].valid(),
            decreases live - j,
        {
            let o = BALLS_AT + BALL_SIZE * j;
            match (
                read_units(bytes, o),
                read_units(bytes, o + 8),
                read_units(bytes, o + 16),
                read_units(bytes, o + 24),
            ) {
                (Some(px), Some(py), Some(sx), Some(sy)) => {
                    let b = Ball { pos: Point { x: px, y: py }, speed: Vector { x: sx, y: sy } };
                    if !(0 <= px && px <= CLIENT_WIDTH && 0 <= py && py <= CLIENT_HEIGHT && -SPEED
                        <= sx && sx <= SPEED && -SPEED <= sy && sy <= SPEED) {
                        assert(!ball_at(bytes@, j as int).unwrap().valid());
                        return Err(RecordError::Value);
                    }
                    balls.push(b);
                },
                _ => {
                    assert(ball_at(bytes@, j as int) is None);
                    return Err(RecordError::Value);
                },
            }
            j = j + 1;
        }
        let new_start = if end != start {
            Some(end)
        } else {
            None
        };
        if !(0 <= stopped && stopped as i64 + live as i64 <= total as i64 && 0 <= iloop && iloop
            < 4) {
            return Err(RecordError::Value);
        }
        if let Some(ns) = new_start {
            if !(RADIUS <= ns && ns <= CLIENT_WIDTH - RADIUS) {
                return Err(RecordError::Value);
            }
        }
        let ticker = MapTicker::from_parts(
            balls,
            (total as i64 - stopped as i64 - live as i64) as usize,
            stopped as usize,
            iloop as usize,
            new_start,
        );
        assert forall|k: int| 0 <= k < live implies (#[trigger] ball_at(bytes@, k)) is Some && ball_at(
            bytes@,
            k,
        ).unwrap().valid() by {
            assert(ball_at(bytes@, k) == Some(balls@[k]));
        }
        assert(shot_ok(bytes@));
        assert(ticker@.balls =~= ticker_of(bytes@).balls);
        Ok((board, Some(ticker)))
    }
}

proof fn lemma_sub_left(a: Seq<u8>, b: Seq<u8>, i: int, j: int)
    requires
        0 <= i <= j <= a.len(),
    ensures
        (a + b).subrange(i, j) == a.subrange(i, j),
{
    assert((a + b).subrange(i, j) =~= a.subrange(i, j));
}

proof fn lemma_sub_right(a: Seq<u8>, b: Seq<u8>, i: int, j: int)
    requires
        a.len() <= i <= j <= a.len() + b.len(),
    ensures
        (a + b).subrange(i, j) == b.subrange(i - a.len(), j - a.len()),
{
    assert((a + b).subrange(i, j) =~= b.subrange(i - a.len(), j - a.len()));
}

/// Where each field lies in the head of a record.
proof fn lemma_header_fields(bv: BoardView, end: int)
    requires
        bv.wf(),
        RADIUS <= end <= CLIENT_WIDTH - RADIUS,
    ensures
        ({
            let h = header_bytes(bv, end);
            &&& h.len() == 72
            &&& h.subrange(0, 4) == le32(RECORD_VERSION as int)
            &&& h.subrange(4, 8) == le32(bv.balls_num)
            &&& h.subrange(8, 16) == le_double(bv.start)
            &&& h.subrange(24, 32) == le_double(end)
            &&& h.subrange(40, 48) == le_double(bv.startv.x as int)
            &&& h.subrange(48, 56) == le_double(bv.startv.y as int)
            &&& h.subrange(56, 60) == le32(
                if bv.doubled_score {
                    1
                } else {
                    0
                },
            )
            &&& h.subrange(60, 68) == le64(bv.score)
            &&& h.subrange(68, 72) == le32(difficulty_code(bv.difficulty))
        }),
{
    lemma_pow256_facts();
    let h = header_bytes(bv, end);
    assert(h.subrange(0, 4) =~= le32(RECORD_VERSION as int));
    assert(h.subrange(4, 8) =~= le32(bv.balls_num));
    assert(h.subrange(8, 16) =~= le_double(bv.start));
    assert(h.subrange(24, 32) =~= le_double(end));
    assert(h.subrange(40, 48) =~= le_double(bv.startv.x as int));
    assert(h.subrange(48, 56) =~= le_double(bv.startv.y as int));
    assert(h.subrange(56, 60) =~= le32(
        if bv.doubled_score {
            1
        } else {
            0
        },
    ));
    assert(h.subrange(60, 68) =~= le64(bv.score));
    assert(h.subrange(68, 72) =~= le32(difficulty_code(bv.difficulty)));
}

/// A board as it reads back from its record: the preview point returns to
/// the launch point.
pub open spec fn reloaded_board(bv: BoardView) -> BoardView {
    BoardView { sample: bv.startp(), ..bv }
}

/// A shot as it reads back from its record: only a shot with live balls
/// comes back, and its next launch point only where it differs from the
/// board's.
pub open spec fn reloaded_shot(bv: BoardView, t: Option<TickerView>) -> Option<TickerView> {
    match t {
        Some(tv) => if tv.balls.len() > 0 {
            Some(
                TickerView {
                    new_start: if end_pos(bv, t) != bv.start {
                        Some(end_pos(bv, t) as i64)
                    } else {
                        None
                    },
                    ..tv
                },
            )
        } else {
            None
        },
        None => None,
    }
}

/// A buffer of another format version is refused as such.
pub proof fn lemma_version_mismatch(s: Seq<u8>)
    requires
        s.len() >= 4,
        i32_at(s, 0) != RECORD_VERSION,
    ensures
        parse(s) == Err::<(BoardView, Option<TickerView>), _>(RecordError::Version),
{
}

/// The head and the cells of a record read back as the board.
#[verifier::spinoff_prover]
proof fn lemma_record_board(bv: BoardView, t: Option<TickerView>)
    requires
        bv.wf(),
        t is Some ==> t.unwrap().wf(),
    ensures
        ({
            let rec = record(bv, t);
            &&& rec.len() >= BALLS_AT
            &&& i32_at(rec, 0) == RECORD_VERSION
            &&& difficulty_of_code(i32_at(rec, 68)) is Some
            &&& forall|i: int| 0 <= i < ROWS * COLUMNS ==> (#[trigger] cell_at(rec, i)) is Some
            &&& header_ok(rec)
            &&& board_of(rec) == reloaded_board(bv)
            &&& units_at(rec, 24) == Some(end_pos(bv, t))
        }),
{
    lemma_pow256_facts();
    let end = end_pos(bv, t);
    let h = header_bytes(bv, end);
    let c = cells_bytes(bv.cells);
    let sh = shot_bytes(bv, t);
    let rec = record(bv, t);
    let hc = h + c;
    lemma_header_fields(bv, end);
    lemma_cells_bytes(bv.cells, 0);
    assert(hc.len() == 264);
    assert(sh.len() >= 20);
    lemma_i32_field(RECORD_VERSION as int);
    lemma_i32_field(bv.balls_num);
    lemma_double_field(bv.start);
    lemma_double_field(end);
    lemma_double_field(bv.startv.x as int);
    lemma_double_field(bv.startv.y as int);
    lemma_i32_field(
        if bv.doubled_score {
            1
        } else {
            0
        },
    );
    lemma_u64_field(bv.score);
    lemma_i32_field(difficulty_code(bv.difficulty));
    let offs = seq![0int, 4, 8, 24, 40, 48, 56, 60, 68];
    let lens = seq![4int, 4, 8, 8, 8, 8, 4, 8, 4];
    assert forall|k: int| 0 <= k < 9 implies rec.subrange(offs[k], offs[k] + lens[k])
        == #[trigger] h.subrange(offs[k], offs[k] + lens[k]) by {
        lemma_sub_left(hc, sh, offs[k], offs[k] + lens[k]);
        lemma_sub_left(h, c, offs[k], offs[k] + lens[k]);
    }
    assert(rec.subrange(0, 4) == h.subrange(offs[0], offs[0] + lens[0]));
    assert(rec.subrange(4, 8) == h.subrange(offs[1], offs[1] + lens[1]));
    assert(rec.subrange(8, 16) == h.subrange(offs[2], offs[2] + lens[2]));
    assert(rec.subrange(24, 32) == h.subrange(offs[3], offs[3] + lens[3]));
    assert(rec.subrange(40, 48) == h.subrange(offs[4], offs[4] + lens[4]));
    assert(rec.subrange(48, 56) == h.subrange(offs[5], offs[5] + lens[5]));
    assert(rec.subrange(56, 60) == h.subrange(offs[6], offs[6] + lens[6]));
    assert(rec.subrange(60, 68) == h.subrange(offs[7], offs[7] + lens[7]));
    assert(rec.subrange(68, 72) == h.subrange(offs[8], offs[8] + lens[8]));
    assert(i32_at(rec, 0) == RECORD_VERSION);
    assert(i32_at(rec, 4) == bv.balls_num);
    assert(units_at(rec, 8) == Some(bv.start));
    assert(units_at(rec, 24) == Some(end));
    assert(units_at(rec, 40) == Some(bv.startv.x as int));
    assert(units_at(rec, 48) == Some(bv.startv.y as int));
    assert(u_at(rec, 60, 8) == bv.score);
    assert(difficulty_of_code(i32_at(rec, 68)) == Some(bv.difficulty));
    assert((i32_at(rec, 56) != 0) == bv.doubled_score);
    assert forall|i: int| 0 <= i < ROWS * COLUMNS implies #[trigger] cell_at(rec, i) == Some(
        bv.cells[i],
    ) by {
        lemma_cells_bytes(bv.cells, i);
        lemma_sub_left(hc, sh, 72 + 4 * i, 76 + 4 * i);
        lemma_sub_right(h, c, 72 + 4 * i, 76 + 4 * i);
        assert(bv.cells[i].wf());
        lemma_i32_field(bv.cells[i].code());
    }
    assert(board_of(rec).cells =~= bv.cells);
}

/// The shot block of a record reads back as the shot.
#[verifier::spinoff_prover]
proof fn lemma_record_shot(bv: BoardView, tv: TickerView)
    requires
        bv.wf(),
        tv.wf(),
    ensures
        ({
            let rec = record(bv, Some(tv));
            let live = tv.balls.len() as int;
            &&& live_at(rec) == live
            &&& i32_at(rec, SHOT_AT as int) == tv.total()
            &&& i32_at(rec, 268) == tv.stopped
            &&& i32_at(rec, 272) == tv.iloop
            &&& live > 0 ==> rec.len() == BALLS_AT + BALL_SIZE * live
            &&& forall|i: int| 0 <= i < live ==> #[trigger] ball_at(rec, i) == Some(tv.balls[i])
        }),
{
    lemma_pow256_facts();
    let t = Some(tv);
    let end = end_pos(bv, t);
    let h = header_bytes(bv, end);
    let c = cells_bytes(bv.cells);
    let sh = shot_bytes(bv, t);
    let rec = record(bv, t);
    let hc = h + c;
    lemma_header_fields(bv, end);
    lemma_cells_bytes(bv.cells, 0);
    assert(hc.len() == 264);
    let live = tv.balls.len() as int;
    let ns = le32(tv.total()) + le32(tv.stopped) + le32(tv.iloop) + le64(live);
    lemma_i32_field(tv.total());
    lemma_i32_field(tv.stopped);
    lemma_i32_field(tv.iloop);
    lemma_u64_field(live);
    let bb = balls_bytes(tv.balls);
    assert(sh == ns + bb);
    assert(ns.len() == 20);
    if live > 0 {
        lemma_balls_bytes(tv.balls, 0);
    } else {
        assert(bb == Seq::<u8>::empty());
    }
    assert(ns.subrange(0, 4) =~= le32(tv.total()));
    assert(ns.subrange(4, 8) =~= le32(tv.stopped));
    assert(ns.subrange(8, 12) =~= le32(tv.iloop));
    assert(ns.subrange(12, 20) =~= le64(live));
    let offs2 = seq![0int, 4, 8, 12];
    let lens2 = seq![4int, 4, 4, 8];
    assert forall|k: int| 0 <= k < 4 implies rec.subrange(
        264 + offs2[k],
        264 + offs2[k] + lens2[k],
    ) == #[trigger] ns.subrange(offs2[k], offs2[k] + lens2[k]) by {
        lemma_sub_right(hc, sh, 264 + offs2[k], 264 + offs2[k] + lens2[k]);
        lemma_sub_left(ns, bb, offs2[k], offs2[k] + lens2[k]);
    }
    assert(rec.subrange(264, 268) == ns.subrange(offs2[0], offs2[0] + lens2[0]));
    assert(rec.subrange(268, 272) == ns.subrange(offs2[1], offs2[1] + lens2[1]));
    assert(rec.subrange(272, 276) == ns.subrange(offs2[2], offs2[2] + lens2[2]));
    assert(rec.subrange(276, 284) == ns.subrange(offs2[3], offs2[3] + lens2[3]));
    assert forall|i: int| 0 <= i < live implies #[trigger] ball_at(rec, i) == Some(tv.balls[i]) by {
        lemma_ball_read(bv, tv, i);
    }
}

/// Live ball `i` of a record reads back as itself.
#[verifier::spinoff_prover]
proof fn lemma_ball_read(bv: BoardView, tv: TickerView, i: int)
    requires
        bv.wf(),
        tv.wf(),
        0 <= i < tv.balls.len(),
    ensures
        ball_at(record(bv, Some(tv)), i) == Some(tv.balls[i]),
{
    lemma_pow256_facts();
    let t = Some(tv);
    let end = end_pos(bv, t);
    let h = header_bytes(bv, end);
    let c = cells_bytes(bv.cells);
    let sh = shot_bytes(bv, t);
    let rec = record(bv, t);
    let hc = h + c;
    lemma_header_fields(bv, end);
    lemma_cells_bytes(bv.cells, 0);
    let live = tv.balls.len() as int;
    let ns = le32(tv.total()) + le32(tv.stopped) + le32(tv.iloop) + le64(live);
    lemma_i32_field(tv.total());
    lemma_i32_field(tv.stopped);
    lemma_i32_field(tv.iloop);
    lemma_u64_field(live);
    let bb = balls_bytes(tv.balls);
    assert(sh == ns + bb);
    lemma_balls_bytes(tv.balls, i);
    let o = 284 + 32 * i;
    let q = seq![0int, 8, 16, 24];
    assert forall|k: int| 0 <= k < 4 implies rec.subrange(o + q[k], o + q[k] + 8)
        == #[trigger] bb.subrange(32 * i + q[k], 32 * i + q[k] + 8) by {
        lemma_sub_right(hc, sh, o + q[k], o + q[k] + 8);
        lemma_sub_right(ns, bb, 20 + 32 * i + q[k], 20 + 32 * i + q[k] + 8);
    }
    assert(rec.subrange(o, o + 8) == bb.subrange(32 * i + q[0], 32 * i + q[0] + 8));
    assert(rec.subrange(o + 8, o + 16) == bb.subrange(32 * i + q[1], 32 * i + q[1] + 8));
    assert(rec.subrange(o + 16, o + 24) == bb.subrange(32 * i + q[2], 32 * i + q[2] + 8));
    assert(rec.subrange(o + 24, o + 32) == bb.subrange(32 * i + q[3], 32 * i + q[3] + 8));
    let b = tv.balls[i];
    assert(b.valid());
    lemma_double_field(b.pos.x as int);
    lemma_double_field(b.pos.y as int);
    lemma_double_field(b.speed.x as int);
    lemma_double_field(b.speed.y as int);
}

/// Reading back the record of a board and its shot gives the same grid,
/// score, difficulty, balls per shot, launch point and velocity, and, when
/// a shot with live balls was in progress, the same live balls, remaining,
/// retired and spawn-phase counts.
pub proof fn lemma_record_round_trip(bv: BoardView, t: Option<TickerView>)
    requires
        bv.wf(),
        t is Some ==> t.unwrap().wf(),
    ensures
        parse(record(bv, t)) == Ok::<_, RecordError>((reloaded_board(bv), reloaded_shot(bv, t))),
{
    let rec = record(bv, t);
    lemma_record_board(bv, t);
    match t {
        Some(tv) => {
            lemma_record_shot(bv, tv);
            if tv.balls.len() > 0 {
                assert(shot_ok(rec));
                assert(ticker_of(rec).balls =~= tv.balls);
            }
        },
        None => {
            lemma_pow256_facts();
            let end = end_pos(bv, t);
            let h = header_bytes(bv, end);
            let c = cells_bytes(bv.cells);
            let sh = shot_bytes(bv, t);
            let hc = h + c;
            lemma_header_fields(bv, end);
            lemma_cells_bytes(bv.cells, 0);
            lemma_u64_field(0);
            lemma_i32_field(bv.balls_num);
            lemma_i32_field(0);
            assert(sh.subrange(12, 20) =~= le64(0));
            lemma_sub_right(hc, sh, 276, 284);
            assert(live_at(rec) == 0);
        },
    }
}

} // verus!
