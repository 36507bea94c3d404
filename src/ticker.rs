use vstd::prelude::*;

use crate::board::{bounce_spec, lemma_bounce_keeps_valid, Board, BoardView};
use crate::geom::{
    clip, clip_spec, speed_ok, trunc_div, Ball, Point, Vector, CLIENT_HEIGHT, CLIENT_WIDTH, RADIUS,
};

verus! {

/// `a / b` rounded toward zero, for a nonzero `b`.
pub open spec fn quot(a: int, b: int) -> int {
    if b > 0 {
        trunc_div(a, b)
    } else {
        trunc_div(-a, -b)
    }
}

/// Where the next shot starts after ball `b` left past the bottom: its last
/// step extended to the launch line, limited to the playable width.
pub open spec fn exit_start(b: Ball) -> int {
    let tx = b.pos.x - b.speed.x;
    let ty = b.pos.y - b.speed.y;
    let h = CLIENT_HEIGHT - RADIUS - ty;
    let a = if b.speed.y == 0 {
        0
    } else {
        quot(h * b.speed.x, b.speed.y as int)
    };
    clip_spec(tx + a, RADIUS as int, CLIENT_WIDTH - RADIUS)
}

/// One pass over the live balls, in order, each with its draw: the board
/// after the pass, the balls still live, how many were retired, and the next
/// launch point as the first ball to leave past the bottom sets it.
pub open spec fn run_balls(
    bv: BoardView,
    balls: Seq<Ball>,
    draws: Seq<Vector>,
    ns: Option<i64>,
) -> (BoardView, Seq<Ball>, int, Option<i64>)
    decreases balls.len(),
{
    if balls.len() == 0 {
        (bv, Seq::empty(), 0, ns)
    } else {
        let (bv1, b1, out) = bounce_spec(bv, balls[0], draws[0]);
        let ns1 = if out && b1.pos.y + RADIUS >= CLIENT_HEIGHT && ns.is_none() {
            Some(exit_start(b1) as i64)
        } else {
            ns
        };
        let (bv2, rest, n, ns2) = run_balls(bv1, balls.drop_first(), draws.drop_first(), ns1);
        if out {
            (bv2, rest, n + 1, ns2)
        } else {
            (bv2, seq![b1] + rest, n, ns2)
        }
    }
}

/// The mathematical state of a shot.
pub struct TickerView {
    pub balls: Seq<Ball>,
    pub remain: int,
    pub stopped: int,
    pub iloop: int,
    pub new_start: Option<i64>,
}

impl TickerView {
    /// Live balls are on the field, the counts fit the record, the spawn
    /// phase is one of four, and a pending launch point is playable.
    pub open spec fn wf(self) -> bool {
        &&& forall|i: int| 0 <= i < self.balls.len() ==> (#[trigger] self.balls[i]).valid()
        &&& 0 <= self.remain
        &&& 0 <= self.stopped
        &&& self.stopped + self.remain + self.balls.len() <= i32::MAX
        &&& 0 <= self.iloop < 4
        &&& self.new_start.is_some() ==> RADIUS <= self.new_start.unwrap() <= CLIENT_WIDTH
            - RADIUS
    }

    /// All balls of the shot, spawned or not.
    pub open spec fn total(self) -> int {
        self.stopped + self.remain + self.balls.len()
    }
}

/// One shot in progress: the live balls, the balls still to spawn, the
/// retired ones, the spawn phase and the next launch point.
#[derive(Debug)]
pub struct MapTicker {
    balls: Vec<Ball>,
    remain: usize,
    stopped: usize,
    iloop: usize,
    new_start: Option<i64>,
}

impl View for MapTicker {
    type V = TickerView;

    closed spec fn view(&self) -> TickerView {
        TickerView {
            balls: self.balls@,
            remain: self.remain as int,
            stopped: self.stopped as int,
            iloop: self.iloop as int,
            new_start: self.new_start,
        }
    }
}

/// `a / b` rounded toward zero.
fn quot_exec(a: i64, b: i64) -> (r: i64)
    requires
        b != 0,
        -0x1_0000_0000_0000 <= a <= 0x1_0000_0000_0000,
        -0x1_0000_0000_0000 <= b <= 0x1_0000_0000_0000,
    ensures
        r == quot(a as int, b as int),
        -0x1_0000_0000_0000 <= r <= 0x1_0000_0000_0000,
{
    let (n, d) = if b > 0 {
        (a, b)
    } else {
        (-a, -b)
    };
    let m = if n >= 0 {
        n
    } else {
        -n
    };
    proof {
        vstd::arithmetic::div_mod::lemma_div_pos_is_pos(m as int, d as int);
        vstd::arithmetic::div_mod::lemma_div_is_ordered_by_denominator(m as int, 1, d as int);
        vstd::arithmetic::div_mod::lemma_div_basics(m as int);
    }
    if n >= 0 {
        n / d
    } else {
        -(m / d)
    }
}

/// The next launch point after `b` left past the bottom.
fn exit_start_exec(b: &Ball) -> (r: i64)
    requires
        b.near_field(),
    ensures
        r == exit_start(*b),
        RADIUS <= r <= CLIENT_WIDTH - RADIUS,
{
    let tx = b.pos.x - b.speed.x;
    let ty = b.pos.y - b.speed.y;
    let h = CLIENT_HEIGHT - RADIUS - ty;
    assert(-0x40_0000_0000 <= h * b.speed.x <= 0x40_0000_0000) by (nonlinear_arith)
        requires
            -0x20_0000 <= h <= 0x20_0000,
            -0x1_0000 <= b.speed.x <= 0x1_0000,
    ;
    let a = if b.speed.y == 0 {
        0
    } else {
        quot_exec(h * b.speed.x, b.speed.y)
    };
    clip(tx + a, RADIUS, CLIENT_WIDTH - RADIUS)
}

impl MapTicker {
    pub(crate) fn new(balls_num: usize) -> (r: Self)
        requires
            1 <= balls_num <= i32::MAX,
        ensures
            r@ == (TickerView {
                balls: Seq::empty(),
                remain: balls_num as int,
                stopped: 0,
                iloop: 3,
                new_start: None,
            }),
            r@.wf(),
    {
        MapTicker { balls: Vec::new(), remain: balls_num, stopped: 0, iloop: 3, new_start: None }
    }
    /// Where the next shot starts, once a ball of this one left past the
    /// bottom.
    pub fn new_startp(&self) -> (r: Option<Point>)
        ensures
            r == match self@.new_start {
                Some(x) => Some(Point { x, y: (CLIENT_HEIGHT - RADIUS) as i64 }),
                None => None::<Point>,
            },
    {
        match self.new_start {
            Some(x) => Some(Point { x, y: CLIENT_HEIGHT - RADIUS }),
            None => None,
        }
    }

    /// Whether every ball of the shot has spawned.
    pub fn is_end(&self) -> (r: bool)
        ensures
            r == (self@.remain == 0),
    {
        self.remain == 0
    }

    /// The live balls.
    pub fn balls(&self) -> (r: &Vec<Ball>)
        ensures
            r@ == self@.balls,
    {
        &self.balls
    }

    /// The balls still to spawn.
    pub fn remain(&self) -> (r: usize)
        ensures
            r == self@.remain,
    {
        self.remain
    }

    /// The balls already retired.
    pub fn stopped(&self) -> (r: usize)
        ensures
            r == self@.stopped,
    {
        self.stopped
    }

    /// The spawn phase.
    pub fn iloop(&self) -> (r: usize)
        ensures
            r == self@.iloop,
    {
        self.iloop
    }

    /// Advances the shot by one tick. The spawn phase steps on; when it wraps
    /// to zero and balls remain to spawn, one ball spawns at the launch point
    /// with the launch velocity. Then every live ball, in order, takes one
    /// step with the draw at its position in `draws` (see `run_balls`).
    /// Returns whether any ball is still live.
    pub fn tick(&mut self, board: &mut Board, draws: &Vec<Vector>) -> (live: bool)
        requires
            old(self)@.wf(),
            old(board)@.wf(),
            draws@.len() > old(self)@.balls.len(),
            forall|i: int| 0 <= i < draws@.len() ==> speed_ok(#[trigger] draws@[i]),
            old(board)@.score + 3 * (old(self)@.balls.len() + 1) <= u64::MAX,
        ensures
            ({
                let iloop = (old(self)@.iloop + 1) % 4;
                let spawn = old(self)@.remain > 0 && iloop == 0;
                let balls = if spawn {
                    old(self)@.balls.push(
                        Ball { pos: old(board)@.startp(), speed: old(board)@.startv },
                    )
                } else {
                    old(self)@.balls
                };
                let (bv, kept, n, ns) = run_balls(
                    old(board)@,
                    balls,
                    draws@,
                    old(self)@.new_start,
                );
                &&& final(board)@ == bv
                &&& final(self)@ == TickerView {
                    balls: kept,
                    remain: if spawn {
                        old(self)@.remain - 1
                    } else {
                        old(self)@.remain
                    },
                    stopped: old(self)@.stopped + n,
                    iloop,
                    new_start: ns,
                }
            }),
            final(board)@.wf(),
            final(self)@.wf(),
            final(self)@.total() == old(self)@.total(),
            live == (final(self)@.balls.len() > 0),
    {
        self.iloop = (self.iloop + 1) % 4;
        if self.remain > 0 && self.iloop == 0 {
            self.balls.push(Ball { pos: board.startp(), speed: board.start_velocity() });
            self.remain = self.remain - 1;
        }
        let ghost balls0 = self.balls@;
        let ghost bv0 = board@;
        let ghost ns0 = self.new_start;
        let ghost score0 = board@.score;
        let ghost t0 = self@;
        let len = self.balls.len();
        let mut kept: Vec<Ball> = Vec::new();
        let mut out_count: usize = 0;
        let mut j: usize = 0;
        proof {
            assert(balls0.skip(0) =~= balls0);
            assert(draws@.skip(0) =~= draws@);
            let (fb, frest, fnum, fns) = run_balls(bv0, balls0, draws@, ns0);
            assert(kept@ + frest =~= frest);
        }
        while j < len
            invariant
                j <= len == balls0.len() == self.balls@.len(),
                self.balls@ == balls0,
                self@ == (TickerView { new_start: self@.new_start, ..t0 }),
                t0.stopped + t0.remain + len <= i32::MAX,
                t0.stopped >= 0,
                draws@.len() >= len,
                forall|i: int| 0 <= i < draws@.len() ==> speed_ok(#[trigger] draws@[i]),
                forall|i: int| 0 <= i < balls0.len() ==> (#[trigger] balls0[i]).valid(),
                board@.wf(),
                board@.score <= score0 + 3 * j,
                score0 + 3 * len <= u64::MAX,
                kept@.len() + out_count == j,
                forall|i: int| 0 <= i < kept@.len() ==> (#[trigger] kept@[i]).valid(),
                self.new_start.is_some() ==> RADIUS <= self.new_start.unwrap() <= CLIENT_WIDTH
                    - RADIUS,
                ({
                    let (fb, frest, fnum, fns) = run_balls(
                        board@,
                        balls0.skip(j as int),
                        draws@.skip(j as int),
                        self.new_start,
                    );
                    run_balls(bv0, balls0, draws@, ns0) == (fb, kept@ + frest, out_count + fnum, fns)
                }),
            decreases len - j,
        {
            let mut b = self.balls[j];
            let ghost bvj = board@;
            let ghost bj = b;
            let ghost nsj = self.new_start;
            let d = draws[j];
            let out = board.bounce(&mut b, d);
            proof {
                lemma_bounce_keeps_valid(bvj, bj, d);
                assert(balls0.skip(j as int)[0] == bj);
                assert(draws@.skip(j as int)[0] == d);
                assert(balls0.skip(j as int).drop_first() =~= balls0.skip(j + 1));
                assert(draws@.skip(j as int).drop_first() =~= draws@.skip(j + 1));
            }
            if out {
                if b.pos.y + RADIUS >= CLIENT_HEIGHT && self.new_start.is_none() {
                    self.new_start = Some(exit_start_exec(&b));
                }
                out_count = out_count + 1;
            } else {
                let ghost kept0 = kept@;
                kept.push(b);
                proof {
                    let (fb, frest, fnum, fns) = run_balls(
                        board@,
                        balls0.skip(j + 1),
                        draws@.skip(j + 1),
                        self.new_start,
                    );
                    assert(kept0 + (seq![b] + frest) =~= kept@ + frest);
                }
            }
            j = j + 1;
        }
        proof {
            assert(balls0.skip(len as int).len() == 0);
            assert(run_balls(board@, balls0.skip(len as int), draws@.skip(len as int), self.new_start)
                == (board@, Seq::<Ball>::empty(), 0int, self.new_start));
            assert(kept@ + Seq::<Ball>::empty() =~= kept@);
        }
        self.stopped = self.stopped + out_count;
        self.balls = kept;
        self.balls.len() > 0
    }

    /// Ends the shot: the board's launch point moves to where the first ball
    /// left, if one did, and the double score of the shot ends.
    pub fn consume(self, board: &mut Board)
        requires
            self@.wf(),
            old(board)@.wf(),
        ensures
            final(board)@ == (BoardView {
                start: match self@.new_start {
                    Some(s) => s as int,
                    None => old(board)@.start,
                },
                doubled_score: false,
                ..old(board)@
            }),
            final(board)@.wf(),
    {
        board.commit_shot(self.new_start);
    }
    /// A ticker from its parts.
    pub(crate) fn from_parts(
        balls: Vec<Ball>,
        remain: usize,
        stopped: usize,
        iloop: usize,
        new_start: Option<i64>,
    ) -> (r: Self)
        ensures
            r@ == (TickerView {
                balls: balls@,
                remain: remain as int,
                stopped: stopped as int,
                iloop: iloop as int,
                new_start,
            }),
    {
        MapTicker { balls, remain, stopped, iloop, new_start }
    }
}

} // verus!
