use balls::{
    clip, Ball, BallType, Board, Difficulty, MapTicker, Point, RowDraw, Special, Vector,
    CLIENT_HEIGHT, COLUMNS, RADIUS, ROWS, SIDE, SPEED, UNIT,
};

fn push_i32(v: &mut Vec<u8>, x: i32) {
    v.extend_from_slice(&x.to_le_bytes());
}

fn push_f64(v: &mut Vec<u8>, x: f64) {
    v.extend_from_slice(&x.to_le_bytes());
}

/// A record of a board with the given cell codes and no shot in progress.
fn record_of(cells: &[i32], balls_num: i32, difficulty: i32) -> Vec<u8> {
    let mut v = Vec::new();
    push_i32(&mut v, 2);
    push_i32(&mut v, balls_num);
    push_f64(&mut v, 599.5);
    push_f64(&mut v, 1579.0);
    push_f64(&mut v, 599.5);
    push_f64(&mut v, 1579.0);
    push_f64(&mut v, 0.0);
    push_f64(&mut v, -50.0);
    push_i32(&mut v, 0);
    v.extend_from_slice(&0u64.to_le_bytes());
    push_i32(&mut v, difficulty);
    for c in cells {
        push_i32(&mut v, *c);
    }
    push_i32(&mut v, balls_num);
    push_i32(&mut v, balls_num);
    push_i32(&mut v, 0);
    v.extend_from_slice(&0u64.to_le_bytes());
    v
}

fn board_with(cells: &[(usize, usize, i32)], balls_num: i32, difficulty: i32) -> Board {
    let mut codes = vec![0i32; ROWS * COLUMNS];
    for (r, c, code) in cells {
        codes[r * COLUMNS + c] = *code;
    }
    Board::from_bytes(&record_of(&codes, balls_num, difficulty)).unwrap().0
}

fn px(p: i64) -> i64 {
    p * UNIT
}

fn draw(blocks: Vec<i32>) -> RowDraw {
    RowDraw {
        blocks,
        random_col: None,
        delete_col: None,
        double_col: None,
        spawn_coin: false,
        spawn_col: 0,
    }
}

#[test]
fn new_board_is_empty() {
    let b = Board::new(Difficulty::Hard);
    assert_eq!(b.difficulty(), Difficulty::Hard);
    assert_eq!(b.balls_num(), 1);
    assert_eq!(b.score(), 0);
    assert_eq!(b.startp(), Point::new(613888, CLIENT_HEIGHT - RADIUS));
    for r in 0..ROWS {
        for c in 0..COLUMNS {
            assert_eq!(b.cell(r, c), BallType::Empty);
        }
    }
    assert_eq!(b.column_len(), 6);
    assert_eq!(b.row_len(), 8);
}

#[test]
fn hit_decrements_and_scores() {
    let mut b = board_with(&[(0, 0, 1), (0, 1, 5)], 1, 0);
    b.hit(0, 0);
    assert_eq!(b.cell(0, 0), BallType::Empty);
    assert_eq!(b.score(), 1);
    b.hit(0, 1);
    assert_eq!(b.cell(0, 1), BallType::Normal(4));
    assert_eq!(b.score(), 2);
    b.hit(-1, 0);
    assert_eq!(b.score(), 2);
}

#[test]
fn block_above_is_broken_by_slow_ball() {
    let mut b = board_with(&[(6, 0, 1)], 1, 0);
    let mut ball = Ball::new(Point::new(px(100), px(1500)), Vector::new(0, -UNIT));
    let mut steps = 0;
    while b.score() == 0 && steps < 1000 {
        assert!(!b.bounce(&mut ball, Vector::new(0, 0)));
        steps += 1;
    }
    assert_eq!(b.score(), 1);
    assert_eq!(b.cell(6, 0), BallType::Empty);
    assert!(ball.speed.y > 0);
}

#[test]
fn free_step_keeps_velocity() {
    let mut b = Board::new(Difficulty::Simple);
    let mut ball = Ball::new(Point::new(px(300), px(700)), Vector::new(px(3), px(-4)));
    assert!(!b.bounce(&mut ball, Vector::new(0, 0)));
    assert_eq!(ball.speed, Vector::new(px(3), px(-4)));
    assert_eq!(ball.pos, Point::new(px(303), px(696)));
    let mut slow = Ball::new(Point::new(px(300), px(700)), Vector::new(px(3), -10));
    assert!(!b.bounce(&mut slow, Vector::new(0, 0)));
    assert_eq!(slow.speed, Vector::new(px(3), -UNIT));
}

#[test]
fn flat_bounce_off_block() {
    let mut b = board_with(&[(3, 3, 2)], 1, 0);
    // A ball in cell (3, 2) heading right into the block at (3, 3).
    let mut ball = Ball::new(Point::new(px(570), px(700)), Vector::new(px(20), 0));
    assert!(!b.bounce(&mut ball, Vector::new(0, 0)));
    assert_eq!(ball.speed.x, -px(20));
    // Moved to 590, mirrored across the wall at 599: 2 * 599 - 2 * 20 - 590.
    assert_eq!(ball.pos.x, 2 * (3 * SIDE - UNIT) - 2 * RADIUS - px(590));
    assert_eq!(b.cell(3, 3), BallType::Normal(1));
    assert_eq!(b.score(), 1);
    assert_eq!(ball.speed.y, -UNIT);
}

#[test]
fn left_wall_reflects() {
    let mut b = Board::new(Difficulty::Simple);
    let mut ball = Ball::new(Point::new(px(30), px(700)), Vector::new(px(-20), px(-5)));
    assert!(!b.bounce(&mut ball, Vector::new(0, 0)));
    assert_eq!(ball.speed, Vector::new(px(20), px(-5)));
    assert_eq!(ball.pos, Point::new(px(30), px(695)));
    assert_eq!(b.score(), 0);
}

#[test]
fn remove_tile_retires_ball() {
    let mut b = board_with(&[(3, 2, -2)], 1, 0);
    let mut ball = Ball::new(Point::new(px(500), px(700)), Vector::new(0, -SPEED));
    assert!(b.bounce(&mut ball, Vector::new(0, 0)));
    assert_eq!(b.cell(3, 2), BallType::Empty);
}

#[test]
fn remove_tile_out_of_reach_stays() {
    let mut b = board_with(&[(3, 2, -2)], 1, 0);
    let mut ball = Ball::new(Point::new(px(421), px(621)), Vector::new(0, -px(1)));
    assert!(!b.bounce(&mut ball, Vector::new(0, 0)));
    assert_eq!(b.cell(3, 2), BallType::Special(Special::Delete));
}

#[test]
fn random_tile_redirects_once() {
    let mut b = board_with(&[(3, 2, -3)], 1, 0);
    let mut ball = Ball::new(Point::new(px(500), px(700)), Vector::new(px(10), -px(40)));
    assert!(!b.bounce(&mut ball, Vector::new(px(30), -px(40))));
    assert_eq!(ball.speed, Vector::new(-px(30), -px(40)));
    assert_eq!(b.cell(3, 2), BallType::Special(Special::RandomOld));
    let mut left = Ball::new(Point::new(px(500), px(700)), Vector::new(-px(10), -px(40)));
    assert!(!b.bounce(&mut left, Vector::new(px(30), px(40))));
    assert_eq!(left.speed, Vector::new(px(30), px(40)));
}

#[test]
fn spawn_and_double_tiles() {
    let mut b = board_with(&[(3, 2, -1), (3, 4, -5)], 2, 0);
    let mut ball = Ball::new(Point::new(px(500), px(700)), Vector::new(0, -px(10)));
    assert!(!b.bounce(&mut ball, Vector::new(0, 0)));
    assert_eq!(b.balls_num(), 3);
    assert_eq!(b.cell(3, 2), BallType::Empty);
    let mut ball = Ball::new(Point::new(px(900), px(700)), Vector::new(0, -px(10)));
    assert!(!b.bounce(&mut ball, Vector::new(0, 0)));
    assert!(b.doubled_score());
    assert_eq!(b.cell(3, 4), BallType::Empty);
}

#[test]
fn corner_arc_bounce() {
    let mut b = board_with(&[(2, 1, 3)], 1, 0);
    // A ball in cell (3, 2) moving up-left into the rounded corner of (2, 1).
    let mut ball = Ball::new(Point::new(px(425), px(625)), Vector::new(-px(10), -px(10)));
    assert!(!b.bounce(&mut ball, Vector::new(0, 0)));
    assert_eq!(ball.speed, Vector::new(px(10), px(10)));
    assert_eq!(ball.pos, Point::new(px(425), px(625)));
    assert_eq!(b.cell(2, 1), BallType::Normal(2));
    assert_eq!(b.score(), 1);
}

#[test]
fn ball_leaves_past_bottom() {
    let mut b = Board::new(Difficulty::Simple);
    let mut ball = Ball::new(Point::new(px(300), px(1575)), Vector::new(0, px(10)));
    assert!(b.bounce(&mut ball, Vector::new(0, 0)));
}

#[test]
fn over_when_bottom_row_holds_block() {
    let mut b = board_with(&[(6, 2, 3), (7, 4, 2), (0, 1, 7)], 1, 0);
    assert!(b.is_over());
    let over = !b.reset(&draw(vec![1, 1, 1, 1, 1, 1]));
    assert!(over);
    assert_eq!(b.cell(0, 1), BallType::Normal(7));
    assert_eq!(b.cell(1, 1), BallType::Normal(7));
    assert_eq!(b.cell(7, 2), BallType::Normal(3));
    assert_eq!(b.cell(7, 4), BallType::Empty);
}

#[test]
fn reset_shifts_and_fills_top_row() {
    let mut b = board_with(&[(0, 0, 4), (2, 3, -4), (5, 5, -3)], 1, 0);
    let mut d = draw(vec![3, 0, -2, 5, 1, 0]);
    d.random_col = Some(2);
    d.delete_col = Some(2);
    d.spawn_coin = true;
    d.spawn_col = 5;
    assert!(b.reset(&d));
    let row: Vec<BallType> = (0..COLUMNS).map(|c| b.cell(0, c)).collect();
    assert_eq!(
        row,
        vec![
            BallType::Normal(3),
            BallType::Empty,
            BallType::Special(Special::Delete),
            BallType::Normal(5),
            BallType::Normal(1),
            BallType::Special(Special::New),
        ]
    );
    assert_eq!(b.cell(1, 0), BallType::Normal(4));
    assert_eq!(b.cell(3, 3), BallType::Empty);
    assert_eq!(b.cell(6, 5), BallType::Special(Special::Random));
}

#[test]
fn spawn_tile_needs_coin_below_hardest_tier() {
    let mut simple = Board::new(Difficulty::Simple);
    let mut d = draw(vec![0; 6]);
    d.spawn_col = 1;
    assert!(simple.reset(&d));
    assert_eq!(simple.cell(0, 1), BallType::Empty);
    let mut compete = Board::new(Difficulty::Compete);
    assert!(compete.reset(&d));
    assert_eq!(compete.cell(0, 1), BallType::Special(Special::New));
}

#[test]
fn many_generations_give_valid_rows() {
    let mut seed: u64 = 12345;
    let mut next = move || {
        seed = seed.wrapping_mul(6364136223846793005).wrapping_add(1442695040888963407);
        (seed >> 33) as u32
    };
    for n in 0..10_000u32 {
        let diff = [Difficulty::Simple, Difficulty::Normal, Difficulty::Hard, Difficulty::Compete]
            [(n % 4) as usize];
        let mut b = Board::new(diff);
        let blocks: Vec<i32> = (0..COLUMNS).map(|_| (next() % 9) as i32 - 3).collect();
        let pick = |v: u32| if v % 2 == 0 { Some((v as usize / 2) % COLUMNS) } else { None };
        let d = RowDraw {
            blocks: blocks.clone(),
            random_col: pick(next()),
            delete_col: pick(next()),
            double_col: pick(next()),
            spawn_coin: next() % 2 == 0,
            spawn_col: next() as usize % COLUMNS,
        };
        assert!(b.reset(&d));
        for c in 0..COLUMNS {
            match b.cell(0, c) {
                BallType::Empty => {}
                BallType::Normal(v) => assert!(v > 0 && v == blocks[c]),
                BallType::Special(s) => assert!(s != Special::RandomOld),
            }
        }
    }
}

#[test]
fn launch_vector_is_scaled_and_bent() {
    let mut b = Board::new(Difficulty::Simple);
    let s = b.startp();
    let _ = b.start(Point::new(s.x, 0));
    assert_eq!(b.start_velocity(), Vector::new(0, -SPEED));
    let _ = b.start(Point::new(s.x + 3000, s.y - 4000));
    assert_eq!(b.start_velocity(), Vector::new(30720, -40960));
    let _ = b.start(Point::new(s.x + 100_000, s.y));
    assert_eq!(b.start_velocity(), Vector::new(SPEED, -UNIT));
}

#[test]
fn preview_stops_below_top() {
    let mut b = Board::new(Difficulty::Simple);
    let s = b.startp();
    b.update_sample(Point::new(s.x, 0));
    assert_eq!(b.sample(), Point::new(s.x, RADIUS));
}

#[test]
fn preview_stops_under_block() {
    let mut b = board_with(&[(4, 2, 5)], 1, 0);
    let s = b.startp();
    b.update_sample(Point::new(s.x, 0));
    let p = b.sample();
    assert_eq!(p.x, s.x);
    // The ghost stops while its top edge is still in the row below the block.
    assert!((p.y - RADIUS) / SIDE == 5);
    assert!((p.y - RADIUS - 512) / SIDE == 4);
}

#[test]
fn shot_runs_to_end_and_moves_start() {
    let mut b = Board::new(Difficulty::Simple);
    let s = b.startp();
    let mut t: MapTicker = b.start(Point::new(s.x - 30_000, s.y - 40_000));
    assert_eq!(t.remain(), 1);
    let mut ticks = 0;
    loop {
        let draws = vec![Vector::new(0, 0); t.balls().len() + 1];
        let live = t.tick(&mut b, &draws);
        ticks += 1;
        if !live && t.is_end() {
            break;
        }
        assert!(ticks < 10_000);
    }
    assert_eq!(t.stopped(), 1);
    assert!(t.new_startp().is_some());
    let ns = t.new_startp().unwrap();
    t.consume(&mut b);
    assert_eq!(b.startp(), ns);
    assert!(!b.doubled_score());
}

#[test]
fn ticker_spawns_every_fourth_tick() {
    let mut b = board_with(&[], 3, 0);
    let s = b.startp();
    let mut t = b.start(Point::new(s.x, 0));
    let draws = vec![Vector::new(0, 0); 8];
    assert!(t.tick(&mut b, &draws));
    assert_eq!((t.balls().len(), t.remain(), t.iloop()), (1, 2, 0));
    for _ in 0..3 {
        t.tick(&mut b, &draws);
    }
    assert_eq!((t.balls().len(), t.remain(), t.iloop()), (1, 2, 3));
    t.tick(&mut b, &draws);
    assert_eq!((t.balls().len(), t.remain(), t.iloop()), (2, 1, 0));
}

#[test]
fn clip_limits() {
    assert_eq!(clip(5, 0, 3), 3);
    assert_eq!(clip(-5, 0, 3), 0);
    assert_eq!(clip(2, 0, 3), 2);
}

#[test]
fn codes_round_trip() {
    for v in -5..=7 {
        let b = BallType::from_i32(v).unwrap();
        assert_eq!(b.to_i32(), v);
    }
    assert_eq!(BallType::from_i32(-6), None);
    assert!(BallType::from_i32(0).unwrap().is_none());
    assert!(BallType::from_i32(2).unwrap().is_normal());
    assert_eq!(Difficulty::from_i32(3), Some(Difficulty::Compete));
    assert_eq!(Difficulty::from_i32(4), None);
    assert_eq!(Difficulty::Hard.to_i32(), 2);
}
