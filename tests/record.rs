use balls::{
    bits_to_units, units_to_bits, BallType, Board, Difficulty, Point, RecordError, Special,
    Vector, COLUMNS, ROWS, UNIT,
};

fn push_i32(v: &mut Vec<u8>, x: i32) {
    v.extend_from_slice(&x.to_le_bytes());
}

fn push_f64(v: &mut Vec<u8>, x: f64) {
    v.extend_from_slice(&x.to_le_bytes());
}

/// A record with the given fields and no shot in progress.
fn record_with(version: i32, start: f64, difficulty: i32, cells: &[i32]) -> Vec<u8> {
    let mut v = Vec::new();
    push_i32(&mut v, version);
    push_i32(&mut v, 4);
    push_f64(&mut v, start);
    push_f64(&mut v, 1579.0);
    push_f64(&mut v, start);
    push_f64(&mut v, 1579.0);
    push_f64(&mut v, 30.0);
    push_f64(&mut v, -40.0);
    push_i32(&mut v, 1);
    v.extend_from_slice(&77u64.to_le_bytes());
    push_i32(&mut v, difficulty);
    for c in cells {
        push_i32(&mut v, *c);
    }
    push_i32(&mut v, 4);
    push_i32(&mut v, 4);
    push_i32(&mut v, 0);
    v.extend_from_slice(&0u64.to_le_bytes());
    v
}

fn sample_cells() -> Vec<i32> {
    let mut cells = vec![0i32; ROWS * COLUMNS];
    cells[0] = 9;
    cells[7] = -1;
    cells[13] = -2;
    cells[20] = -3;
    cells[27] = -4;
    cells[33] = -5;
    cells[40] = 1;
    cells
}

#[test]
fn reads_fields_of_record() {
    let bytes = record_with(2, 300.25, 3, &sample_cells());
    let (b, t) = Board::from_bytes(&bytes).unwrap();
    assert!(t.is_none());
    assert_eq!(b.balls_num(), 4);
    assert_eq!(b.score(), 77);
    assert_eq!(b.difficulty(), Difficulty::Compete);
    assert!(b.doubled_score());
    assert_eq!(b.startp().x, 300 * UNIT + 256);
    assert_eq!(b.start_velocity(), Vector::new(30 * UNIT, -40 * UNIT));
    assert_eq!(b.cell(0, 0), BallType::Normal(9));
    assert_eq!(b.cell(1, 1), BallType::Special(Special::New));
    assert_eq!(b.cell(2, 1), BallType::Special(Special::Delete));
    assert_eq!(b.cell(3, 2), BallType::Special(Special::Random));
    assert_eq!(b.cell(4, 3), BallType::Special(Special::RandomOld));
    assert_eq!(b.cell(5, 3), BallType::Special(Special::DoubleScore));
    assert_eq!(b.cell(6, 4), BallType::Normal(1));
}

#[test]
fn board_without_shot_round_trips() {
    let bytes = record_with(2, 300.25, 1, &sample_cells());
    let (b, _) = Board::from_bytes(&bytes).unwrap();
    let again = b.to_vec(None);
    assert_eq!(again, bytes);
}

#[test]
fn board_with_shot_round_trips() {
    let bytes = record_with(2, 599.5, 2, &sample_cells());
    let (mut b, _) = Board::from_bytes(&bytes).unwrap();
    let s = b.startp();
    let mut t = b.start(Point::new(s.x - 20_000, 0));
    for _ in 0..9 {
        let draws = vec![Vector::new(0, 0); t.balls().len() + 1];
        t.tick(&mut b, &draws);
    }
    assert!(t.balls().len() >= 2);
    let rec = b.to_vec(Some(&t));
    let (b2, t2) = Board::from_bytes(&rec).unwrap();
    let t2 = t2.unwrap();
    for r in 0..ROWS {
        for c in 0..COLUMNS {
            assert_eq!(b2.cell(r, c), b.cell(r, c));
        }
    }
    assert_eq!(b2.score(), b.score());
    assert_eq!(b2.difficulty(), b.difficulty());
    assert_eq!(b2.balls_num(), b.balls_num());
    assert_eq!(b2.startp(), b.startp());
    assert_eq!(b2.start_velocity(), b.start_velocity());
    assert_eq!(t2.balls(), t.balls());
    assert_eq!(t2.remain(), t.remain());
    assert_eq!(t2.stopped(), t.stopped());
    assert_eq!(t2.iloop(), t.iloop());
    assert_eq!(b2.to_vec(Some(&t2)), rec);
}

#[test]
fn other_version_is_refused() {
    let bytes = record_with(3, 300.0, 1, &sample_cells());
    assert_eq!(Board::from_bytes(&bytes).err(), Some(RecordError::Version));
    assert_eq!(Board::from_bytes(&vec![2, 0, 0, 0, 1]).err(), Some(RecordError::Truncated));
    assert_eq!(Board::from_bytes(&vec![7, 0, 0, 0]).err(), Some(RecordError::Version));
}

#[test]
fn short_record_is_refused() {
    assert_eq!(Board::from_bytes(&vec![2, 0]).err(), Some(RecordError::Truncated));
    let mut bytes = record_with(2, 300.0, 1, &sample_cells());
    let n = bytes.len();
    bytes[n - 8] = 1;
    assert_eq!(Board::from_bytes(&bytes).err(), Some(RecordError::Truncated));
}

#[test]
fn unknown_codes_are_refused() {
    let bytes = record_with(2, 300.0, 4, &sample_cells());
    assert_eq!(Board::from_bytes(&bytes).err(), Some(RecordError::Difficulty));
    let mut cells = sample_cells();
    cells[5] = -6;
    let bytes = record_with(2, 300.0, 1, &cells);
    assert_eq!(Board::from_bytes(&bytes).err(), Some(RecordError::Cell));
}

#[test]
fn bad_values_are_refused() {
    let bytes = record_with(2, f64::NAN, 1, &sample_cells());
    assert_eq!(Board::from_bytes(&bytes).err(), Some(RecordError::Value));
    let bytes = record_with(2, 5.0, 1, &sample_cells());
    assert_eq!(Board::from_bytes(&bytes).err(), Some(RecordError::Value));
}

#[test]
fn units_convert_to_doubles() {
    assert_eq!(units_to_bits(614400), 600.0f64.to_bits());
    assert_eq!(units_to_bits(-1280), (-1.25f64).to_bits());
    assert_eq!(units_to_bits(0), 0.0f64.to_bits());
    assert_eq!(units_to_bits(1), (1.0f64 / 1024.0).to_bits());
    assert_eq!(bits_to_units(0.5f64.to_bits()), Some(512));
    assert_eq!(bits_to_units((-1.25f64).to_bits()), Some(-1280));
    assert_eq!(bits_to_units(0.0001f64.to_bits()), Some(0));
    assert_eq!(bits_to_units(f64::NAN.to_bits()), None);
    assert_eq!(bits_to_units(f64::INFINITY.to_bits()), None);
    assert_eq!(bits_to_units(1e30f64.to_bits()), None);
}
