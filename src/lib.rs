//! A falling-block pinball engine: a grid of numbered blocks, balls that
//! bounce around them, a scheduler that drives one shot, the row shift that
//! follows it, and a versioned binary record of the whole state.
//!
//! Geometry is fixed-point: one pixel is `UNIT` integer units. Random
//! outcomes (a new row, the heading a random tile gives) come in as values,
//! so that every step is a function of its inputs.

mod board;
mod cell;
mod codec;
mod geom;
mod num;
mod ticker;

pub use board::{
    bounce_spec, lemma_bounce_keeps_valid, lemma_delete_retires, lemma_no_spurious_bounce, Board,
    BoardView, RowDraw, Sides, SPAWN_CEILING, TARGET_LIMIT,
};
pub use cell::{BallType, Difficulty, Special};
pub use codec::{
    lemma_record_round_trip, lemma_version_mismatch, parse, record, RecordError, BALLS_AT,
    BALL_SIZE, RECORD_VERSION, SHOT_AT,
};
pub use geom::{
    clip, Ball, Point, Vector, CLIENT_HEIGHT, CLIENT_WIDTH, COLUMNS, NUM_SIZE, PREVIEW_SPEED, RADIUS,
    ROWS, SIDE, SPEED, TRIGGER_RADIUS, UNIT,
};
pub use num::{bits_to_units, units_to_bits, DOUBLE_LIMIT};
pub use ticker::{run_balls, MapTicker, TickerView};
