use vstd::prelude::*;

verus! {

/// How hard the generated rows are.
#[derive(Debug, PartialEq, Eq, Structural, Clone, Copy)]
pub enum Difficulty {
    Simple,
    Normal,
    Hard,
    Compete,
}

/// The code of a difficulty in the record.
pub open spec fn difficulty_code(d: Difficulty) -> int {
    match d {
        Difficulty::Simple => 0,
        Difficulty::Normal => 1,
        Difficulty::Hard => 2,
        Difficulty::Compete => 3,
    }
}

impl Difficulty {
    pub fn from_i32(v: i32) -> (r: Option<Self>)
        ensures
            r.is_some() <==> 0 <= v <= 3,
            r.is_some() ==> difficulty_code(r.unwrap()) == v,
    {
        match v {
            0 => Some(Difficulty::Simple),
            1 => Some(Difficulty::Normal),
            2 => Some(Difficulty::Hard),
            3 => Some(Difficulty::Compete),
            _ => None,
        }
    }

    pub fn to_i32(&self) -> (r: i32)
        ensures
            r == difficulty_code(*self),
    {
        match self {
            Difficulty::Simple => 0,
            Difficulty::Normal => 1,
            Difficulty::Hard => 2,
            Difficulty::Compete => 3,
        }
    }
}

impl Default for Difficulty {
    fn default() -> (r: Self)
        ensures
            r == Difficulty::Simple,
    {
        Difficulty::Simple
    }
}

/// The kinds of special tile.
#[derive(Debug, PartialEq, Eq, Structural, Clone, Copy)]
pub enum Special {
    /// Adds one ball to every later shot.
    New,
    /// Retires the ball that reaches it.
    Delete,
    /// Sends the ball in a random direction.
    Random,
    /// A random tile that already redirected a ball; cleared on the next shift.
    RandomOld,
    /// Marks the current shot as scoring double.
    DoubleScore,
}

/// What one grid cell holds.
#[derive(Debug, PartialEq, Eq, Structural, Clone, Copy)]
pub enum BallType {
    Empty,
    /// A breakable block with the number of hits it still takes.
    Normal(i32),
    Special(Special),
}

impl BallType {
    /// A cell is well formed when a block's count is positive.
    pub open spec fn wf(self) -> bool {
        match self {
            BallType::Normal(n) => n > 0,
            _ => true,
        }
    }

    pub open spec fn is_block(self) -> bool {
        self is Normal
    }

    /// The code of a cell in the record.
    pub open spec fn code(self) -> int {
        match self {
            BallType::Empty => 0,
            BallType::Normal(n) => n as int,
            BallType::Special(s) => match s {
                Special::New => -1,
                Special::Delete => -2,
                Special::Random => -3,
                Special::RandomOld => -4,
                Special::DoubleScore => -5,
            },
        }
    }

    pub fn is_none(&self) -> (r: bool)
        ensures
            r == (*self is Empty),
    {
        matches!(self, BallType::Empty)
    }

    pub fn is_normal(&self) -> (r: bool)
        ensures
            r == self.is_block(),
    {
        matches!(self, BallType::Normal(_))
    }

    pub fn to_i32(&self) -> (r: i32)
        ensures
            r == self.code(),
    {
        match self {
            BallType::Empty => 0,
            BallType::Normal(s) => *s,
            BallType::Special(s) => match s {
                Special::New => -1,
                Special::Delete => -2,
                Special::Random => -3,
                Special::RandomOld => -4,
                Special::DoubleScore => -5,
            },
        }
    }

    pub fn from_i32(v: i32) -> (r: Option<Self>)
        ensures
            r.is_some() <==> v >= -5,
            r.is_some() ==> r.unwrap().wf() && r.unwrap().code() == v,
    {
        if v >= 1 {
            Some(BallType::Normal(v))
        } else if v == 0 {
            Some(BallType::Empty)
        } else if v == -1 {
            Some(BallType::Special(Special::New))
        } else if v == -2 {
            Some(BallType::Special(Special::Delete))
        } else if v == -3 {
            Some(BallType::Special(Special::Random))
        } else if v == -4 {
            Some(BallType::Special(Special::RandomOld))
        } else if v == -5 {
            Some(BallType::Special(Special::DoubleScore))
        } else {
            None
        }
    }
}

impl Default for BallType {
    fn default() -> (r: Self)
        ensures
            r == BallType::Empty,
    {
        BallType::Empty
    }
}

} // verus!
