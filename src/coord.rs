use crate::{HEIGHT, WIDTH};
use vstd::prelude::*;

verus! {

/// A cell of a playfield: column, then row. `Coordinate(0, 0)` is bottom left.
#[derive(Debug, Clone, Copy, PartialEq, Eq, Structural)]
pub struct Coordinate(pub usize, pub usize);

/// One of the two players.
#[derive(Debug, Clone, Copy, PartialEq, Eq, Structural)]
pub enum Player {
    P1,
    P2,
}

/// A turn command: clockwise or counter-clockwise.
#[derive(Debug, Clone, Copy, PartialEq, Eq, Structural)]
pub enum Direction {
    CW,
    CCW,
}

/// The heading the snake travels in.
#[derive(Debug, Clone, Copy, PartialEq, Eq, Structural)]
pub enum Velocity {
    Up,
    Down,
    Left,
    Right,
}

impl Coordinate {
    /// The cell lies on the playfield.
    pub open spec fn in_bounds(self) -> bool {
        self.0 < WIDTH && self.1 < HEIGHT
    }

    /// The neighbouring cell along `v`, or `Err` where that leaves the playfield.
    pub open spec fn moved(self, v: Velocity) -> Result<Coordinate, ()> {
        let (x, y) = (self.0 as int, self.1 as int);
        let (nx, ny) = match v {
            Velocity::Up => (x, y + 1),
            Velocity::Down => (x, y - 1),
            Velocity::Left => (x - 1, y),
            Velocity::Right => (x + 1, y),
        };
        if 0 <= nx < WIDTH && 0 <= ny < HEIGHT {
            Ok(Coordinate(nx as usize, ny as usize))
        } else {
            Err(())
        }
    }

    /// Shifts the cell one step along `velocity`; fails at the playfield's edge.
    pub fn apply(&self, velocity: Velocity) -> (r: Result<Self, ()>)
        requires
            self.in_bounds(),
        ensures
            r == self.moved(velocity),
            r matches Ok(c) ==> c.in_bounds(),
    {
        match velocity {
            Velocity::Up => {
                if self.1 + 1 < HEIGHT {
                    Ok(Self(self.0, self.1 + 1))
                } else {
                    Err(())
                }
            },
            Velocity::Down => {
                if self.1 >= 1 {
                    Ok(Self(self.0, self.1 - 1))
                } else {
                    Err(())
                }
            },
            Velocity::Left => {
                if self.0 >= 1 {
                    Ok(Self(self.0 - 1, self.1))
                } else {
                    Err(())
                }
            },
            Velocity::Right => {
                if self.0 + 1 < WIDTH {
                    Ok(Self(self.0 + 1, self.1))
                } else {
                    Err(())
                }
            },
        }
    }
}

impl Player {
    /// The player who is not `self`.
    pub open spec fn other(self) -> Player {
        match self {
            Player::P1 => Player::P2,
            Player::P2 => Player::P1,
        }
    }
}

impl Velocity {
    /// The heading after a quarter turn: clockwise runs Up, Right, Down, Left.
    pub open spec fn turned(self, d: Direction) -> Velocity {
        match (self, d) {
            (Velocity::Up, Direction::CW) => Velocity::Right,
            (Velocity::Right, Direction::CW) => Velocity::Down,
            (Velocity::Down, Direction::CW) => Velocity::Left,
            (Velocity::Left, Direction::CW) => Velocity::Up,
            (Velocity::Up, Direction::CCW) => Velocity::Left,
            (Velocity::Left, Direction::CCW) => Velocity::Down,
            (Velocity::Down, Direction::CCW) => Velocity::Right,
            (Velocity::Right, Direction::CCW) => Velocity::Up,
        }
    }

    /// Rotates the heading a quarter turn in `direction`.
    pub fn apply(&self, direction: Direction) -> (r: Velocity)
        ensures
            r == self.turned(direction),
    {
        match self {
            Self::Up => match direction {
                Direction::CW => Self::Right,
                Direction::CCW => Self::Left,
            },
            Self::Down => match direction {
                Direction::CW => Self::Left,
                Direction::CCW => Self::Right,
            },
            Self::Left => match direction {
                Direction::CW => Self::Up,
                Direction::CCW => Self::Down,
            },
            Self::Right => match direction {
                Direction::CW => Self::Down,
                Direction::CCW => Self::Up,
            },
        }
    }
}

} // verus!
