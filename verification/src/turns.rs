//! Cube moves: a face to turn and how far to turn it.

use rand::Rng;
use vstd::prelude::*;

verus! {

/// One of the six faces of the cube.
#[derive(Clone, Copy, PartialEq, Eq, Structural, Debug)]
pub enum Direction {
    Up,
    Down,
    Left,
    Right,
    Front,
    Back,
}

/// The face on the other side of the cube from `d`.
pub open spec fn opp(d: Direction) -> Direction {
    match d {
        Direction::Up => Direction::Down,
        Direction::Down => Direction::Up,
        Direction::Left => Direction::Right,
        Direction::Right => Direction::Left,
        Direction::Front => Direction::Back,
        Direction::Back => Direction::Front,
    }
}

/// The letter naming a face in scramble notation.
pub open spec fn dir_char(d: Direction) -> char {
    match d {
        Direction::Up => 'U',
        Direction::Down => 'D',
        Direction::Left => 'L',
        Direction::Right => 'R',
        Direction::Front => 'F',
        Direction::Back => 'B',
    }
}

impl Direction {
    pub fn opposite(&self) -> (r: Direction)
        ensures
            r == opp(*self),
    {
        match self {
            Direction::Up => Direction::Down,
            Direction::Down => Direction::Up,
            Direction::Left => Direction::Right,
            Direction::Right => Direction::Left,
            Direction::Front => Direction::Back,
            Direction::Back => Direction::Front,
        }
    }
}

/// How far a face is turned.
#[derive(Clone, Copy, PartialEq, Eq, Structural, Debug)]
pub enum Turn {
    Clockwise,
    CounterClockwise,
    Double,
}

/// The turn that undoes `t`.
pub open spec fn turn_opp(t: Turn) -> Turn {
    match t {
        Turn::Clockwise => Turn::CounterClockwise,
        Turn::CounterClockwise => Turn::Clockwise,
        Turn::Double => Turn::Double,
    }
}

/// The suffix written after the face letter: nothing for a clockwise turn,
/// an apostrophe for a counter-clockwise one, a 2 for a half turn.
pub open spec fn turn_text(t: Turn) -> Seq<char> {
    match t {
        Turn::Clockwise => Seq::empty(),
        Turn::CounterClockwise => seq!['\''],
        Turn::Double => seq!['2'],
    }
}

impl Turn {
    pub fn opposite(&self) -> (r: Turn)
        ensures
            r == turn_opp(*self),
    {
        match self {
            Turn::Clockwise => Turn::CounterClockwise,
            Turn::CounterClockwise => Turn::Clockwise,
            Turn::Double => Turn::Double,
        }
    }
}

/// A single scramble move, immutable once created.
#[derive(Clone, Copy, PartialEq, Eq, Structural, Debug)]
pub struct Move {
    pub direction: Direction,
    pub turn: Turn,
}

/// The notation for one move followed by a separating space.
pub open spec fn move_text(m: Move) -> Seq<char> {
    seq![dir_char(m.direction)] + turn_text(m.turn) + seq![' ']
}

/// Relies on rand::Rng::gen_range on the range `0..n`: a draw uniform over
/// that range; it panics only when the range is empty.
#[verifier::external_body]
pub(crate) fn rand_below(n: u64) -> (r: u64)
    requires
        1 <= n,
    ensures
        r < n,
{
    rand::thread_rng().gen_range(0..n)
}

impl Move {
    /// A move drawn uniformly from the 18 possible ones. Nothing can be
    /// promised of a random draw beyond its being a well-formed move.
    pub fn random() -> Move {
        let direction = match rand_below(6) {
            0 => Direction::Up,
            1 => Direction::Down,
            2 => Direction::Left,
            3 => Direction::Right,
            4 => Direction::Front,
            _ => Direction::Back,
        };
        let turn = match rand_below(3) {
            0 => Turn::Clockwise,
            1 => Turn::CounterClockwise,
            _ => Turn::Double,
        };
        Move { direction, turn }
    }
}

} // verus!
