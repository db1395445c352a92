//! Constrained-random scramble sequences.
//!
//! A scramble never turns the same face twice in a row, and when a move
//! turns the face opposite to the previous one it must also differ from the
//! face two moves back, so that an opposite-face pair cannot cancel across
//! an unrelated move in between.

use crate::turns::{dir_char, move_text, opp, rand_below, Direction, Move, Turn};
use vstd::prelude::*;
use vstd::string::StringExecFns;

verus! {

/// Whether direction `d` may follow a move on `prev`, with `prev2` the
/// direction two moves back where one exists.
pub open spec fn dir_admissible(d: Direction, prev: Direction, prev2: Option<Direction>) -> bool {
    &&& d != prev
    &&& match prev2 {
        Option::Some(p2) => d == opp(prev) ==> d != p2,
        Option::None => true,
    }
}

/// The adjacency constraints at position `i` of a scramble: the move does
/// not share its direction with its predecessor, and when its direction is
/// the opposite of its predecessor's it also differs from the direction two
/// positions back.
pub open spec fn move_ok_at(s: Seq<Move>, i: int) -> bool {
    &&& 1 <= i ==> s[i].direction != s[i - 1].direction
    &&& 2 <= i && s[i].direction == opp(s[i - 1].direction) ==> s[i].direction != s[i
        - 2].direction
}

/// The adjacency constraints every scramble satisfies, at every position.
pub open spec fn scramble_ok(s: Seq<Move>) -> bool {
    forall|i: int| 0 <= i < s.len() ==> #[trigger] move_ok_at(s, i)
}

/// A direction on the axis that neither `prev` nor its opposite lies on;
/// it is admissible after `prev` whatever came before.
pub open spec fn spare_dir(prev: Direction) -> Direction {
    match prev {
        Direction::Up => Direction::Left,
        Direction::Down => Direction::Left,
        Direction::Left => Direction::Front,
        Direction::Right => Direction::Front,
        Direction::Front => Direction::Up,
        Direction::Back => Direction::Up,
    }
}

/// The scramble rendered as text: each move's face letter, its turn suffix,
/// and a separating space.
pub open spec fn scramble_text(s: Seq<Move>) -> Seq<char>
    decreases s.len(),
{
    if s.len() == 0 {
        Seq::empty()
    } else {
        scramble_text(s.drop_last()) + move_text(s.last())
    }
}

/// An ordered sequence of moves to apply before a timed attempt.
#[derive(Debug)]
pub struct Scramble {
    pub moves: Vec<Move>,
}

impl View for Scramble {
    type V = Seq<Move>;

    open spec fn view(&self) -> Seq<Move> {
        self.moves@
    }
}

/// Whether `d` may follow `prev` (and `prev2` where given).
fn dir_ok(d: Direction, prev: Direction, prev2: Option<Direction>) -> (r: bool)
    ensures
        r == dir_admissible(d, prev, prev2),
{
    if d == prev {
        false
    } else {
        match prev2 {
            Option::Some(p2) => {
                if d == prev.opposite() {
                    d != p2
                } else {
                    true
                }
            },
            Option::None => true,
        }
    }
}

/// A move drawn uniformly from those admissible after `prev` (and `prev2`
/// where given): of the six faces at most two are excluded, so at least
/// four choices always remain.
fn random_move_after(prev: Direction, prev2: Option<Direction>) -> (m: Move)
    ensures
        dir_admissible(m.direction, prev, prev2),
{
    let mut cands: Vec<Direction> = Vec::new();
    if dir_ok(Direction::Up, prev, prev2) {
        cands.push(Direction::Up);
    }
    if dir_ok(Direction::Down, prev, prev2) {
        cands.push(Direction::Down);
    }
    if dir_ok(Direction::Left, prev, prev2) {
        cands.push(Direction::Left);
    }
    if dir_ok(Direction::Right, prev, prev2) {
        cands.push(Direction::Right);
    }
    if dir_ok(Direction::Front, prev, prev2) {
        cands.push(Direction::Front);
    }
    if dir_ok(Direction::Back, prev, prev2) {
        cands.push(Direction::Back);
    }
    proof {
        assert(dir_admissible(spare_dir(prev), prev, prev2));
        assert(cands@.len() >= 1);
    }
    let idx = rand_below(cands.len() as u64) as usize;
    let drawn = Move::random();
    Move { direction: cands[idx], turn: drawn.turn }
}

impl Scramble {
    /// A fresh scramble of exactly `length` moves satisfying the adjacency
    /// constraints. Each call is an independent one-shot generation.
    pub fn new(length: usize) -> (r: Scramble)
        requires
            1 <= length,
        ensures
            r@.len() == length,
            scramble_ok(r@),
    {
        let mut moves: Vec<Move> = Vec::new();
        moves.push(Move::random());
        while moves.len() < length
            invariant
                1 <= moves@.len() <= length,
                scramble_ok(moves@),
            decreases length - moves.len(),
        {
            let n = moves.len();
            let prev = moves[n - 1].direction;
            let prev2 = if n >= 2 {
                Option::Some(moves[n - 2].direction)
            } else {
                Option::None
            };
            let next = random_move_after(prev, prev2);
            let ghost s0 = moves@;
            moves.push(next);
            proof {
                let t = moves@;
                assert(t == s0.push(next));
                assert forall|i: int| 0 <= i < t.len() implies #[trigger] move_ok_at(t, i) by {
                    if i < s0.len() {
                        assert(move_ok_at(s0, i));
                        assert(t[i] == s0[i]);
                        if 1 <= i {
                            assert(t[i - 1] == s0[i - 1]);
                        }
                        if 2 <= i {
                            assert(t[i - 2] == s0[i - 2]);
                        }
                    } else {
                        assert(t[i] == next);
                        assert(t[i - 1] == s0[s0.len() - 1]);
                        if 2 <= i {
                            assert(t[i - 2] == s0[s0.len() - 2]);
                            assert(prev2 == Option::Some(s0[s0.len() - 2].direction));
                        }
                    }
                }
            }
        }
        Scramble { moves }
    }

    /// The scramble in standard notation, one move at a time.
    pub fn to_string(&self) -> (r: String)
        ensures
            r@ == scramble_text(self@),
    {
        let mut r = String::new();
        let mut i: usize = 0;
        while i < self.moves.len()
            invariant
                i <= self.moves@.len(),
                r@ == scramble_text(self@.subrange(0, i as int)),
            decreases self.moves@.len() - i,
        {
            let m = self.moves[i];
            r.append(dir_str(m.direction));
            match m.turn {
                Turn::Clockwise => {},
                Turn::CounterClockwise => {
                    proof {
                        reveal_strlit("'");
                    }
                    r.append("'");
                },
                Turn::Double => {
                    proof {
                        reveal_strlit("2");
                    }
                    r.append("2");
                },
            }
            proof {
                reveal_strlit(" ");
            }
            r.append(" ");
            i = i + 1;
            proof {
                let pre = self@.subrange(0, i - 1);
                let cur = self@.subrange(0, i as int);
                assert(cur.drop_last() =~= pre);
                assert(cur.last() == self@[i - 1]);
                assert(r@ =~= scramble_text(cur));
            }
        }
        proof {
            assert(self@.subrange(0, self@.len() as int) =~= self@);
        }
        r
    }
}

/// The face letter of `d` as a one-character string.
fn dir_str(d: Direction) -> (r: &'static str)
    ensures
        r@ == seq![dir_char(d)],
{
    match d {
        Direction::Up => {
            proof {
                reveal_strlit("U");
            }
            let s = "U";
            proof {
                assert(s@ =~= seq![dir_char(d)]);
            }
            s
        },
        Direction::Down => {
            proof {
                reveal_strlit("D");
            }
            let s = "D";
            proof {
                assert(s@ =~= seq![dir_char(d)]);
            }
            s
        },
        Direction::Left => {
            proof {
                reveal_strlit("L");
            }
            let s = "L";
            proof {
                assert(s@ =~= seq![dir_char(d)]);
            }
            s
        },
        Direction::Right => {
            proof {
                reveal_strlit("R");
            }
            let s = "R";
            proof {
                assert(s@ =~= seq![dir_char(d)]);
            }
            s
        },
        Direction::Front => {
            proof {
                reveal_strlit("F");
            }
            let s = "F";
            proof {
                assert(s@ =~= seq![dir_char(d)]);
            }
            s
        },
        Direction::Back => {
            proof {
                reveal_strlit("B");
            }
            let s = "B";
            proof {
                assert(s@ =~= seq![dir_char(d)]);
            }
            s
        },
    }
}

} // verus!
