use cube_timer::scramble::Scramble;
use cube_timer::turns::{Direction, Move, Turn};

#[test]
fn opposite_faces_pair_up() {
    assert_eq!(Direction::Up.opposite(), Direction::Down);
    assert_eq!(Direction::Down.opposite(), Direction::Up);
    assert_eq!(Direction::Left.opposite(), Direction::Right);
    assert_eq!(Direction::Right.opposite(), Direction::Left);
    assert_eq!(Direction::Front.opposite(), Direction::Back);
    assert_eq!(Direction::Back.opposite(), Direction::Front);
}

#[test]
fn opposite_turns_cancel() {
    assert_eq!(Turn::Clockwise.opposite(), Turn::CounterClockwise);
    assert_eq!(Turn::CounterClockwise.opposite(), Turn::Clockwise);
    assert_eq!(Turn::Double.opposite(), Turn::Double);
}

#[test]
fn scramble_has_exactly_twenty_moves() {
    for _ in 0..50 {
        let s = Scramble::new(20);
        assert_eq!(s.moves.len(), 20);
    }
}

#[test]
fn scramble_respects_adjacency_constraints() {
    for _ in 0..200 {
        let s = Scramble::new(20);
        let m = &s.moves;
        for i in 1..m.len() {
            assert_ne!(m[i].direction, m[i - 1].direction);
        }
        for i in 2..m.len() {
            if m[i].direction == m[i - 1].direction.opposite() {
                assert_ne!(m[i].direction, m[i - 2].direction);
            }
        }
    }
}

#[test]
fn scramble_of_other_lengths() {
    assert_eq!(Scramble::new(1).moves.len(), 1);
    assert_eq!(Scramble::new(7).moves.len(), 7);
}

#[test]
fn scramble_renders_standard_notation() {
    let s = Scramble {
        moves: vec![
            Move { direction: Direction::Up, turn: Turn::Double },
            Move { direction: Direction::Right, turn: Turn::CounterClockwise },
            Move { direction: Direction::Front, turn: Turn::Clockwise },
            Move { direction: Direction::Back, turn: Turn::Double },
            Move { direction: Direction::Left, turn: Turn::Clockwise },
            Move { direction: Direction::Down, turn: Turn::CounterClockwise },
        ],
    };
    assert_eq!(s.to_string(), "U2 R' F B2 L D' ");
}

#[test]
fn random_scrambles_differ_almost_surely() {
    // 18^20 sequences: two independent draws colliding would be astonishing
    let a = Scramble::new(20).to_string();
    let b = Scramble::new(20).to_string();
    let c = Scramble::new(20).to_string();
    assert!(a != b || b != c || a != c);
}

#[test]
fn random_move_is_well_formed() {
    for _ in 0..100 {
        let m = Move::random();
        let dir_ok = matches!(
            m.direction,
            Direction::Up
                | Direction::Down
                | Direction::Left
                | Direction::Right
                | Direction::Front
                | Direction::Back
        );
        let turn_ok = matches!(m.turn, Turn::Clockwise | Turn::CounterClockwise | Turn::Double);
        assert!(dir_ok && turn_ok);
    }
}
