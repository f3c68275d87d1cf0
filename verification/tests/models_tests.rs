use repairers::models::{Move, MovementAlgorithm, Note, RepairerResult};

const ALGORITHMS: [MovementAlgorithm; 8] = [
    MovementAlgorithm::BRD,
    MovementAlgorithm::BLD,
    MovementAlgorithm::BRU,
    MovementAlgorithm::BLU,
    MovementAlgorithm::DDR,
    MovementAlgorithm::DDL,
    MovementAlgorithm::DUR,
    MovementAlgorithm::DUL,
];

fn turned(m: Move) -> Move {
    let mut m = m;
    m.rotate_dir();
    m
}

#[test]
fn horizontal_moves() {
    assert!(Move::Left.is_horizontal());
    assert!(Move::Right.is_horizontal());
    assert!(!Move::Up.is_horizontal());
    assert!(!Move::Down.is_horizontal());
    assert!(!Move::Fix.is_horizontal());
    assert!(!Move::End.is_horizontal());
    assert!(!Move::Empty.is_horizontal());
}

#[test]
fn rotate_dir_turns_steps_around() {
    assert_eq!(turned(Move::Left), Move::Right);
    assert_eq!(turned(Move::Right), Move::Left);
    assert_eq!(turned(Move::Up), Move::Down);
    assert_eq!(turned(Move::Down), Move::Up);
    assert_eq!(turned(Move::Fix), Move::Fix);
    assert_eq!(turned(Move::End), Move::End);
    assert_eq!(turned(Move::Empty), Move::Empty);
}

#[test]
fn rotate_dir_twice_is_identity() {
    for m in [Move::Up, Move::Down, Move::Left, Move::Right, Move::Fix, Move::End, Move::Empty] {
        assert_eq!(turned(turned(m)), m);
        assert_eq!(turned(m).is_horizontal(), m.is_horizontal());
    }
}

#[test]
fn apply_on_index_moves_one_house() {
    assert_eq!(Move::Right.apply_on_index((3, 4)), (3, 5));
    assert_eq!(Move::Left.apply_on_index((3, 4)), (3, 3));
    assert_eq!(Move::Up.apply_on_index((3, 4)), (2, 4));
    assert_eq!(Move::Down.apply_on_index((3, 4)), (4, 4));
}

#[test]
fn step_and_back_returns() {
    for m in [Move::Up, Move::Down, Move::Left, Move::Right] {
        let there = m.apply_on_index((5, 5));
        assert_eq!(turned(m).apply_on_index(there), (5, 5));
    }
}

#[test]
fn get_move_table() {
    let expected = [
        (MovementAlgorithm::BRD, Move::Right, Move::Down),
        (MovementAlgorithm::BLD, Move::Left, Move::Down),
        (MovementAlgorithm::BRU, Move::Right, Move::Up),
        (MovementAlgorithm::BLU, Move::Left, Move::Up),
        (MovementAlgorithm::DDR, Move::Down, Move::Right),
        (MovementAlgorithm::DDL, Move::Down, Move::Left),
        (MovementAlgorithm::DUR, Move::Up, Move::Right),
        (MovementAlgorithm::DUL, Move::Up, Move::Left),
    ];
    for (a, first, second) in expected {
        assert_eq!(a.get_move(true), first);
        assert_eq!(a.get_move(false), second);
        assert_ne!(first.is_horizontal(), second.is_horizontal());
    }
}

#[test]
fn rotate_algo_table() {
    let expected = [
        (MovementAlgorithm::BRD, MovementAlgorithm::BLU),
        (MovementAlgorithm::BLD, MovementAlgorithm::BRU),
        (MovementAlgorithm::BRU, MovementAlgorithm::BLD),
        (MovementAlgorithm::BLU, MovementAlgorithm::BRD),
        (MovementAlgorithm::DDL, MovementAlgorithm::DUR),
        (MovementAlgorithm::DDR, MovementAlgorithm::DUL),
        (MovementAlgorithm::DUL, MovementAlgorithm::DDR),
        (MovementAlgorithm::DUR, MovementAlgorithm::DDL),
    ];
    for (a, b) in expected {
        for mv in [Move::Left, Move::Up, Move::Fix] {
            let mut x = a;
            x.rotate_algo(&mv);
            assert_eq!(x, b);
        }
    }
}

#[test]
fn rotate_algo_twice_is_identity() {
    for a in ALGORITHMS {
        let mut x = a;
        x.rotate_algo(&Move::Right);
        x.rotate_algo(&Move::Down);
        assert_eq!(x, a);
    }
}

#[test]
fn rotated_algorithm_proposes_opposite_moves() {
    for a in ALGORITHMS {
        let mut r = a;
        r.rotate_algo(&Move::Up);
        for first in [true, false] {
            assert_eq!(r.get_move(first), turned(a.get_move(first)));
        }
    }
}

#[test]
fn note_to_string() {
    let n = Note { id: 3, num_repairs: 12 };
    assert_eq!(n.to_string(), "3 repaired 12 times");
    let z = Note { id: 0, num_repairs: 0 };
    assert_eq!(z.to_string(), "0 repaired 0 times");
    assert_eq!(z.to_string().len(), 18);
}

#[test]
fn note_parse_reads_the_numbers() {
    let n = Note::parse(&"2 repaired 5 times".to_string());
    assert_eq!(n, Note { id: 2, num_repairs: 5 });
    let spaced = Note::parse(&"  4\trepaired\n  17   times ".to_string());
    assert_eq!(spaced, Note { id: 4, num_repairs: 17 });
    let signed = Note::parse(&"+1 repaired 007 times".to_string());
    assert_eq!(signed, Note { id: 1, num_repairs: 7 });
    let big = Note::parse(&"4294967295 repaired 0 times".to_string());
    assert_eq!(big, Note { id: u32::MAX, num_repairs: 0 });
}

#[test]
fn note_try_parse_refuses_other_texts() {
    for bad in [
        "",
        "2 repaired 5",
        "2 repaired 5 times now",
        "2 fixed 5 times",
        "2 repaired 5 time",
        "-2 repaired 5 times",
        "two repaired 5 times",
        "2 repaired 4294967296 times",
        "+ repaired 5 times",
        "2 Repaired 5 times",
    ] {
        assert_eq!(Note::try_parse(&bad.to_string()), None, "{}", bad);
    }
}

#[test]
fn note_roundtrip() {
    for (id, n) in [(0, 0), (1, 9), (4, 10), (12345, 678), (u32::MAX, u32::MAX)] {
        let note = Note { id, num_repairs: n };
        assert_eq!(Note::parse(&note.to_string()), note);
    }
}

#[test]
fn repairer_result_to_string() {
    let r = RepairerResult { id: 1, repairs: 2, moves: 30, goal: 5, all_players_repairs: vec![1, 0, 4] };
    assert_eq!(r.to_string(), "id: 1, repairs: 2, moves: 30, all_player_repairs: [1, 0, 4], goal: 5");
    let e = RepairerResult { id: 7, repairs: 0, moves: 0, goal: 0, all_players_repairs: vec![] };
    assert_eq!(e.to_string(), "id: 7, repairs: 0, moves: 0, all_player_repairs: [], goal: 0");
    let one = RepairerResult { id: 2, repairs: 3, moves: 4, goal: 6, all_players_repairs: vec![99] };
    assert_eq!(one.to_string(), format!("id: {}, repairs: {}, moves: {}, all_player_repairs: {:?}, goal: {}", 2, 3, 4, vec![99u32], 6));
}

#[test]
fn note_spacing_does_not_matter() {
    let plain = Note::try_parse(&"7 repaired 3 times".to_string());
    for spaced in [
        "7  repaired\t3 times",
        " \n7 repaired 3\u{3000}times\t ",
        "7\u{a0}repaired\u{2003}3\r\ntimes",
    ] {
        assert_eq!(Note::try_parse(&spaced.to_string()), plain, "{:?}", spaced);
    }
    assert_eq!(Note::try_parse(&"7 repaired 3  tim es".to_string()), None);
    assert_eq!(Note::try_parse(&" 7 repaired x times ".to_string()), None);
}
