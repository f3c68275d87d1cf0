use std::collections::HashMap;

use repairers::models::{Matrix, Move, MovementAlgorithm, Repairer};
use repairers::repairer::{execute, make_decision, DecisionError, ExecAction, ExecError, NOTE_LEN};
use repairers::layout::{get_note_index, get_status_index};

fn fresh_repairer(id: u32, location: (u8, u8), algorithm: MovementAlgorithm) -> Repairer {
    let mut known = HashMap::new();
    for i in 1..5 {
        known.insert(i, 0);
    }
    Repairer {
        id,
        total_broken: 5,
        total_fixed: 0,
        other_repairers_repairs: known,
        total_moves: 0,
        current_algorithm: algorithm,
        current_location: location,
        matrix_size: 7,
        decision: Move::Empty,
        move_turn: true,
        last_move_rotated: false,
        last_move: Move::Empty,
        result: String::new(),
    }
}

fn matrix_with(status: u8, notes: Vec<&str>) -> Matrix {
    let mut data = Vec::new();
    for _ in 0..7 {
        let mut row = Vec::new();
        for _ in 0..7 {
            row.push((notes.iter().map(|s| s.to_string()).collect::<Vec<String>>(), status));
        }
        data.push(row);
    }
    Matrix { data }
}

fn fresh_notes() -> Vec<&'static str> {
    vec!["0 repaired 0 times", "1 repaired 0 times", "2 repaired 0 times", "3 repaired 0 times"]
}

#[test]
fn decision_fixes_a_broken_house() {
    let mut s = fresh_repairer(1, (3, 3), MovementAlgorithm::BRD);
    s.last_move_rotated = true;
    s.last_move = Move::Left;
    let m = matrix_with(11, vec!["garbage"]);
    assert_eq!(make_decision(&mut s, &m, true), Ok(true));
    assert_eq!(s.decision, Move::Fix);
    assert!(!s.last_move_rotated);
    assert_eq!(s.last_move, Move::Left);
    assert_eq!(s.current_algorithm, MovementAlgorithm::BRD);
}

#[test]
fn decision_follows_the_algorithm_inside() {
    let mut s = fresh_repairer(1, (3, 3), MovementAlgorithm::BRD);
    let m = matrix_with(0, fresh_notes());
    assert_eq!(make_decision(&mut s, &m, true), Ok(true));
    assert_eq!(s.decision, Move::Right);
    let mut t = fresh_repairer(1, (3, 3), MovementAlgorithm::BRD);
    assert_eq!(make_decision(&mut t, &m, false), Ok(true));
    assert_eq!(t.decision, Move::Down);
    assert_eq!(t.current_location, (3, 3));
    assert_eq!(t.total_moves, 0);
}

#[test]
fn decision_keeps_a_pending_decision() {
    let mut s = fresh_repairer(1, (3, 3), MovementAlgorithm::BRD);
    s.decision = Move::Up;
    let m = matrix_with(0, fresh_notes());
    assert_eq!(make_decision(&mut s, &m, true), Ok(true));
    assert_eq!(s.decision, Move::Up);
}

#[test]
fn decision_turns_around_in_a_corner() {
    let mut s = fresh_repairer(1, (0, 0), MovementAlgorithm::BLU);
    let m = matrix_with(0, fresh_notes());
    assert_eq!(make_decision(&mut s, &m, true), Ok(true));
    assert_eq!(s.decision, Move::Right);
    assert_eq!(s.current_algorithm, MovementAlgorithm::BRD);
    assert!(s.last_move_rotated);
    assert_eq!(s.last_move, Move::Right);
    // next round the turned move is taken again, whatever the algorithm proposes
    s.decision = Move::Empty;
    assert_eq!(make_decision(&mut s, &m, false), Ok(true));
    assert_eq!(s.decision, Move::Right);
    assert!(!s.last_move_rotated);
}

#[test]
fn decision_turns_around_at_an_edge() {
    let mut s = fresh_repairer(2, (0, 3), MovementAlgorithm::DUL);
    let m = matrix_with(0, fresh_notes());
    assert_eq!(make_decision(&mut s, &m, true), Ok(true));
    assert_eq!(s.decision, Move::Down);
    assert_eq!(s.current_algorithm, MovementAlgorithm::DDR);
    assert!(!s.last_move_rotated);
    let mut b = fresh_repairer(2, (4, 6), MovementAlgorithm::BRD);
    assert_eq!(make_decision(&mut b, &m, true), Ok(true));
    assert_eq!(b.decision, Move::Left);
    assert_eq!(b.current_algorithm, MovementAlgorithm::BLU);
}

#[test]
fn decision_takes_in_notes_and_ends() {
    let mut s = fresh_repairer(1, (2, 2), MovementAlgorithm::BRD);
    s.other_repairers_repairs.insert(0, 0);
    s.total_broken = 6;
    let m = matrix_with(0, vec!["0 repaired 0 times", "1 repaired 0 times", "2 repaired 4 times", "3 repaired 2 times"]);
    assert_eq!(make_decision(&mut s, &m, true), Ok(true));
    // the count of repairer 3 (found at position 2) is kept under key 2, that of 4 under key 3
    assert_eq!(s.other_repairers_repairs.get(&2), Some(&4));
    assert_eq!(s.other_repairers_repairs.get(&3), Some(&2));
    assert_eq!(s.get_total_fixes_from_notes(), 6);
    assert_eq!(s.decision, Move::End);
}

#[test]
fn decision_errors() {
    let m = matrix_with(0, fresh_notes());
    let mut outside = fresh_repairer(1, (7, 0), MovementAlgorithm::BRD);
    assert_eq!(make_decision(&mut outside, &m, true), Err(DecisionError::OutsideMatrix));

    let mut bad = fresh_repairer(1, (1, 1), MovementAlgorithm::BRD);
    let garbled = matrix_with(0, vec!["0 repaired 0 times", "oops"]);
    assert_eq!(make_decision(&mut bad, &garbled, true), Err(DecisionError::BadNote));

    let mut unknown = fresh_repairer(1, (1, 1), MovementAlgorithm::BRD);
    unknown.other_repairers_repairs.remove(&1);
    assert_eq!(make_decision(&mut unknown, &m, true), Err(DecisionError::UnknownRepairer));

    let mut no_key = fresh_repairer(2, (1, 1), MovementAlgorithm::BRD);
    let higher = matrix_with(0, vec!["0 repaired 5 times"]);
    assert_eq!(make_decision(&mut no_key, &higher, true), Err(DecisionError::UnknownRepairer));

    let mut overflow = fresh_repairer(1, (1, 1), MovementAlgorithm::BRD);
    overflow.other_repairers_repairs.insert(1, u32::MAX);
    overflow.other_repairers_repairs.insert(2, 1);
    assert_eq!(make_decision(&mut overflow, &m, true), Err(DecisionError::CountOverflow));

    let mut empty = fresh_repairer(1, (1, 1), MovementAlgorithm::BRD);
    empty.matrix_size = 0;
    assert_eq!(make_decision(&mut empty, &m, true), Err(DecisionError::EmptyMatrix));
}

#[test]
fn total_fixes_sums_the_known_counts() {
    let mut s = fresh_repairer(1, (0, 0), MovementAlgorithm::BRD);
    assert_eq!(s.get_total_fixes_from_notes(), 0);
    s.other_repairers_repairs.insert(1, 3);
    s.other_repairers_repairs.insert(4, 2);
    s.other_repairers_repairs.insert(9, 10);
    assert_eq!(s.get_total_fixes_from_notes(), 15);
}

#[test]
fn execute_a_step() {
    let mut s = fresh_repairer(2, (3, 3), MovementAlgorithm::BRD);
    s.decision = Move::Up;
    match execute(&mut s, &[]) {
        Ok(ExecAction::Step { track_start, track_end, location, note_start, note_end, note }) => {
            assert_eq!(location, (2, 3));
            assert_eq!((track_start, track_end), (1, 3));
            assert_eq!((note_start, note_end), get_note_index((2, 3), 1, NOTE_LEN, 7));
            assert_eq!(note, b"2 repaired 0 times".to_vec());
        }
        _ => panic!("expected a step"),
    }
    assert_eq!(s.current_location, (2, 3));
    assert_eq!(s.decision, Move::Empty);
    assert_eq!(s.total_moves, 1);
    assert!(!s.move_turn);
}

#[test]
fn execute_a_fix() {
    let mut s = fresh_repairer(1, (0, 1), MovementAlgorithm::BRD);
    s.decision = Move::Fix;
    let status = get_status_index((0, 1), NOTE_LEN, 7);
    let mut bytes = vec![0u8; status + 1];
    bytes[status] = 244;
    match execute(&mut s, &bytes) {
        Ok(ExecAction::Fix { status: st, repaired, note_start, note_end, note }) => {
            assert_eq!(st, status);
            assert!(repaired);
            assert_eq!((note_start, note_end), get_note_index((0, 1), 0, NOTE_LEN, 7));
            assert_eq!(note, b"1 repaired 1 times".to_vec());
        }
        _ => panic!("expected a fix"),
    }
    assert_eq!(s.total_fixed, 1);
    assert_eq!(s.other_repairers_repairs.get(&1), Some(&1));
    assert_eq!(s.decision, Move::Empty);
    assert_eq!(s.total_moves, 1);

    // a house already repaired is left as it is
    s.decision = Move::Fix;
    bytes[status] = 255;
    match execute(&mut s, &bytes) {
        Ok(ExecAction::Fix { repaired, .. }) => assert!(!repaired),
        _ => panic!("expected a fix"),
    }
    assert_eq!(s.total_fixed, 1);
    assert_eq!(s.total_moves, 2);
}

#[test]
fn execute_the_end() {
    let mut s = fresh_repairer(1, (0, 1), MovementAlgorithm::BRD);
    s.other_repairers_repairs = HashMap::new();
    s.other_repairers_repairs.insert(1, 2);
    s.total_fixed = 2;
    s.total_moves = 3;
    s.decision = Move::End;
    let action = execute(&mut s, &[]).unwrap();
    assert!(!action.continues());
    let expected = "repairer id: 1, repairs: 2, moves: 4, all_players_repairs: {1: 2}, goal: 5 \n";
    assert_eq!(s.result, expected);
    match action {
        ExecAction::Finish { stats_start, stats_end } => {
            assert_eq!((stats_start, stats_end), (0, expected.len()));
        }
        _ => panic!("expected the end"),
    }
    let mut two = fresh_repairer(2, (0, 1), MovementAlgorithm::BRD);
    two.decision = Move::End;
    match execute(&mut two, &[]) {
        Ok(ExecAction::Finish { stats_start, stats_end }) => {
            let expected = format!(
                "repairer id: 2, repairs: 0, moves: 1, all_players_repairs: {:?}, goal: 5 \n",
                two.other_repairers_repairs
            );
            assert_eq!(two.result, expected);
            assert_eq!((stats_start, stats_end), (expected.len(), expected.len()));
        }
        _ => panic!("expected the end"),
    }
}

#[test]
fn execute_errors() {
    let mut off = fresh_repairer(1, (0, 0), MovementAlgorithm::BRD);
    off.decision = Move::Left;
    assert_eq!(execute(&mut off, &[]).err(), Some(ExecError::OffGrid));

    let mut short = fresh_repairer(1, (0, 0), MovementAlgorithm::BRD);
    short.decision = Move::Fix;
    assert_eq!(execute(&mut short, &[0; 10]).err(), Some(ExecError::OutsideFile));

    let mut stranger = fresh_repairer(9, (0, 0), MovementAlgorithm::BRD);
    stranger.decision = Move::Fix;
    assert_eq!(execute(&mut stranger, &[0; 200]).err(), Some(ExecError::UnknownRepairer));

    let mut tired = fresh_repairer(1, (0, 0), MovementAlgorithm::BRD);
    tired.decision = Move::Right;
    tired.total_moves = u32::MAX;
    assert_eq!(execute(&mut tired, &[]).err(), Some(ExecError::CountOverflow));

    let mut nobody = fresh_repairer(0, (0, 0), MovementAlgorithm::BRD);
    nobody.decision = Move::Right;
    assert_eq!(execute(&mut nobody, &[]).err(), Some(ExecError::BadRepairerId));

    let mut wrapped = fresh_repairer(256, (0, 0), MovementAlgorithm::BRD);
    wrapped.decision = Move::Right;
    assert_eq!(execute(&mut wrapped, &[]).err(), Some(ExecError::BadRepairerId));
}

#[test]
fn a_round_stays_on_the_grid() {
    let m = matrix_with(0, fresh_notes());
    let algorithms = [
        MovementAlgorithm::BRD, MovementAlgorithm::BLD, MovementAlgorithm::BRU, MovementAlgorithm::BLU,
        MovementAlgorithm::DDR, MovementAlgorithm::DDL, MovementAlgorithm::DUR, MovementAlgorithm::DUL,
    ];
    for a in algorithms {
        let mut s = fresh_repairer(1, (0, 0), a);
        for round in 0..60u32 {
            make_decision(&mut s, &m, round % 3 == 0).unwrap();
            execute(&mut s, &[]).unwrap();
            assert!(s.current_location.0 < 7 && s.current_location.1 < 7);
        }
    }
}

#[test]
fn new_repairer_starts_fresh() {
    let s = Repairer::new(3, 5, (2, 4), MovementAlgorithm::BLU, 7);
    assert_eq!(s.id, 3);
    assert_eq!(s.total_broken, 5);
    assert_eq!(s.total_fixed, 0);
    assert_eq!(s.total_moves, 0);
    assert_eq!(s.current_location, (2, 4));
    assert_eq!(s.current_algorithm, MovementAlgorithm::BLU);
    assert_eq!(s.matrix_size, 7);
    assert_eq!(s.decision, Move::Empty);
    assert!(s.move_turn);
    assert!(!s.last_move_rotated);
    assert_eq!(s.last_move, Move::Empty);
    assert_eq!(s.result, "");
    let mut expected = HashMap::new();
    for i in 1..5 {
        expected.insert(i, 0);
    }
    assert_eq!(s.other_repairers_repairs, expected);
}
