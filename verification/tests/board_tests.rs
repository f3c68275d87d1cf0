use repairers::board::{board_text, build_matrix, init_matrix, BoardError, MARKED_BROKEN};
use repairers::random::gen_rand_index;

fn is_fresh_note(notes: &Vec<String>) -> bool {
    notes.len() == 4 && (0..4).all(|k| notes[k] == format!("{} repaired 0 times", k))
}

#[test]
fn gen_rand_index_draws_distinct_numbers() {
    for _ in 0..20 {
        let v = gen_rand_index(3, 0, 7);
        assert_eq!(v.len(), 3);
        for (i, x) in v.iter().enumerate() {
            assert!((0..7).contains(x));
            assert!(!v[i + 1..].contains(x));
        }
    }
}

#[test]
fn gen_rand_index_limits() {
    let mut all = gen_rand_index(-1, 2, 6);
    all.sort();
    assert_eq!(all, vec![2, 3, 4, 5]);
    let mut capped = gen_rand_index(10, -3, 0);
    capped.sort();
    assert_eq!(capped, vec![-3, -2, -1]);
    assert_eq!(gen_rand_index(2, 5, 5), Vec::<i32>::new());
    assert_eq!(gen_rand_index(2, 6, 1), Vec::<i32>::new());
    assert_eq!(gen_rand_index(0, 0, 9), Vec::<i32>::new());
}

#[test]
fn build_matrix_marks_listed_houses() {
    let m = build_matrix(3, 4, &vec![0, 2, 1], &vec![3, 0, 1], 2).unwrap();
    assert_eq!(m.data.len(), 3);
    for r in 0..3 {
        assert_eq!(m.data[r].len(), 4);
        for c in 0..4 {
            assert!(is_fresh_note(&m.data[r][c].0));
            let broken = (r, c) == (0, 3) || (r, c) == (2, 0);
            assert_eq!(m.data[r][c].1, if broken { MARKED_BROKEN } else { 0 });
        }
    }
}

#[test]
fn build_matrix_refuses_missing_houses() {
    assert_eq!(build_matrix(3, 3, &vec![0, 1], &vec![0, 1], 3).err(), Some(BoardError::NoSuchHouse));
    assert_eq!(build_matrix(3, 3, &vec![0, 3], &vec![0, 1], 2).err(), Some(BoardError::NoSuchHouse));
    assert_eq!(build_matrix(3, 3, &vec![0, -1], &vec![0, 1], 2).err(), Some(BoardError::NoSuchHouse));
    assert_eq!(build_matrix(3, 3, &vec![0, 1], &vec![0, 5], 2).err(), Some(BoardError::NoSuchHouse));
    assert!(build_matrix(3, 3, &vec![], &vec![], -4).is_ok());
}

#[test]
fn init_matrix_has_three_to_six_broken_houses() {
    for _ in 0..20 {
        let m = init_matrix(7, 7).unwrap();
        assert_eq!(m.data.len(), 7);
        let mut broken = 0;
        for row in &m.data {
            assert_eq!(row.len(), 7);
            for cell in row {
                assert!(is_fresh_note(&cell.0));
                assert!(cell.1 == 0 || cell.1 == MARKED_BROKEN);
                if cell.1 == MARKED_BROKEN {
                    broken += 1;
                }
            }
        }
        assert!((3..7).contains(&broken));
    }
}

#[test]
fn init_matrix_small_depends_on_the_draw() {
    let mut failed = false;
    let mut built = false;
    for _ in 0..80 {
        match init_matrix(3, 7) {
            Ok(m) => {
                built = true;
                let broken = m.data.iter().flatten().filter(|cell| cell.1 == MARKED_BROKEN).count();
                assert_eq!(broken, 3);
            }
            Err(e) => {
                failed = true;
                assert_eq!(e, BoardError::NoSuchHouse);
            }
        }
    }
    assert!(failed && built);
}

#[test]
fn board_text_layout() {
    let data = vec![
        vec![(vec![], 0u8), (vec![], 244u8)],
        vec![(vec![], 255u8), (vec![], 11u8)],
    ];
    let text = board_text(&data, &vec![0, 1, 2, 3, 4, 5, 6, 7]);
    let expected = "   repairer 1    |    repairer 2    |    repairer 3    |    repairer 4    \n"
        .to_string()
        + "     [0, 1]             [2, 3]            [4, 5]            [6, 7]        \n"
        + "\n"
        + "0 | 244 | \n-   -   \n"
        + "255 | 11 | \n-   -   \n";
    assert_eq!(text, expected);
}

#[test]
fn gen_rand_index_shuffles() {
    let mut reordered = false;
    for _ in 0..50 {
        if gen_rand_index(7, 0, 7) != vec![0, 1, 2, 3, 4, 5, 6] {
            reordered = true;
        }
    }
    assert!(reordered);
}

#[test]
fn init_matrix_draws_different_counts() {
    let mut counts = std::collections::HashSet::new();
    for _ in 0..60 {
        let m = init_matrix(7, 7).unwrap();
        let broken = m.data.iter().flatten().filter(|cell| cell.1 == MARKED_BROKEN).count();
        counts.insert(broken);
    }
    assert!(counts.len() > 1);
    assert!(counts.iter().all(|c| (3..7).contains(c)));
}

#[test]
fn init_matrix_broken_houses_share_no_row_or_column() {
    for _ in 0..20 {
        let m = init_matrix(7, 7).unwrap();
        let mut houses = Vec::new();
        for (r, row) in m.data.iter().enumerate() {
            for (c, cell) in row.iter().enumerate() {
                if cell.1 == MARKED_BROKEN {
                    houses.push((r, c));
                }
            }
        }
        for (i, p) in houses.iter().enumerate() {
            for q in &houses[i + 1..] {
                assert!(p.0 != q.0 && p.1 != q.1);
            }
        }
    }
}
