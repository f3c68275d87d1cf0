use repairers::counter::{
    all_repairers_counted, bump_counter, check_dead_repairers, decimal_to_bytes,
    decision_barrier_reset, execute_barrier_reset, read_counter, CounterError,
};
use repairers::layout::{get_note_index, get_status_index};

#[test]
fn read_counter_parses_decimal_text() {
    assert_eq!(read_counter(b"0"), Some(0));
    assert_eq!(read_counter(b"4"), Some(4));
    assert_eq!(read_counter(b"+7"), Some(7));
    assert_eq!(read_counter(b"007"), Some(7));
    assert_eq!(read_counter(b"255"), Some(255));
    assert_eq!(read_counter(b"256"), None);
    assert_eq!(read_counter(b""), None);
    assert_eq!(read_counter(b"+"), None);
    assert_eq!(read_counter(b"-1"), None);
    assert_eq!(read_counter(b"1 "), None);
    assert_eq!(read_counter(b"x"), None);
    assert_eq!(read_counter(&[0xff, 0x31]), None);
}

#[test]
fn read_counter_agrees_with_str_parse() {
    for text in ["0", "12", "+3", "300", "", "+", "-0", "1a", "0099"] {
        let expected = String::from_utf8_lossy(text.as_bytes()).parse::<u8>().ok();
        assert_eq!(read_counter(text.as_bytes()), expected, "{}", text);
    }
}

#[test]
fn decimal_bytes_are_the_formatted_number() {
    for n in [0u32, 7, 10, 255, 1000, u32::MAX] {
        assert_eq!(decimal_to_bytes(n), format!("{}", n).into_bytes());
    }
}

#[test]
fn bump_counter_raises_by_one() {
    assert_eq!(bump_counter(b"0"), Ok(b"1".to_vec()));
    assert_eq!(bump_counter(b"3"), Ok(b"4".to_vec()));
    assert_eq!(bump_counter(b"09"), Ok(b"10".to_vec()));
    assert_eq!(bump_counter(b"99"), Err(CounterError::LengthMismatch));
    assert_eq!(bump_counter(b"9"), Err(CounterError::LengthMismatch));
    assert_eq!(bump_counter(b"255"), Err(CounterError::Overflow));
    assert_eq!(bump_counter(b"x"), Err(CounterError::NotANumber));
    assert_eq!(bump_counter(b""), Err(CounterError::NotANumber));
}

#[test]
fn bumped_counter_reads_one_more() {
    for text in ["0", "1", "5", "8", "10", "+4", "123", "254"] {
        let before = read_counter(text.as_bytes()).unwrap();
        if let Ok(after) = bump_counter(text.as_bytes()) {
            assert_eq!(read_counter(&after), Some(before + 1));
            assert_eq!(after.len(), text.len());
        }
    }
}

#[test]
fn all_counted_at_four() {
    assert_eq!(check_dead_repairers(b"4"), Ok(true));
    assert_eq!(check_dead_repairers(b"3"), Ok(false));
    assert_eq!(check_dead_repairers(b"?"), Err(CounterError::NotANumber));
    assert_eq!(all_repairers_counted(b"+4"), Ok(true));
    assert_eq!(all_repairers_counted(b"0"), Ok(false));
}

#[test]
fn barrier_resets() {
    assert_eq!(decision_barrier_reset(b"3"), Some(b"0".to_vec()));
    assert_eq!(decision_barrier_reset(b"0"), Some(b"0".to_vec()));
    assert_eq!(decision_barrier_reset(&[0]), None);
    assert_eq!(execute_barrier_reset(b"0"), Ok(None));
    assert_eq!(execute_barrier_reset(b"4"), Ok(Some(b"0".to_vec())));
    assert_eq!(execute_barrier_reset(b"12"), Err(CounterError::LengthMismatch));
    assert_eq!(execute_barrier_reset(b"z"), Err(CounterError::NotANumber));
}

#[test]
fn note_and_status_offsets() {
    assert_eq!(get_note_index((0, 0), 0, 18, 7), (32, 50));
    assert_eq!(get_status_index((0, 0), 18, 7), 128);
    assert_eq!(get_note_index((1, 2), 3, 18, 7), (1135, 1153));
    assert_eq!(get_status_index((1, 2), 18, 7), 1153);
    assert_eq!(get_note_index((255, 255), 255, 255, 255).1, get_note_index((255, 255), 255, 255, 255).0 + 255);
}

#[test]
fn notes_lie_apart_and_before_the_status() {
    for cell in [(0u8, 0u8), (3, 4), (6, 6)] {
        let status = get_status_index(cell, 18, 7);
        let mut prev_end = 0;
        for r in 0..4u8 {
            let (start, end) = get_note_index(cell, r, 18, 7);
            assert!(prev_end <= start);
            assert!(end <= status);
            prev_end = end;
        }
    }
}

#[test]
fn offsets_match_the_encoded_matrix() {
    let size = 3usize;
    let mut data: Vec<Vec<(Vec<String>, u8)>> = Vec::new();
    for r in 0..size {
        let mut row = Vec::new();
        for c in 0..size {
            let notes: Vec<String> = (0..4)
                .map(|k| format!("{} repaired {} times", k, (r * size + c) % 10))
                .collect();
            row.push((notes, (r * size + c) as u8));
        }
        data.push(row);
    }
    let bytes = bincode::serialize(&data).unwrap();
    for r in 0..size {
        for c in 0..size {
            let cell = (r as u8, c as u8);
            assert_eq!(bytes[get_status_index(cell, 18, size as u8)], (r * size + c) as u8);
            for k in 0..4u8 {
                let (start, end) = get_note_index(cell, k, 18, size as u8);
                assert_eq!(&bytes[start..end], data[r][c].0[k as usize].as_bytes());
            }
        }
    }
}
