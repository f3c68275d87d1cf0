use std::collections::HashMap;
use std::sync::atomic::{AtomicBool, AtomicU8};
use std::sync::{Arc, Barrier, Mutex};
use vstd::prelude::*;

use crate::text::{
    chars_of, decimal, is_whitespace, lemma_decimal_digits, lemma_parse_decimal, list_text,
    push_list,
    lemma_words_of_word, lemma_words_skip_space, no_whitespace, parse_unsigned,
    parse_unsigned_chars, push_decimal, push_str, same_chars, split_words, words,
    all_whitespace, lemma_words_whitespace_runs,
};

verus! {

/// A move a repairer can decide on in one round.
#[derive(PartialEq, Eq, Structural, Clone, Copy, Debug)]
pub enum Move {
    Up,
    Down,
    Right,
    Left,
    Fix,
    /// The exploration is over: there is nothing left to do.
    End,
    /// No decision has been made for this round yet.
    Empty,
}

/// The moves that change the location of a repairer.
pub open spec fn is_step(m: Move) -> bool {
    m is Up || m is Down || m is Right || m is Left
}

/// The horizontal moves.
pub open spec fn spec_is_horizontal(m: Move) -> bool {
    m is Left || m is Right
}

/// The step in the other direction; every other move is its own opposite.
pub open spec fn opposite(m: Move) -> Move {
    match m {
        Move::Right => Move::Left,
        Move::Left => Move::Right,
        Move::Up => Move::Down,
        Move::Down => Move::Up,
        other => other,
    }
}

/// Whether applying the step `m` on `index` stays within the range of `u8`.
pub open spec fn step_fits(m: Move, index: (u8, u8)) -> bool {
    match m {
        Move::Right => index.1 < 255,
        Move::Left => index.1 > 0,
        Move::Up => index.0 > 0,
        Move::Down => index.0 < 255,
        _ => false,
    }
}

/// The location reached from `index` by the step `m`.
pub open spec fn spec_apply(m: Move, index: (u8, u8)) -> (int, int) {
    match m {
        Move::Right => (index.0 as int, index.1 + 1),
        Move::Left => (index.0 as int, index.1 - 1),
        Move::Up => (index.0 - 1, index.1 as int),
        Move::Down => (index.0 + 1, index.1 as int),
        _ => (index.0 as int, index.1 as int),
    }
}

/// The move leads out of the matrix from one of its corners.
pub open spec fn heads_out_of_corner(loc: (u8, u8), size: u8, n: Move) -> bool {
    let last = size - 1;
    ||| loc.0 == 0 && loc.1 == 0 && (n == Move::Left || n == Move::Up)
    ||| loc.0 == 0 && loc.1 == last && (n == Move::Right || n == Move::Up)
    ||| loc.0 == last && loc.1 == last && (n == Move::Right || n == Move::Down)
    ||| loc.0 == last && loc.1 == 0 && (n == Move::Left || n == Move::Down)
}

/// The move leads out of the matrix over one of its edges (a horizontal move
/// over the left or right edge, any other over the top or bottom edge).
pub open spec fn heads_over_edge(loc: (u8, u8), size: u8, n: Move) -> bool {
    let last = size - 1;
    if spec_is_horizontal(n) {
        (loc.1 == 0 && n == Move::Left) || (loc.1 != 0 && loc.1 == last && n == Move::Right)
    } else {
        (loc.0 == 0 && n == Move::Up) || (loc.0 != 0 && loc.0 == last && n == Move::Down)
    }
}

impl Move {
    pub fn is_horizontal(&self) -> (res: bool)
        ensures
            res == spec_is_horizontal(*self),
    {
        match self {
            Move::Left | Move::Right => true,
            _ => false,
        }
    }

    /// Turns a step around; any other move stays as it is.
    pub fn rotate_dir(&mut self)
        ensures
            *final(self) == opposite(*old(self)),
    {
        match self {
            Move::Right => *self = Move::Left,
            Move::Left => *self = Move::Right,
            Move::Up => *self = Move::Down,
            Move::Down => *self = Move::Up,
            _ => {},
        }
    }

    /// The location reached from `index` by this step (rows grow downwards,
    /// columns to the right).
    pub fn apply_on_index(&self, index: (u8, u8)) -> (res: (u8, u8))
        requires
            is_step(*self),
            step_fits(*self, index),
        ensures
            (res.0 as int, res.1 as int) == spec_apply(*self, index),
    {
        match self {
            Move::Right => (index.0, index.1 + 1),
            Move::Left => (index.0, index.1 - 1),
            Move::Up => (index.0 - 1, index.1),
            _ => (index.0 + 1, index.1),
        }
    }
}

/// How a repairer walks the matrix: the first letter names the family
/// (breadth- or depth-first), the two others the directions of the first
/// and of the second kind of move.
#[derive(PartialEq, Eq, Structural, Clone, Copy, Debug)]
pub enum MovementAlgorithm {
    BRD,
    BLD,
    BRU,
    BLU,
    DDR,
    DDL,
    DUR,
    DUL,
}

/// The move an algorithm proposes, for the first or the second kind of move.
pub open spec fn spec_get_move(a: MovementAlgorithm, first: bool) -> Move {
    match a {
        MovementAlgorithm::BLD => if first { Move::Left } else { Move::Down },
        MovementAlgorithm::BLU => if first { Move::Left } else { Move::Up },
        MovementAlgorithm::BRD => if first { Move::Right } else { Move::Down },
        MovementAlgorithm::BRU => if first { Move::Right } else { Move::Up },
        MovementAlgorithm::DDL => if first { Move::Down } else { Move::Left },
        MovementAlgorithm::DDR => if first { Move::Down } else { Move::Right },
        MovementAlgorithm::DUL => if first { Move::Up } else { Move::Left },
        MovementAlgorithm::DUR => if first { Move::Up } else { Move::Right },
    }
}

/// The algorithm a repairer switches to when it hits a border: both of its
/// directions are turned around.
pub open spec fn spec_rotated(a: MovementAlgorithm) -> MovementAlgorithm {
    match a {
        MovementAlgorithm::BRD => MovementAlgorithm::BLU,
        MovementAlgorithm::BLD => MovementAlgorithm::BRU,
        MovementAlgorithm::BRU => MovementAlgorithm::BLD,
        MovementAlgorithm::BLU => MovementAlgorithm::BRD,
        MovementAlgorithm::DDL => MovementAlgorithm::DUR,
        MovementAlgorithm::DDR => MovementAlgorithm::DUL,
        MovementAlgorithm::DUL => MovementAlgorithm::DDR,
        MovementAlgorithm::DUR => MovementAlgorithm::DDL,
    }
}

impl MovementAlgorithm {
    pub fn get_move(&self, first: bool) -> (res: Move)
        ensures
            res == spec_get_move(*self, first),
    {
        match self {
            MovementAlgorithm::BLD => if first { Move::Left } else { Move::Down },
            MovementAlgorithm::BLU => if first { Move::Left } else { Move::Up },
            MovementAlgorithm::BRD => if first { Move::Right } else { Move::Down },
            MovementAlgorithm::BRU => if first { Move::Right } else { Move::Up },
            MovementAlgorithm::DDL => if first { Move::Down } else { Move::Left },
            MovementAlgorithm::DDR => if first { Move::Down } else { Move::Right },
            MovementAlgorithm::DUL => if first { Move::Up } else { Move::Left },
            MovementAlgorithm::DUR => if first { Move::Up } else { Move::Right },
        }
    }

    /// Switches to the algorithm with both directions turned around. Whether
    /// the move that hit the border was horizontal or vertical, the new
    /// algorithm is the same.
    pub fn rotate_algo(&mut self, current_mv: &Move)
        ensures
            *final(self) == spec_rotated(*old(self)),
    {
        if current_mv.is_horizontal() {
            match self {
                MovementAlgorithm::BRD => *self = MovementAlgorithm::BLU,
                MovementAlgorithm::BLD => *self = MovementAlgorithm::BRU,
                MovementAlgorithm::BRU => *self = MovementAlgorithm::BLD,
                MovementAlgorithm::BLU => *self = MovementAlgorithm::BRD,
                MovementAlgorithm::DDL => *self = MovementAlgorithm::DUR,
                MovementAlgorithm::DDR => *self = MovementAlgorithm::DUL,
                MovementAlgorithm::DUL => *self = MovementAlgorithm::DDR,
                MovementAlgorithm::DUR => *self = MovementAlgorithm::DDL,
            }
        } else {
            match self {
                MovementAlgorithm::DDL => *self = MovementAlgorithm::DUR,
                MovementAlgorithm::DDR => *self = MovementAlgorithm::DUL,
                MovementAlgorithm::DUL => *self = MovementAlgorithm::DDR,
                MovementAlgorithm::DUR => *self = MovementAlgorithm::DDL,
                MovementAlgorithm::BRD => *self = MovementAlgorithm::BLU,
                MovementAlgorithm::BLD => *self = MovementAlgorithm::BRU,
                MovementAlgorithm::BRU => *self = MovementAlgorithm::BLD,
                MovementAlgorithm::BLU => *self = MovementAlgorithm::BRD,
            }
        }
    }
}

/// Turning a move around twice gives the move back.
pub proof fn lemma_opposite_involution(m: Move)
    ensures
        opposite(opposite(m)) == m,
{
}

/// Turning a move around keeps it a step, and keeps its orientation.
pub proof fn lemma_opposite_keeps_orientation(m: Move)
    ensures
        is_step(opposite(m)) == is_step(m),
        spec_is_horizontal(opposite(m)) == spec_is_horizontal(m),
{
}

/// A step followed by the opposite step comes back to where it started.
pub proof fn lemma_step_and_back(m: Move, index: (u8, u8))
    requires
        is_step(m),
        step_fits(m, index),
    ensures
        ({
            let there = spec_apply(m, index);
            let there_u8 = (there.0 as u8, there.1 as u8);
            step_fits(opposite(m), there_u8) && spec_apply(opposite(m), there_u8) == (
                index.0 as int,
                index.1 as int,
            )
        }),
{
}

/// Rotating an algorithm twice gives the algorithm back.
pub proof fn lemma_rotate_algo_involution(a: MovementAlgorithm)
    ensures
        spec_rotated(spec_rotated(a)) == a,
{
}

/// A rotated algorithm proposes, for either kind of move, the opposite of
/// what the algorithm proposed before.
pub proof fn lemma_rotated_moves_are_opposite(a: MovementAlgorithm, first: bool)
    ensures
        spec_get_move(spec_rotated(a), first) == opposite(spec_get_move(a, first)),
{
}

/// Every algorithm proposes one horizontal and one vertical step.
pub proof fn lemma_algorithm_moves(a: MovementAlgorithm)
    ensures
        is_step(spec_get_move(a, true)),
        is_step(spec_get_move(a, false)),
        spec_is_horizontal(spec_get_move(a, true)) != spec_is_horizontal(spec_get_move(a, false)),
{
}

/// The word between the two numbers of a note.
pub open spec fn repaired_word() -> Seq<char> {
    seq!['r', 'e', 'p', 'a', 'i', 'r', 'e', 'd']
}

/// The word at the end of a note.
pub open spec fn times_word() -> Seq<char> {
    seq!['t', 'i', 'm', 'e', 's']
}

/// The text of a note: `"{id} repaired {num_repairs} times"`.
pub open spec fn note_text(id: nat, num_repairs: nat) -> Seq<char> {
    decimal(id) + seq![' '] + repaired_word() + seq![' '] + decimal(num_repairs) + seq![' ']
        + times_word()
}

/// What reading a note gives: the text must have exactly four words, the
/// second `repaired` and the fourth `times`, and the first and the third must
/// parse as `u32` numbers (the repairer's id and its number of repairs).
pub open spec fn spec_parse_note(s: Seq<char>) -> Option<(nat, nat)> {
    let w = words(s);
    if w.len() == 4 && w[1] == repaired_word() && w[3] == times_word() {
        match (parse_unsigned(w[0], u32::MAX as nat), parse_unsigned(w[2], u32::MAX as nat)) {
            (Some(a), Some(b)) => Some((a, b)),
            _ => None,
        }
    } else {
        None
    }
}

/// The message a repairer leaves in a house: who it is and how many houses it
/// has repaired so far.
#[derive(PartialEq, Eq, Structural, Clone, Copy, Debug)]
pub struct Note {
    pub id: u32,
    pub num_repairs: u32,
}

impl Note {
    /// Reads a note, or gives `None` where the text is no note.
    pub fn try_parse(raw_string: &String) -> (r: Option<Note>)
        ensures
            match spec_parse_note(raw_string@) {
                Some((a, b)) => r == Some(Note { id: a as u32, num_repairs: b as u32 }),
                None => r is None,
            },
    {
        let chars = chars_of(raw_string.as_str());
        let parts = split_words(&chars);
        if parts.len() != 4 {
            return None;
        }
        let repaired: Vec<char> = vec!['r', 'e', 'p', 'a', 'i', 'r', 'e', 'd'];
        let times: Vec<char> = vec!['t', 'i', 'm', 'e', 's'];
        assert(repaired@ == repaired_word());
        assert(times@ == times_word());
        if !same_chars(&parts[1], &repaired) || !same_chars(&parts[3], &times) {
            return None;
        }
        let id = parse_unsigned_chars(&parts[0], u32::MAX);
        let num_repairs = parse_unsigned_chars(&parts[2], u32::MAX);
        match (id, num_repairs) {
            (Some(id), Some(num_repairs)) => Some(Note { id, num_repairs }),
            _ => None,
        }
    }

    /// Reads a note.
    pub fn parse(raw_string: &String) -> (r: Self)
        requires
            spec_parse_note(raw_string@) is Some,
        ensures
            r.id == spec_parse_note(raw_string@)->Some_0.0,
            r.num_repairs == spec_parse_note(raw_string@)->Some_0.1,
    {
        match Note::try_parse(raw_string) {
            Some(note) => note,
            None => Note { id: 0, num_repairs: 0 },
        }
    }

    pub fn to_string(&self) -> (s: String)
        ensures
            s@ == note_text(self.id as nat, self.num_repairs as nat),
    {
        let mut s = String::new();
        push_decimal(&mut s, self.id);
        proof {
            reveal_strlit(" repaired ");
            reveal_strlit(" times");
        }
        push_str(&mut s, " repaired ");
        push_decimal(&mut s, self.num_repairs);
        push_str(&mut s, " times");
        assert(s@ =~= note_text(self.id as nat, self.num_repairs as nat));
        s
    }
}

/// How a note is spaced does not matter: replacing a run of whitespace by
/// another nonempty one, or adding or dropping whitespace at either end,
/// reads the same note, or no note in both cases.
pub proof fn lemma_note_spacing(
    a: Seq<char>,
    w1: Seq<char>,
    w2: Seq<char>,
    b: Seq<char>,
    lead: Seq<char>,
    trail: Seq<char>,
)
    requires
        w1.len() > 0,
        w2.len() > 0,
        all_whitespace(w1),
        all_whitespace(w2),
        all_whitespace(lead),
        all_whitespace(trail),
    ensures
        spec_parse_note(a + w1 + b) == spec_parse_note(a + w2 + b),
        spec_parse_note(lead + a + trail) == spec_parse_note(a),
{
    lemma_words_whitespace_runs(a, w1, w2, b, lead, trail);
}

proof fn lemma_digits_no_whitespace(n: nat)
    ensures
        no_whitespace(decimal(n)),
        decimal(n).len() > 0,
{
    lemma_decimal_digits(n);
    assert forall|i: int| 0 <= i < decimal(n).len() implies !is_whitespace(
        #[trigger] decimal(n)[i],
    ) by {
        assert(crate::text::is_digit(decimal(n)[i]));
    }
}

/// A note written by `to_string` reads back as the same note.
pub proof fn lemma_note_roundtrip(id: u32, num_repairs: u32)
    ensures
        spec_parse_note(note_text(id as nat, num_repairs as nat)) == Some(
            (id as nat, num_repairs as nat),
        ),
{
    let d1 = decimal(id as nat);
    let d2 = decimal(num_repairs as nat);
    let sp = seq![' '];
    let r = repaired_word();
    let t = times_word();
    lemma_digits_no_whitespace(id as nat);
    lemma_digits_no_whitespace(num_repairs as nat);
    assert(is_whitespace(' '));
    assert(no_whitespace(r));
    assert(no_whitespace(t));
    let rest4 = t;
    let rest3 = sp + rest4;
    let rest2 = d2 + rest3;
    let rest1b = sp + rest2;
    let rest1 = r + rest1b;
    let rest0b = sp + rest1;
    let text = d1 + rest0b;
    assert(text =~= note_text(id as nat, num_repairs as nat));
    assert(t + Seq::<char>::empty() == t);
    lemma_words_of_word(t, Seq::<char>::empty());
    assert(words(Seq::<char>::empty()) == Seq::<Seq<char>>::empty());
    lemma_words_skip_space(' ', rest4);
    lemma_words_of_word(d2, rest3);
    lemma_words_skip_space(' ', rest2);
    lemma_words_of_word(r, rest1b);
    lemma_words_skip_space(' ', rest1);
    lemma_words_of_word(d1, rest0b);
    let w = words(text);
    assert(w =~= seq![d1, r, d2, t]);
    lemma_parse_decimal(id as nat, u32::MAX as nat);
    lemma_parse_decimal(num_repairs as nat, u32::MAX as nat);
}

/// `std::sync::Mutex`, which the jobs below carry through unchanged.
#[verifier::external_type_specification]
#[verifier::external_body]
#[verifier::reject_recursive_types(T)]
pub struct ExMutex<T: ?Sized>(Mutex<T>);

/// `std::sync::Barrier`, which the jobs below carry through unchanged.
#[verifier::external_type_specification]
#[verifier::external_body]
pub struct ExBarrier(Barrier);

/// The work a repairer thread is handed: the shared matrix (notes behind
/// locks, statuses as atomics) with the barriers that end the phase.
#[derive(Debug)]
pub enum JobType {
    DecisionMaking(Arc<Vec<Vec<(Vec<Arc<Mutex<String>>>, AtomicU8)>>>, Arc<Barrier>),
    Execute(
        Arc<Vec<Vec<(Vec<Arc<Mutex<String>>>, AtomicU8)>>>,
        Arc<Vec<AtomicBool>>,
        Arc<Barrier>,
        Arc<Barrier>,
    ),
}

/// What a repairer reports when the exploration is over.
pub struct RepairerResult {
    pub id: u32,
    pub repairs: u32,
    pub moves: u32,
    pub goal: u32,
    pub all_players_repairs: Vec<u32>,
}

/// `"id: {id}, repairs: {repairs}, moves: {moves}, all_player_repairs: {list:?}, goal: {goal}"`.
pub open spec fn result_text(r: RepairerResult) -> Seq<char> {
    "id: "@ + decimal(r.id as nat) + ", repairs: "@ + decimal(r.repairs as nat) + ", moves: "@
        + decimal(r.moves as nat) + ", all_player_repairs: "@ + list_text(r.all_players_repairs@)
        + ", goal: "@ + decimal(r.goal as nat)
}

impl RepairerResult {
    pub fn to_string(&self) -> (s: String)
        ensures
            s@ == result_text(*self),
    {
        let mut s = String::new();
        proof {
            reveal_strlit("id: ");
            reveal_strlit(", repairs: ");
            reveal_strlit(", moves: ");
            reveal_strlit(", all_player_repairs: ");
            reveal_strlit(", goal: ");
        }
        push_str(&mut s, "id: ");
        push_decimal(&mut s, self.id);
        push_str(&mut s, ", repairs: ");
        push_decimal(&mut s, self.repairs);
        push_str(&mut s, ", moves: ");
        push_decimal(&mut s, self.moves);
        push_str(&mut s, ", all_player_repairs: ");
        push_list(&mut s, &self.all_players_repairs);
        push_str(&mut s, ", goal: ");
        push_decimal(&mut s, self.goal);
        assert(s@ =~= result_text(*self));
        s
    }
}

/// The shared matrix of houses. Each house holds the notes the repairers left
/// there (one per repairer) and its status byte.
#[derive(Debug)]
pub struct Matrix {
    pub data: Vec<Vec<(Vec<String>, u8)>>,
}

/// What one repairer knows and has decided.
#[derive(Debug)]
pub struct Repairer {
    pub id: u32,
    pub total_broken: u32,
    pub total_fixed: u32,
    /// The number of repairs each repairer (by id) is known to have made.
    pub other_repairers_repairs: HashMap<u32, u32>,
    pub total_moves: u32,
    pub current_algorithm: MovementAlgorithm,
    /// (row, column) of the house the repairer stands on.
    pub current_location: (u8, u8),
    pub matrix_size: u8,
    pub decision: Move,
    pub move_turn: bool,
    pub last_move_rotated: bool,
    pub last_move: Move,
    pub result: String,
}

} // verus!
