//! The rounds of a repairer: deciding on a move, then carrying it out.
use std::collections::HashMap;
use vstd::prelude::*;

use crate::counter::decimal_to_bytes;
use crate::layout::{get_note_index, get_status_index, spec_note_start, spec_status_index};
use crate::models::{
    heads_out_of_corner, heads_over_edge, is_step, note_text, opposite, spec_apply,
    spec_get_move, spec_parse_note, spec_rotated, step_fits, Matrix, Move, MovementAlgorithm,
    Note, Repairer,
};
use crate::tally::{checked_total, lists_entries, map_total, push_map};
use crate::text::{chars_as_bytes, decimal, entries_text, push_decimal, push_str};

verus! {

/// The status byte of a house that is waiting for a repair.
pub const BROKEN: u8 = 11;

/// Why a decision could not be made.
#[derive(PartialEq, Eq, Structural, Clone, Copy, Debug)]
pub enum DecisionError {
    /// The repairer stands outside the matrix it was given.
    OutsideMatrix,
    /// A text in the house is no note.
    BadNote,
    /// A note refers to a repairer whose count the repairer does not keep.
    UnknownRepairer,
    /// The known repairs add up to more than a `u32` holds.
    CountOverflow,
    /// The matrix size is zero.
    EmptyMatrix,
}

/// The notes and the status of the house at `loc`, if there is one.
pub open spec fn cell_at(m: &Matrix, loc: (u8, u8)) -> Option<(Seq<Seq<char>>, u8)> {
    if (loc.0 as int) < m.data@.len() && (loc.1 as int) < m.data@[loc.0 as int]@.len() {
        let cell = m.data@[loc.0 as int]@[loc.1 as int];
        Some((cell.0@.map_values(|s: String| s@), cell.1))
    } else {
        None
    }
}

/// Takes in the note found at position `idx` of a house (the note of the
/// repairer with id `idx + 1`). A higher count than the one known for that
/// repairer, unless it is the repairer itself, is stored under the key
/// `idx`, which must already be known.
pub open spec fn absorb_note(
    known: Result<Map<u32, u32>, DecisionError>,
    id: u32,
    idx: int,
    note: Seq<char>,
) -> Result<Map<u32, u32>, DecisionError> {
    match known {
        Err(e) => Err(e),
        Ok(m) => match spec_parse_note(note) {
            None => Err(DecisionError::BadNote),
            Some((_, num)) => {
                let key = (idx + 1) as u32;
                if !m.contains_key(key) {
                    Err(DecisionError::UnknownRepairer)
                } else if m[key] < num && key != id {
                    if m.contains_key(idx as u32) {
                        Ok(m.insert(idx as u32, num as u32))
                    } else {
                        Err(DecisionError::UnknownRepairer)
                    }
                } else {
                    Ok(m)
                }
            },
        },
    }
}

/// Takes in all the notes of a house, in order.
pub open spec fn absorb_notes(m: Map<u32, u32>, id: u32, notes: Seq<Seq<char>>) -> Result<
    Map<u32, u32>,
    DecisionError,
>
    decreases notes.len(),
{
    if notes.len() == 0 {
        Ok(m)
    } else {
        absorb_note(absorb_notes(m, id, notes.drop_last()), id, notes.len() - 1, notes.last())
    }
}

/// The move the repairer's algorithm proposes, or the move it turned around
/// to in the previous round.
pub open spec fn proposed_move(s: Repairer, first: bool) -> Move {
    if s.last_move_rotated {
        s.last_move
    } else {
        spec_get_move(s.current_algorithm, first)
    }
}

/// What a decision changes: the algorithm, whether the move was turned
/// around at a corner, the last move, the decision and the known counts.
pub type Decided = (MovementAlgorithm, bool, Move, Move, Map<u32, u32>);

/// The decision a repairer makes in the state `s`, standing on a house with
/// the given notes and status, when the random choice is `first`.
pub open spec fn spec_make_decision(
    s: Repairer,
    cell: Option<(Seq<Seq<char>>, u8)>,
    first: bool,
) -> Result<Decided, DecisionError> {
    let n = proposed_move(s, first);
    match cell {
        None => Err(DecisionError::OutsideMatrix),
        Some((notes, status)) => if status == BROKEN {
            Ok((s.current_algorithm, false, s.last_move, Move::Fix, s.other_repairers_repairs@))
        } else {
            match absorb_notes(s.other_repairers_repairs@, s.id, notes) {
                Err(e) => Err(e),
                Ok(known) => if map_total(known) > u32::MAX {
                    Err(DecisionError::CountOverflow)
                } else if map_total(known) == s.total_broken {
                    Ok((s.current_algorithm, false, s.last_move, Move::End, known))
                } else if s.matrix_size == 0 {
                    Err(DecisionError::EmptyMatrix)
                } else if heads_out_of_corner(s.current_location, s.matrix_size, n) {
                    Ok(
                        (
                            spec_rotated(s.current_algorithm),
                            true,
                            opposite(n),
                            opposite(n),
                            known,
                        ),
                    )
                } else if heads_over_edge(s.current_location, s.matrix_size, n) {
                    Ok(
                        (
                            spec_rotated(s.current_algorithm),
                            false,
                            s.last_move,
                            opposite(n),
                            known,
                        ),
                    )
                } else {
                    Ok(
                        (
                            s.current_algorithm,
                            false,
                            s.last_move,
                            if s.decision == Move::Empty {
                                n
                            } else {
                                s.decision
                            },
                            known,
                        ),
                    )
                }
            }
        },
    }
}

/// The fields a decision leaves alone.
pub open spec fn same_position_and_counts(a: Repairer, b: Repairer) -> bool {
    &&& b.id == a.id
    &&& b.total_broken == a.total_broken
    &&& b.total_fixed == a.total_fixed
    &&& b.total_moves == a.total_moves
    &&& b.current_location == a.current_location
    &&& b.matrix_size == a.matrix_size
    &&& b.move_turn == a.move_turn
    &&& b.result@ == a.result@
}

/// `after` is `before` with the decision `d` made.
pub open spec fn decided(before: Repairer, after: Repairer, d: Decided) -> bool {
    &&& same_position_and_counts(before, after)
    &&& after.current_algorithm == d.0
    &&& after.last_move_rotated == d.1
    &&& after.last_move == d.2
    &&& after.decision == d.3
    &&& after.other_repairers_repairs@ == d.4
}

proof fn lemma_absorb_error_stays(m: Map<u32, u32>, id: u32, notes: Seq<Seq<char>>, i: int, j: int)
    requires
        0 <= i <= j <= notes.len(),
        absorb_notes(m, id, notes.take(i)) is Err,
    ensures
        absorb_notes(m, id, notes.take(j)) == absorb_notes(m, id, notes.take(i)),
    decreases j - i,
{
    if i < j {
        assert(notes.take(i + 1).drop_last() == notes.take(i));
        lemma_absorb_error_stays(m, id, notes, i + 1, j);
    }
}

/// The counts a repairer starts with: none for each of the repairers 1 to 4.
pub open spec fn initial_counts() -> Map<u32, u32> {
    map![1u32 => 0u32, 2u32 => 0u32, 3u32 => 0u32, 4u32 => 0u32]
}

impl Repairer {
    /// A repairer at the start of the game: it knows of no repairs, has made
    /// no move and no decision, and takes its first move in this round.
    pub fn new(
        id: u32,
        total_broken: u32,
        current_location: (u8, u8),
        current_algorithm: MovementAlgorithm,
        matrix_size: u8,
    ) -> (r: Repairer)
        ensures
            r.id == id,
            r.total_broken == total_broken,
            r.total_fixed == 0,
            r.other_repairers_repairs@ == initial_counts(),
            r.total_moves == 0,
            r.current_algorithm == current_algorithm,
            r.current_location == current_location,
            r.matrix_size == matrix_size,
            r.decision == Move::Empty,
            r.move_turn,
            !r.last_move_rotated,
            r.last_move == Move::Empty,
            r.result@ == Seq::<char>::empty(),
    {
        let mut repairs_track: HashMap<u32, u32> = HashMap::new();
        let mut i: u32 = 1;
        while i < 5
            invariant
                1 <= i <= 5,
                repairs_track@ == Map::new(|k: u32| 1 <= k < i, |k: u32| 0u32),
            decreases 5 - i,
        {
            repairs_track.insert(i, 0);
            i = i + 1;
            assert(repairs_track@ =~= Map::new(|k: u32| 1 <= k < i, |k: u32| 0u32));
        }
        assert(repairs_track@ =~= initial_counts());
        Repairer {
            id,
            total_broken,
            total_fixed: 0,
            other_repairers_repairs: repairs_track,
            total_moves: 0,
            current_algorithm,
            current_location,
            matrix_size,
            decision: Move::Empty,
            move_turn: true,
            last_move_rotated: false,
            last_move: Move::Empty,
            result: String::new(),
        }
    }

    /// The sum of the repairs this repairer knows of.
    pub fn get_total_fixes_from_notes(&self) -> (r: u32)
        requires
            map_total(self.other_repairers_repairs@) <= u32::MAX,
        ensures
            r == map_total(self.other_repairers_repairs@),
    {
        match checked_total(&self.other_repairers_repairs) {
            Some(t) => t,
            None => 0,
        }
    }
}

/// Takes in the notes of the house the repairer stands on.
fn read_notes(state: &mut Repairer, notes: &Vec<String>) -> (r: Result<(), DecisionError>)
    ensures
        final(state).id == old(state).id,
        same_position_and_counts(*old(state), *final(state)),
        final(state).current_algorithm == old(state).current_algorithm,
        final(state).last_move_rotated == old(state).last_move_rotated,
        final(state).last_move == old(state).last_move,
        final(state).decision == old(state).decision,
        match absorb_notes(
            old(state).other_repairers_repairs@,
            old(state).id,
            notes@.map_values(|s: String| s@),
        ) {
            Err(e) => r == Err::<(), DecisionError>(e),
            Ok(known) => r is Ok && final(state).other_repairers_repairs@ == known,
        },
{
    let ghost m0 = state.other_repairers_repairs@;
    let ghost views = notes@.map_values(|s: String| s@);
    let n = notes.len();
    let mut i: usize = 0;
    assert(views.take(0).len() == 0);
    while i < n
        invariant
            i <= n,
            n == notes@.len(),
            views == notes@.map_values(|s: String| s@),
            same_position_and_counts(*old(state), *state),
            state.current_algorithm == old(state).current_algorithm,
            state.last_move_rotated == old(state).last_move_rotated,
            state.last_move == old(state).last_move,
            state.decision == old(state).decision,
            m0 == old(state).other_repairers_repairs@,
            absorb_notes(m0, state.id, views.take(i as int)) == Ok::<
                Map<u32, u32>,
                DecisionError,
            >(state.other_repairers_repairs@),
        decreases n - i,
    {
        let ghost before = state.other_repairers_repairs@;
        assert(views.take(i + 1).drop_last() == views.take(i as int));
        assert(views.take(i + 1).last() == notes@[i as int]@);
        let note = match Note::try_parse(&notes[i]) {
            Some(note) => note,
            None => {
                proof {
                    lemma_absorb_error_stays(m0, state.id, views, i + 1, n as int);
                    assert(views.take(n as int) == views);
                }
                return Err(DecisionError::BadNote);
            },
        };
        let key: u32 = (i + 1) as u32;
        let known = match state.other_repairers_repairs.get(&key) {
            Some(v) => *v,
            None => {
                proof {
                    lemma_absorb_error_stays(m0, state.id, views, i + 1, n as int);
                    assert(views.take(n as int) == views);
                }
                return Err(DecisionError::UnknownRepairer);
            },
        };
        if known < note.num_repairs && key != state.id {
            let previous = state.other_repairers_repairs.insert(i as u32, note.num_repairs);
            if previous.is_none() {
                proof {
                    lemma_absorb_error_stays(m0, state.id, views, i + 1, n as int);
                    assert(views.take(n as int) == views);
                }
                return Err(DecisionError::UnknownRepairer);
            }
        }
        i = i + 1;
    }
    assert(views.take(n as int) == views);
    Ok(())
}

/// Decides the repairer's next move from the house it stands on.
///
/// A broken house is fixed first. Otherwise the notes of the other repairers
/// are taken in, and when the known repairs add up to the number of broken
/// houses the exploration ends. Otherwise the repairer takes the move its
/// algorithm proposes (`first` picks one of the two kinds of move), turning
/// the move and the algorithm around where the move would leave the matrix.
pub fn make_decision(state: &mut Repairer, matrix: &Matrix, first: bool) -> (r: Result<
    bool,
    DecisionError,
>)
    ensures
        match spec_make_decision(*old(state), cell_at(matrix, old(state).current_location), first) {
            Err(e) => r == Err::<bool, DecisionError>(e),
            Ok(d) => r == Ok::<bool, DecisionError>(true) && decided(*old(state), *final(state), d),
        },
{
    let mut n_move = state.current_algorithm.get_move(first);
    if state.last_move_rotated {
        n_move = state.last_move;
        state.last_move_rotated = false;
    }
    let row = state.current_location.0 as usize;
    let col = state.current_location.1 as usize;
    if row >= matrix.data.len() || col >= matrix.data[row].len() {
        return Err(DecisionError::OutsideMatrix);
    }
    let cell = &matrix.data[row][col];
    if cell.1 == BROKEN {
        state.decision = Move::Fix;
        return Ok(true);
    }
    read_notes(state, &cell.0)?;
    let total = match checked_total(&state.other_repairers_repairs) {
        Some(t) => t,
        None => {
            return Err(DecisionError::CountOverflow);
        },
    };
    if total == state.total_broken {
        state.decision = Move::End;
        return Ok(true);
    }
    if state.matrix_size == 0 {
        return Err(DecisionError::EmptyMatrix);
    }
    let last = state.matrix_size - 1;
    let (r, c) = state.current_location;
    let out_of_corner = (r == 0 && c == 0 && (n_move == Move::Left || n_move == Move::Up)) || (r
        == 0 && c == last && (n_move == Move::Right || n_move == Move::Up)) || (r == last && c
        == last && (n_move == Move::Right || n_move == Move::Down)) || (r == last && c == 0 && (
    n_move == Move::Left || n_move == Move::Down));
    if out_of_corner {
        state.current_algorithm.rotate_algo(&n_move);
        state.last_move_rotated = true;
        n_move.rotate_dir();
        state.last_move = n_move;
        state.decision = n_move;
    } else if !state.last_move_rotated {
        if n_move.is_horizontal() {
            if c == 0 {
                if n_move == Move::Left {
                    state.current_algorithm.rotate_algo(&n_move);
                    n_move.rotate_dir();
                    state.decision = n_move;
                }
            } else if c == last {
                if n_move == Move::Right {
                    state.current_algorithm.rotate_algo(&n_move);
                    n_move.rotate_dir();
                    state.decision = n_move;
                }
            }
        } else {
            if r == 0 {
                if n_move == Move::Up {
                    state.current_algorithm.rotate_algo(&n_move);
                    n_move.rotate_dir();
                    state.decision = n_move;
                }
            } else if r == last {
                if n_move == Move::Down {
                    state.current_algorithm.rotate_algo(&n_move);
                    n_move.rotate_dir();
                    state.decision = n_move;
                }
            }
        }
    }
    if state.decision == Move::Empty {
        state.decision = n_move;
    }
    Ok(true)
}

/// The location `loc` lies in a square matrix of `size` rows and columns.
pub open spec fn on_grid(loc: (int, int), size: u8) -> bool {
    0 <= loc.0 < size && 0 <= loc.1 < size
}

/// A repairer that stands in the matrix (of at least two rows and columns)
/// and has not decided yet never settles on a step that leaves the matrix:
/// a step towards a border it stands on is turned around.
pub proof fn lemma_decision_stays_on_grid(
    s: Repairer,
    cell: Option<(Seq<Seq<char>>, u8)>,
    first: bool,
)
    requires
        spec_make_decision(s, cell, first) is Ok,
        s.decision == Move::Empty,
        s.matrix_size >= 2,
        on_grid((s.current_location.0 as int, s.current_location.1 as int), s.matrix_size),
    ensures
        ({
            let d = spec_make_decision(s, cell, first)->Ok_0.3;
            is_step(d) ==> step_fits(d, s.current_location) && on_grid(
                spec_apply(d, s.current_location),
                s.matrix_size,
            )
        }),
{
}

// ---------------------------------------------------------------------------
// Carrying out a decision
// ---------------------------------------------------------------------------

/// The length of every note in the matrix file.
pub const NOTE_LEN: u8 = 18;

/// The status byte of a house once it has been repaired.
pub const REPAIRED: u8 = 255;

/// Why a decision could not be carried out.
#[derive(PartialEq, Eq, Structural, Clone, Copy, Debug)]
pub enum ExecError {
    /// The status byte of the house lies beyond the end of the matrix file.
    OutsideFile,
    /// A count of repairs or of moves would pass the largest `u32`.
    CountOverflow,
    /// The repairer's own count is not kept among the known counts.
    UnknownRepairer,
    /// The repairer's id gives no place in the shared files.
    BadRepairerId,
    /// The step leads out of the range of locations.
    OffGrid,
    /// The place of the statistics does not fit in a `usize`.
    RangeOverflow,
}

/// What the program must write to the shared files after a decision was
/// carried out. After a `Fix` or a `Step` the execution counter is raised;
/// after a `Finish` the counter of finished repairers is.
pub enum ExecAction {
    /// The exploration is over: the repairer's `result` is written over the
    /// bytes `stats_start..stats_end` of the statistics file.
    Finish { stats_start: usize, stats_end: usize },
    /// The house was taken care of: when `repaired`, its status byte at
    /// `status` becomes `REPAIRED`; the repairer's note is written over
    /// `note_start..note_end` of the matrix file.
    Fix { status: usize, repaired: bool, note_start: usize, note_end: usize, note: Vec<u8> },
    /// The repairer moved to `location`, which is written over
    /// `track_start..track_end` of the tracking file; its note is written
    /// over `note_start..note_end` of the matrix file.
    Step {
        track_start: usize,
        track_end: usize,
        location: (u8, u8),
        note_start: usize,
        note_end: usize,
        note: Vec<u8>,
    },
}

impl ExecAction {
    /// Whether the repairer goes on with another round.
    pub fn continues(&self) -> (r: bool)
        ensures
            r == !(self is Finish),
    {
        match self {
            ExecAction::Finish { .. } => false,
            _ => true,
        }
    }
}

/// The text of the statistics a repairer leaves when it is done, with
/// `known` the debug text of the counts it knows.
pub open spec fn stats_text(
    id: u32,
    fixed: u32,
    moves: u32,
    known: Seq<char>,
    goal: u32,
) -> Seq<char> {
    "repairer id: "@ + decimal(id as nat) + ", repairs: "@ + decimal(fixed as nat) + ", moves: "@
        + decimal(moves as nat) + ", all_players_repairs: "@ + known + ", goal: "@ + decimal(
        goal as nat,
    ) + " \n"@
}

/// The bytes of the note of `id` after `fixed` repairs.
pub open spec fn note_bytes(id: u32, fixed: u32) -> Seq<u8> {
    chars_as_bytes(note_text(id as nat, fixed as nat))
}

/// The fields that carrying out a decision leaves alone.
pub open spec fn same_plan(a: Repairer, b: Repairer) -> bool {
    &&& b.id == a.id
    &&& b.total_broken == a.total_broken
    &&& b.current_algorithm == a.current_algorithm
    &&& b.matrix_size == a.matrix_size
    &&& b.last_move_rotated == a.last_move_rotated
    &&& b.last_move == a.last_move
}

/// Carrying out the end of the exploration.
pub open spec fn finish_outcome(old: Repairer, new: Repairer, r: Result<ExecAction, ExecError>) -> bool {
    if old.total_moves == u32::MAX {
        r == Err::<ExecAction, ExecError>(ExecError::CountOverflow)
    } else if old.id == 0 {
        r == Err::<ExecAction, ExecError>(ExecError::BadRepairerId)
    } else {
        let len = vstd::utf8::encode_utf8(new.result@).len() as usize;
        if (old.id - 1) * len > usize::MAX {
            r == Err::<ExecAction, ExecError>(ExecError::RangeOverflow)
        } else {
            &&& r matches Ok(ExecAction::Finish { stats_start, stats_end })
            &&& r->Ok_0->stats_start == (old.id - 1) * len
            &&& r->Ok_0->stats_end == len
            &&& same_plan(old, new)
            &&& new.total_moves == old.total_moves + 1
            &&& new.total_fixed == old.total_fixed
            &&& new.current_location == old.current_location
            &&& new.decision == old.decision
            &&& new.move_turn == old.move_turn
            &&& new.other_repairers_repairs@ == old.other_repairers_repairs@
            &&& exists|v: Seq<(u32, u32)>|
                lists_entries(v, old.other_repairers_repairs@) && new.result@ == stats_text(
                    old.id,
                    old.total_fixed,
                    (old.total_moves + 1) as u32,
                    #[trigger] entries_text(v),
                    old.total_broken,
                )
        }
    }
}

/// The note a repairer leaves in the house it stands on, and the rest of
/// what every executed move or fix changes.
pub open spec fn leaves_note(
    old: Repairer,
    new: Repairer,
    note_start: usize,
    note_end: usize,
    note: Seq<u8>,
) -> bool {
    &&& note_start == spec_note_start(
        new.current_location,
        ((old.id as u8) - 1) as nat,
        NOTE_LEN as nat,
        old.matrix_size as nat,
    )
    &&& note_end == note_start + NOTE_LEN
    &&& note == note_bytes(old.id, new.total_fixed)
    &&& new.decision == Move::Empty
    &&& new.total_moves == old.total_moves + 1
    &&& new.move_turn == !old.move_turn
    &&& new.result@ == old.result@
    &&& same_plan(old, new)
}

/// Carrying out a fix, on the matrix file `bytes`.
pub open spec fn fix_outcome(
    old: Repairer,
    new: Repairer,
    bytes: Seq<u8>,
    r: Result<ExecAction, ExecError>,
) -> bool {
    let status = spec_status_index(old.current_location, NOTE_LEN as nat, old.matrix_size as nat);
    if status >= bytes.len() {
        r == Err::<ExecAction, ExecError>(ExecError::OutsideFile)
    } else {
        let repaired = bytes[status as int] != REPAIRED;
        if repaired && old.total_fixed == u32::MAX {
            r == Err::<ExecAction, ExecError>(ExecError::CountOverflow)
        } else if repaired && !old.other_repairers_repairs@.contains_key(old.id) {
            r == Err::<ExecAction, ExecError>(ExecError::UnknownRepairer)
        } else if old.total_moves == u32::MAX {
            r == Err::<ExecAction, ExecError>(ExecError::CountOverflow)
        } else if old.id as u8 == 0 {
            r == Err::<ExecAction, ExecError>(ExecError::BadRepairerId)
        } else {
            let fixed = if repaired {
                (old.total_fixed + 1) as u32
            } else {
                old.total_fixed
            };
            match r {
                Ok(ExecAction::Fix { status: st, repaired: rp, note_start, note_end, note }) => {
                    &&& st == status
                    &&& rp == repaired
                    &&& new.total_fixed == fixed
                    &&& new.current_location == old.current_location
                    &&& new.other_repairers_repairs@ == if repaired {
                        old.other_repairers_repairs@.insert(old.id, fixed)
                    } else {
                        old.other_repairers_repairs@
                    }
                    &&& leaves_note(old, new, note_start, note_end, note@)
                },
                _ => false,
            }
        }
    }
}

/// Carrying out a step.
pub open spec fn step_outcome(old: Repairer, new: Repairer, r: Result<ExecAction, ExecError>) -> bool {
    if !step_fits(old.decision, old.current_location) {
        r == Err::<ExecAction, ExecError>(ExecError::OffGrid)
    } else if old.id == 0 || old.id == u32::MAX {
        r == Err::<ExecAction, ExecError>(ExecError::BadRepairerId)
    } else if old.total_moves == u32::MAX {
        r == Err::<ExecAction, ExecError>(ExecError::CountOverflow)
    } else if old.id as u8 == 0 {
        r == Err::<ExecAction, ExecError>(ExecError::BadRepairerId)
    } else {
        match r {
            Ok(ExecAction::Step { track_start, track_end, location, note_start, note_end, note }) => {
                &&& (location.0 as int, location.1 as int) == spec_apply(
                    old.decision,
                    old.current_location,
                )
                &&& new.current_location == location
                &&& track_start == old.id - 1
                &&& track_end == old.id + 1
                &&& new.total_fixed == old.total_fixed
                &&& new.other_repairers_repairs@ == old.other_repairers_repairs@
                &&& leaves_note(old, new, note_start, note_end, note@)
            },
            _ => false,
        }
    }
}

/// The bytes of the note `"{id} repaired {fixed} times"`.
fn make_note_bytes(id: u32, fixed: u32) -> (v: Vec<u8>)
    ensures
        v@ == note_bytes(id, fixed),
{
    let mut v = decimal_to_bytes(id);
    let mut middle: Vec<u8> = vec![32u8, 114, 101, 112, 97, 105, 114, 101, 100, 32];
    assert(middle@ =~= chars_as_bytes(seq![' '] + crate::models::repaired_word() + seq![' ']));
    v.append(&mut middle);
    let mut count = decimal_to_bytes(fixed);
    v.append(&mut count);
    let mut tail: Vec<u8> = vec![32u8, 116, 105, 109, 101, 115];
    assert(tail@ =~= chars_as_bytes(seq![' '] + crate::models::times_word()));
    v.append(&mut tail);
    assert(v@ =~= note_bytes(id, fixed));
    v
}

/// Whether the step `m` from `index` stays in the range of locations.
fn step_stays_in_range(m: Move, index: (u8, u8)) -> (r: bool)
    ensures
        r == step_fits(m, index),
{
    match m {
        Move::Right => index.1 < 255,
        Move::Left => index.1 > 0,
        Move::Up => index.0 > 0,
        Move::Down => index.0 < 255,
        _ => false,
    }
}

/// Carries out the decision of the round. `matrix_bytes` is the content of
/// the matrix file, from which a fix reads the status of the house.
///
/// A fix repairs the house unless its status is already `REPAIRED`, and
/// counts the repair; a step moves the repairer; both count a move and leave
/// the repairer's note in the house it stands on afterwards, and clear the
/// decision. At the end of the exploration the repairer writes down its
/// statistics. A decision must have been made.
pub fn execute(state: &mut Repairer, matrix_bytes: &[u8]) -> (r: Result<ExecAction, ExecError>)
    requires
        old(state).decision != Move::Empty,
    ensures
        old(state).decision == Move::End ==> finish_outcome(*old(state), *final(state), r),
        old(state).decision == Move::Fix ==> fix_outcome(
            *old(state),
            *final(state),
            matrix_bytes@,
            r,
        ),
        is_step(old(state).decision) ==> step_outcome(*old(state), *final(state), r),
{
    match state.decision {
        Move::Empty => vstd::pervasive::unreached(),
        Move::End => {
            if state.total_moves == u32::MAX {
                return Err(ExecError::CountOverflow);
            }
            state.total_moves = state.total_moves + 1;
            let mut text = String::new();
            proof {
                reveal_strlit("repairer id: ");
                reveal_strlit(", repairs: ");
                reveal_strlit(", moves: ");
                reveal_strlit(", all_players_repairs: ");
                reveal_strlit(", goal: ");
                reveal_strlit(" \n");
            }
            push_str(&mut text, "repairer id: ");
            push_decimal(&mut text, state.id);
            push_str(&mut text, ", repairs: ");
            push_decimal(&mut text, state.total_fixed);
            push_str(&mut text, ", moves: ");
            push_decimal(&mut text, state.total_moves);
            push_str(&mut text, ", all_players_repairs: ");
            let ghost before_map = text@;
            push_map(&mut text, &state.other_repairers_repairs);
            let ghost after_map = text@;
            push_str(&mut text, ", goal: ");
            push_decimal(&mut text, state.total_broken);
            push_str(&mut text, " \n");
            proof {
                let v = choose|v: Seq<(u32, u32)>|
                    lists_entries(v, state.other_repairers_repairs@) && #[trigger] entries_text(v)
                        == after_map.subrange(before_map.len() as int, after_map.len() as int);
                assert(after_map =~= before_map + entries_text(v));
                assert(text@ =~= stats_text(
                    state.id,
                    state.total_fixed,
                    state.total_moves,
                    entries_text(v),
                    state.total_broken,
                ));
            }
            state.result = text;
            if state.id == 0 {
                return Err(ExecError::BadRepairerId);
            }
            let len = state.result.as_str().len();
            match ((state.id - 1) as usize).checked_mul(len) {
                Some(start) => Ok(ExecAction::Finish { stats_start: start, stats_end: len }),
                None => Err(ExecError::RangeOverflow),
            }
        },
        Move::Fix => {
            let status = get_status_index(state.current_location, NOTE_LEN, state.matrix_size);
            if status >= matrix_bytes.len() {
                return Err(ExecError::OutsideFile);
            }
            let repaired = matrix_bytes[status] != REPAIRED;
            if repaired {
                if state.total_fixed == u32::MAX {
                    return Err(ExecError::CountOverflow);
                }
                state.total_fixed = state.total_fixed + 1;
                let previous = state.other_repairers_repairs.insert(state.id, state.total_fixed);
                if previous.is_none() {
                    return Err(ExecError::UnknownRepairer);
                }
            }
            state.decision = Move::Empty;
            if state.total_moves == u32::MAX {
                return Err(ExecError::CountOverflow);
            }
            state.total_moves = state.total_moves + 1;
            let id8 = #[verifier::truncate] (state.id as u8);
            if id8 == 0 {
                return Err(ExecError::BadRepairerId);
            }
            let (note_start, note_end) = get_note_index(
                state.current_location,
                id8 - 1,
                NOTE_LEN,
                state.matrix_size,
            );
            let note = make_note_bytes(state.id, state.total_fixed);
            state.move_turn = !state.move_turn;
            Ok(ExecAction::Fix { status, repaired, note_start, note_end, note })
        },
        step => {
            if !step_stays_in_range(step, state.current_location) {
                return Err(ExecError::OffGrid);
            }
            state.current_location = step.apply_on_index(state.current_location);
            if state.id == 0 || state.id == u32::MAX {
                return Err(ExecError::BadRepairerId);
            }
            let track_start = (state.id - 1) as usize;
            let track_end = (state.id + 1) as usize;
            state.decision = Move::Empty;
            state.move_turn = !state.move_turn;
            if state.total_moves == u32::MAX {
                return Err(ExecError::CountOverflow);
            }
            state.total_moves = state.total_moves + 1;
            let id8 = #[verifier::truncate] (state.id as u8);
            if id8 == 0 {
                return Err(ExecError::BadRepairerId);
            }
            let (note_start, note_end) = get_note_index(
                state.current_location,
                id8 - 1,
                NOTE_LEN,
                state.matrix_size,
            );
            let note = make_note_bytes(state.id, state.total_fixed);
            Ok(
                ExecAction::Step {
                    track_start,
                    track_end,
                    location: state.current_location,
                    note_start,
                    note_end,
                    note,
                },
            )
        },
    }
}

/// The location reached by a step, written out for each direction.
pub open spec fn neighbour(m: Move, loc: (u8, u8)) -> (int, int) {
    if m == Move::Right {
        (loc.0 as int, loc.1 as int + 1)
    } else if m == Move::Left {
        (loc.0 as int, loc.1 as int - 1)
    } else if m == Move::Up {
        (loc.0 as int - 1, loc.1 as int)
    } else {
        (loc.0 as int + 1, loc.1 as int)
    }
}

/// The step in the other direction, written out.
pub open spec fn reverse_step(m: Move) -> Move {
    if m == Move::Right {
        Move::Left
    } else if m == Move::Left {
        Move::Right
    } else if m == Move::Up {
        Move::Down
    } else {
        Move::Up
    }
}

/// `loc` is one of the four corners of a matrix of `size` rows and columns.
pub open spec fn at_corner(loc: (u8, u8), size: u8) -> bool {
    (loc.0 == 0 || loc.0 == size - 1) && (loc.1 == 0 || loc.1 == size - 1)
}

/// What a decision made with no decision pending, by a repairer standing in
/// a matrix of at least two rows and columns, comes to. With `n` the move
/// the repairer takes up (the move turned to in the previous round, or else
/// the one its algorithm proposes):
/// - on a broken house the decision is a fix, and nothing else changes;
/// - otherwise, after the notes are taken in, the decision is the end exactly
///   when the known counts (the repairer's own among them) add up to the
///   number of broken houses;
/// - otherwise, where `n` stays in the matrix, the decision is `n` and the
///   algorithm stays;
/// - where `n` would leave the matrix, the decision is the step back the other
///   way, which stays in the matrix, and the algorithm is switched; in a
///   corner the step back is also remembered as the last move, to be taken up
///   next round, while over an edge the last move stays as it was.
pub proof fn lemma_decision_rules(s: Repairer, cell: Option<(Seq<Seq<char>>, u8)>, first: bool)
    requires
        spec_make_decision(s, cell, first) is Ok,
        s.decision == Move::Empty,
        s.last_move_rotated ==> is_step(s.last_move),
        s.matrix_size >= 2,
        on_grid((s.current_location.0 as int, s.current_location.1 as int), s.matrix_size),
    ensures
        ({
            let d = spec_make_decision(s, cell, first)->Ok_0;
            let status = cell->Some_0.1;
            let loc = s.current_location;
            let size = s.matrix_size;
            let n = if s.last_move_rotated {
                s.last_move
            } else {
                spec_get_move(s.current_algorithm, first)
            };
            &&& cell is Some
            &&& status == 11 ==> d.3 == Move::Fix && d.4 == s.other_repairers_repairs@ && d.0
                == s.current_algorithm && !d.1 && d.2 == s.last_move
            &&& status != 11 ==> (d.3 == Move::End <==> map_total(d.4) == s.total_broken)
            &&& status != 11 && map_total(d.4) != s.total_broken && on_grid(neighbour(n, loc), size)
                ==> d.3 == n && d.0 == s.current_algorithm && !d.1 && d.2 == s.last_move
            &&& status != 11 && map_total(d.4) != s.total_broken && !on_grid(neighbour(n, loc), size)
                ==> {
                &&& d.3 == reverse_step(n)
                &&& on_grid(neighbour(d.3, loc), size)
                &&& d.0 == spec_rotated(s.current_algorithm)
                &&& at_corner(loc, size) ==> d.1 && d.2 == d.3
                &&& !at_corner(loc, size) ==> !d.1 && d.2 == s.last_move
            }
        }),
{
    lemma_algorithm_steps(s.current_algorithm, first);
}

proof fn lemma_algorithm_steps(a: MovementAlgorithm, first: bool)
    ensures
        is_step(spec_get_move(a, first)),
{
}

/// What carrying out a fix comes to: the status byte of the house is read,
/// and the house is repaired exactly when that byte is not 255 (so a broken
/// house, status 11 or 244, is repaired); a repair raises the repairer's
/// count of repairs by one and records it under its own id; the note left
/// in the house tells the count after the fix; one more move is counted and
/// the decision is cleared; the repairer stays where it is.
pub proof fn lemma_fix_rules(
    old: Repairer,
    new: Repairer,
    bytes: Seq<u8>,
    r: Result<ExecAction, ExecError>,
)
    requires
        fix_outcome(old, new, bytes, r),
        r is Ok,
    ensures
        match r {
            Ok(ExecAction::Fix { status, repaired, note_start, note_end, note }) => {
                &&& status < bytes.len()
                &&& status == spec_status_index(
                    old.current_location,
                    18,
                    old.matrix_size as nat,
                )
                &&& repaired == (bytes[status as int] != 255u8)
                &&& bytes[status as int] == 11u8 ==> repaired
                &&& new.total_fixed == old.total_fixed + (if repaired {
                    1int
                } else {
                    0int
                })
                &&& repaired ==> new.other_repairers_repairs@ == old.other_repairers_repairs@.insert(
                    old.id,
                    new.total_fixed,
                )
                &&& !repaired ==> new.other_repairers_repairs@ == old.other_repairers_repairs@
                &&& note@ == chars_as_bytes(note_text(old.id as nat, new.total_fixed as nat))
                &&& note_end == note_start + 18
                &&& new.decision == Move::Empty
                &&& new.total_moves == old.total_moves + 1
                &&& new.current_location == old.current_location
            },
            _ => false,
        },
{
}

/// What carrying out a step comes to: the repairer moves to the
/// neighbouring house in the direction of the step, that location is what is
/// written to the tracking file, one more move is counted, no repair is
/// counted, and the decision is cleared.
pub proof fn lemma_step_rules(old: Repairer, new: Repairer, r: Result<ExecAction, ExecError>)
    requires
        is_step(old.decision),
        step_outcome(old, new, r),
        r is Ok,
    ensures
        match r {
            Ok(ExecAction::Step { track_start, track_end, location, note_start, note_end, note }) => {
                &&& (location.0 as int, location.1 as int) == neighbour(
                    old.decision,
                    old.current_location,
                )
                &&& new.current_location == location
                &&& new.total_moves == old.total_moves + 1
                &&& new.total_fixed == old.total_fixed
                &&& new.decision == Move::Empty
                &&& note@ == chars_as_bytes(note_text(old.id as nat, old.total_fixed as nat))
            },
            _ => false,
        },
{
}

/// A successful decision always leaves a decision for the execution, unless
/// the move the repairer turned to in the previous round was no move at all.
pub proof fn lemma_decision_is_made(s: Repairer, cell: Option<(Seq<Seq<char>>, u8)>, first: bool)
    requires
        spec_make_decision(s, cell, first) is Ok,
        s.last_move_rotated ==> s.last_move != Move::Empty,
    ensures
        spec_make_decision(s, cell, first)->Ok_0.3 != Move::Empty,
{
}

/// A round that starts in the matrix ends in the matrix: after a decision
/// (made with no decision pending, in a matrix of at least two rows and
/// columns) and a step that carries it out, the repairer stands in the matrix
/// again.
pub proof fn lemma_round_stays_on_grid(
    before: Repairer,
    decided_state: Repairer,
    after: Repairer,
    cell: Option<(Seq<Seq<char>>, u8)>,
    first: bool,
    r: Result<ExecAction, ExecError>,
)
    requires
        before.decision == Move::Empty,
        before.matrix_size >= 2,
        on_grid(
            (before.current_location.0 as int, before.current_location.1 as int),
            before.matrix_size,
        ),
        spec_make_decision(before, cell, first) is Ok,
        decided(before, decided_state, spec_make_decision(before, cell, first)->Ok_0),
        is_step(decided_state.decision),
        step_outcome(decided_state, after, r),
        r is Ok,
    ensures
        on_grid((after.current_location.0 as int, after.current_location.1 as int), after.matrix_size),
{
    lemma_decision_stays_on_grid(before, cell, first);
}

} // verus!
