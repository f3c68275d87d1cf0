//! Setting up a fresh matrix: every house carries a note of each repairer
//! with no repairs, and a few houses, chosen at random, are broken.
use vstd::prelude::*;

use crate::models::{note_text, Matrix, Note};
use crate::random::{gen_rand_index, random_in_range};
use crate::text::{decimal, list_text, push_decimal, push_list, push_str};

verus! {

/// The status a fresh matrix gives its broken houses.
pub const MARKED_BROKEN: u8 = 244;

/// Why a matrix could not be set up.
#[derive(PartialEq, Eq, Structural, Clone, Copy, Debug)]
pub enum BoardError {
    /// A broken house is missing from the lists of rows and columns, or
    /// lies outside the matrix.
    NoSuchHouse,
}

/// The house `(r, c)` is one of the first `t` broken houses listed.
pub open spec fn broken_at(br: Seq<i32>, bc: Seq<i32>, t: int, r: int, c: int) -> bool {
    exists|i: int| 0 <= i < t && br[i] == r && bc[i] == c
}

/// The first `t` broken houses are listed, and lie in the matrix.
pub open spec fn placements_valid(rows: u8, cols: u8, br: Seq<i32>, bc: Seq<i32>, t: int) -> bool {
    forall|i: int|
        0 <= i < t ==> i < br.len() && i < bc.len() && 0 <= #[trigger] br[i] < rows && 0 <= bc[i]
            < cols
}

/// The notes of a fresh house: repairer `k` (for `k` from 0 to 3) has made
/// no repairs.
pub open spec fn initial_notes(notes: Seq<String>) -> bool {
    &&& notes.len() == 4
    &&& forall|k: int| 0 <= k < 4 ==> (#[trigger] notes[k])@ == note_text(k as nat, 0)
}

/// `m` has `rows` rows of `cols` houses, each with fresh notes.
pub open spec fn fresh_layout(m: Matrix, rows: u8, cols: u8) -> bool {
    &&& m.data@.len() == rows
    &&& forall|r: int| 0 <= r < rows ==> (#[trigger] m.data@[r])@.len() == cols
    &&& forall|r: int, c: int|
        0 <= r < rows && 0 <= c < cols ==> initial_notes((#[trigger] m.data@[r]@[c]).0@)
}

/// `m` is the fresh matrix in which exactly the houses listed first `t` in
/// `br` and `bc` are broken.
pub open spec fn fresh_matrix(m: Matrix, rows: u8, cols: u8, br: Seq<i32>, bc: Seq<i32>, t: int) -> bool {
    &&& fresh_layout(m, rows, cols)
    &&& forall|r: int, c: int|
        0 <= r < rows && 0 <= c < cols ==> (#[trigger] m.data@[r]@[c]).1 == if broken_at(
            br,
            bc,
            t,
            r,
            c,
        ) {
            MARKED_BROKEN
        } else {
            0
        }
}

/// The houses of `m` marked broken.
pub open spec fn broken_houses(m: Matrix, rows: u8, cols: u8) -> Set<(int, int)> {
    Set::new(
        |p: (int, int)|
            0 <= p.0 < rows && 0 <= p.1 < cols && m.data@[p.0]@[p.1].1 == MARKED_BROKEN,
    )
}

/// Every house of `m` is either intact (0) or marked broken.
pub open spec fn statuses_fresh(m: Matrix, rows: u8, cols: u8) -> bool {
    forall|r: int, c: int|
        0 <= r < rows && 0 <= c < cols ==> (#[trigger] m.data@[r]@[c]).1 == 0 || m.data@[r]@[c].1
            == MARKED_BROKEN
}

/// No two houses of `houses` share a row or a column.
pub open spec fn apart_in_rows_and_columns(houses: Set<(int, int)>) -> bool {
    forall|p: (int, int), q: (int, int)|
        #[trigger] houses.contains(p) && #[trigger] houses.contains(q) && p != q ==> p.0 != q.0
            && p.1 != q.1
}

/// The houses listed first `t` in `br` and `bc`.
pub open spec fn listed_houses(br: Seq<i32>, bc: Seq<i32>, t: int) -> Set<(int, int)> {
    Set::new(|p: (int, int)| broken_at(br, bc, t, p.0, p.1))
}

/// The notes of a fresh house.
fn fresh_notes() -> (v: Vec<String>)
    ensures
        initial_notes(v@),
{
    let mut v: Vec<String> = Vec::new();
    let mut k: u32 = 0;
    while k < 4
        invariant
            k <= 4,
            v@.len() == k,
            forall|j: int| 0 <= j < k ==> (#[trigger] v@[j])@ == note_text(j as nat, 0),
        decreases 4 - k,
    {
        let note = Note { id: k, num_repairs: 0 };
        v.push(note.to_string());
        k = k + 1;
    }
    v
}

/// Whether one of the first `t` listed houses is `(r, c)`.
fn is_listed(br: &Vec<i32>, bc: &Vec<i32>, t: usize, r: i32, c: i32) -> (b: bool)
    requires
        t <= br@.len(),
        t <= bc@.len(),
    ensures
        b == broken_at(br@, bc@, t as int, r as int, c as int),
{
    let mut i: usize = 0;
    while i < t
        invariant
            i <= t,
            t <= br@.len(),
            t <= bc@.len(),
            forall|j: int| 0 <= j < i ==> !(br@[j] == r && bc@[j] == c),
        decreases t - i,
    {
        if br[i] == r && bc[i] == c {
            return true;
        }
        i = i + 1;
    }
    false
}

/// A matrix of `rows` rows of `cols` fresh houses, of which the first
/// `total_broken` houses listed by `broken_rows` and `broken_columns` (row
/// and column of each) are marked broken.
pub fn build_matrix(
    rows: u8,
    cols: u8,
    broken_rows: &Vec<i32>,
    broken_columns: &Vec<i32>,
    total_broken: i32,
) -> (res: Result<Matrix, BoardError>)
    ensures
        placements_valid(rows, cols, broken_rows@, broken_columns@, total_broken as int)
            <==> res is Ok,
        res matches Ok(m) ==> fresh_matrix(
            m,
            rows,
            cols,
            broken_rows@,
            broken_columns@,
            total_broken as int,
        ),
        res is Err ==> res == Err::<Matrix, BoardError>(BoardError::NoSuchHouse),
{
    let t: usize = if total_broken > 0 {
        total_broken as usize
    } else {
        0
    };
    let mut i: usize = 0;
    while i < t
        invariant
            i <= t,
            t == if total_broken > 0 {
                total_broken as int
            } else {
                0
            },
            placements_valid(rows, cols, broken_rows@, broken_columns@, i as int),
        decreases t - i,
    {
        if i >= broken_rows.len() || i >= broken_columns.len() {
            assert(!placements_valid(
                rows,
                cols,
                broken_rows@,
                broken_columns@,
                total_broken as int,
            )) by {
                let x = broken_rows@[i as int];
                assert(0 <= i < total_broken);
            }
            return Err(BoardError::NoSuchHouse);
        }
        let r = broken_rows[i];
        let c = broken_columns[i];
        if r < 0 || r >= rows as i32 || c < 0 || c >= cols as i32 {
            assert(!(0 <= broken_rows@[i as int] < rows && 0 <= broken_columns@[i as int] < cols));
            return Err(BoardError::NoSuchHouse);
        }
        i = i + 1;
    }
    assert(placements_valid(rows, cols, broken_rows@, broken_columns@, total_broken as int));
    proof {
        lemma_placements_cover(rows, cols, broken_rows@, broken_columns@, t as int);
    }
    let mut data: Vec<Vec<(Vec<String>, u8)>> = Vec::new();
    let mut r: u8 = 0;
    while r < rows
        invariant
            r <= rows,
            t <= broken_rows@.len(),
            t <= broken_columns@.len(),
            t == if total_broken > 0 {
                total_broken as int
            } else {
                0
            },
            data@.len() == r,
            forall|i: int| 0 <= i < r ==> (#[trigger] data@[i])@.len() == cols,
            forall|i: int, c: int|
                0 <= i < r && 0 <= c < cols ==> initial_notes((#[trigger] data@[i]@[c]).0@)
                    && data@[i]@[c].1 == if broken_at(
                    broken_rows@,
                    broken_columns@,
                    total_broken as int,
                    i,
                    c,
                ) {
                    MARKED_BROKEN
                } else {
                    0
                },
        decreases rows - r,
    {
        let mut row: Vec<(Vec<String>, u8)> = Vec::new();
        let mut c: u8 = 0;
        while c < cols
            invariant
                c <= cols,
                r < rows,
                t <= broken_rows@.len(),
                t <= broken_columns@.len(),
                t == if total_broken > 0 {
                    total_broken as int
                } else {
                    0
                },
                row@.len() == c,
                forall|j: int|
                    0 <= j < c ==> initial_notes((#[trigger] row@[j]).0@) && row@[j].1 == if broken_at(
                        broken_rows@,
                        broken_columns@,
                        total_broken as int,
                        r as int,
                        j,
                    ) {
                        MARKED_BROKEN
                    } else {
                        0
                    },
            decreases cols - c,
        {
            let broken = is_listed(broken_rows, broken_columns, t, r as i32, c as i32);
            assert(broken == broken_at(
                broken_rows@,
                broken_columns@,
                total_broken as int,
                r as int,
                c as int,
            ));
            let status: u8 = if broken {
                MARKED_BROKEN
            } else {
                0
            };
            row.push((fresh_notes(), status));
            c = c + 1;
        }
        data.push(row);
        r = r + 1;
    }
    Ok(Matrix { data })
}

/// Sets up a fresh matrix of `rows` rows and `cols` columns with a random
/// number (3 to 6) of broken houses at random places, no two in the same row
/// or the same column. The matrix must have at least three rows and three
/// columns; the setup fails where it has fewer rows or columns than the
/// number drawn.
pub fn init_matrix(rows: u8, cols: u8) -> (res: Result<Matrix, BoardError>)
    requires
        rows >= 3,
        cols >= 3,
    ensures
        rows >= 6 && cols >= 6 ==> res is Ok,
        res is Err ==> rows < 6 || cols < 6,
        res matches Ok(m) ==> fresh_layout(m, rows, cols) && broken_houses(m, rows, cols).finite()
            && 3 <= broken_houses(m, rows, cols).len() < 7 && statuses_fresh(m, rows, cols)
            && apart_in_rows_and_columns(broken_houses(m, rows, cols)),
{
    let total_broken = random_in_range(3, 7);
    let broken_rows = gen_rand_index(total_broken, 0, rows as i32);
    let broken_columns = gen_rand_index(total_broken, 0, cols as i32);
    let res = build_matrix(rows, cols, &broken_rows, &broken_columns, total_broken);
    proof {
        if total_broken <= rows && total_broken <= cols {
            assert(placements_valid(
                rows,
                cols,
                broken_rows@,
                broken_columns@,
                total_broken as int,
            ));
        }
        if res is Err {
            if rows >= 6 && cols >= 6 {
                assert(placements_valid(
                    rows,
                    cols,
                    broken_rows@,
                    broken_columns@,
                    total_broken as int,
                ));
            }
        }
        if res is Ok {
            let m = res->Ok_0;
            lemma_placements_cover(
                rows,
                cols,
                broken_rows@,
                broken_columns@,
                total_broken as int,
            );
            lemma_broken_houses_listed(
                m,
                rows,
                cols,
                broken_rows@,
                broken_columns@,
                total_broken as int,
            );
            lemma_listed_count(broken_rows@, broken_columns@, total_broken as int);
            lemma_listed_apart(broken_rows@, broken_columns@, total_broken as int);
            assert(broken_houses(m, rows, cols).len() == total_broken);
        }
    }
    res
}

proof fn lemma_placements_cover(rows: u8, cols: u8, br: Seq<i32>, bc: Seq<i32>, t: int)
    requires
        placements_valid(rows, cols, br, bc, t),
    ensures
        t <= br.len() || t <= 0,
        t <= bc.len() || t <= 0,
{
    if t > 0 {
        assert(0 <= br[t - 1] < rows);
    }
}

/// In a fresh matrix built from valid placements, the broken houses are the
/// listed ones.
pub proof fn lemma_broken_houses_listed(
    m: Matrix,
    rows: u8,
    cols: u8,
    br: Seq<i32>,
    bc: Seq<i32>,
    t: int,
)
    requires
        fresh_matrix(m, rows, cols, br, bc, t),
        placements_valid(rows, cols, br, bc, t),
    ensures
        broken_houses(m, rows, cols) == listed_houses(br, bc, t),
{
    assert forall|p: (int, int)| #[trigger]
        broken_houses(m, rows, cols).contains(p) <==> listed_houses(br, bc, t).contains(p) by {
        if listed_houses(br, bc, t).contains(p) {
            let i = choose|i: int| 0 <= i < t && br[i] == p.0 && bc[i] == p.1;
            assert(0 <= br[i] < rows);
            assert(m.data@[p.0]@[p.1].1 == MARKED_BROKEN);
        }
        if broken_houses(m, rows, cols).contains(p) {
            assert(m.data@[p.0]@[p.1].1 == MARKED_BROKEN);
        }
    }
    assert(broken_houses(m, rows, cols) =~= listed_houses(br, bc, t));
}

/// Houses listed with distinct rows and distinct columns share no row and no
/// column.
pub proof fn lemma_listed_apart(br: Seq<i32>, bc: Seq<i32>, t: int)
    requires
        br.no_duplicates(),
        bc.no_duplicates(),
        t <= br.len(),
        t <= bc.len(),
    ensures
        apart_in_rows_and_columns(listed_houses(br, bc, t)),
{
    assert forall|p: (int, int), q: (int, int)|
        #[trigger] listed_houses(br, bc, t).contains(p) && #[trigger] listed_houses(
            br,
            bc,
            t,
        ).contains(q) && p != q implies p.0 != q.0 && p.1 != q.1 by {
        let i = choose|i: int| 0 <= i < t && br[i] == p.0 && bc[i] == p.1;
        let j = choose|j: int| 0 <= j < t && br[j] == q.0 && bc[j] == q.1;
        assert(i != j);
    }
}

/// Houses listed in distinct rows are distinct houses: `t` of them make a
/// set of `t` houses.
pub proof fn lemma_listed_count(br: Seq<i32>, bc: Seq<i32>, t: int)
    requires
        0 <= t <= br.len(),
        t <= bc.len(),
        br.no_duplicates(),
    ensures
        listed_houses(br, bc, t).finite(),
        listed_houses(br, bc, t).len() == t,
    decreases t,
{
    if t == 0 {
        assert(listed_houses(br, bc, 0) =~= Set::<(int, int)>::empty());
    } else {
        lemma_listed_count(br, bc, t - 1);
        let p = (br[t - 1] as int, bc[t - 1] as int);
        assert(!listed_houses(br, bc, t - 1).contains(p)) by {
            if listed_houses(br, bc, t - 1).contains(p) {
                let i = choose|i: int| 0 <= i < t - 1 && br[i] == p.0 && bc[i] == p.1;
                assert(br[i] == br[t - 1]);
            }
        }
        assert(listed_houses(br, bc, t) =~= listed_houses(br, bc, t - 1).insert(p)) by {
            assert forall|q: (int, int)| #[trigger] listed_houses(br, bc, t).contains(q) implies listed_houses(
                br,
                bc,
                t - 1,
            ).insert(p).contains(q) by {
                let i = choose|i: int| 0 <= i < t && br[i] == q.0 && bc[i] == q.1;
                if i < t - 1 {
                    assert(listed_houses(br, bc, t - 1).contains(q));
                }
            }
            assert forall|q: (int, int)| #[trigger] listed_houses(br, bc, t - 1).insert(p).contains(q) implies listed_houses(
                br,
                bc,
                t,
            ).contains(q) by {
                if q == p {
                    assert(broken_at(br, bc, t, q.0, q.1));
                } else {
                    let i = choose|i: int| 0 <= i < t - 1 && br[i] == q.0 && bc[i] == q.1;
                    assert(0 <= i < t && br[i] == q.0 && bc[i] == q.1);
                }
            }
        }
    }
}

// ---------------------------------------------------------------------------
// The board as the master shows it
// ---------------------------------------------------------------------------

/// The status bytes of a row, each followed by `" | "`.
pub open spec fn row_statuses(row: Seq<(Vec<String>, u8)>) -> Seq<char>
    decreases row.len(),
{
    if row.len() == 0 {
        seq![]
    } else {
        row_statuses(row.drop_last()) + decimal(row.last().1 as nat) + " | "@
    }
}

/// The rule under a row of `n` houses: `"-   "` for each.
pub open spec fn row_rule(n: nat) -> Seq<char>
    decreases n,
{
    if n == 0 {
        seq![]
    } else {
        row_rule((n - 1) as nat) + "-   "@
    }
}

/// Each row: its statuses, a line break, its rule, a line break.
pub open spec fn rows_text(rows: Seq<Vec<(Vec<String>, u8)>>) -> Seq<char>
    decreases rows.len(),
{
    if rows.len() == 0 {
        seq![]
    } else {
        rows_text(rows.drop_last()) + row_statuses(rows.last()@) + "\n"@ + row_rule(
            rows.last()@.len(),
        ) + "\n"@
    }
}

/// The repairers' locations (two bytes each) as vectors of numbers.
pub open spec fn locations_list(r: Seq<u8>, i: int) -> Seq<char> {
    list_text(r.subrange(2 * i, 2 * i + 2).map_values(|x: u8| x as u32))
}

/// The heading: the names of the four repairers, then where each stands,
/// then an empty line.
pub open spec fn board_heading(r: Seq<u8>) -> Seq<char> {
    "   repairer 1    |    repairer 2    |    repairer 3    |    repairer 4    \n"@ + "     "@
        + locations_list(r, 0) + "             "@ + locations_list(r, 1) + "            "@
        + locations_list(r, 2) + "            "@ + locations_list(r, 3) + "        \n"@ + "\n"@
}

/// The text the master shows of the matrix `data` while the repairers, whose
/// locations are in `repairers`, work on it.
pub open spec fn spec_board_text(data: Seq<Vec<(Vec<String>, u8)>>, repairers: Seq<u8>) -> Seq<
    char,
> {
    board_heading(repairers) + rows_text(data)
}

/// Appends the location of repairer `i` (bytes `2 * i` and `2 * i + 1`).
fn push_location(s: &mut String, repairers: &Vec<u8>, i: usize)
    requires
        i < 4,
        repairers@.len() >= 8,
    ensures
        final(s)@ == old(s)@ + locations_list(repairers@, i as int),
{
    let pair: Vec<u32> = vec![repairers[2 * i] as u32, repairers[2 * i + 1] as u32];
    assert(pair@ =~= repairers@.subrange(2 * i, 2 * i + 2).map_values(|x: u8| x as u32));
    push_list(s, &pair);
}

/// The text the master shows of the matrix while the repairers work on it.
pub fn board_text(data: &Vec<Vec<(Vec<String>, u8)>>, repairers: &Vec<u8>) -> (s: String)
    requires
        repairers@.len() >= 8,
    ensures
        s@ == spec_board_text(data@, repairers@),
{
    let mut s = String::new();
    push_str(&mut s, "   repairer 1    |    repairer 2    |    repairer 3    |    repairer 4    \n");
    push_str(&mut s, "     ");
    push_location(&mut s, repairers, 0);
    push_str(&mut s, "             ");
    push_location(&mut s, repairers, 1);
    push_str(&mut s, "            ");
    push_location(&mut s, repairers, 2);
    push_str(&mut s, "            ");
    push_location(&mut s, repairers, 3);
    push_str(&mut s, "        \n");
    push_str(&mut s, "\n");
    assert(s@ =~= board_heading(repairers@));
    let ghost heading = s@;
    let mut i: usize = 0;
    while i < data.len()
        invariant
            i <= data@.len(),
            s@ == heading + rows_text(data@.take(i as int)),
        decreases data@.len() - i,
    {
        let row = &data[i];
        let ghost before_row = s@;
        let mut j: usize = 0;
        while j < row.len()
            invariant
                j <= row@.len(),
                s@ == before_row + row_statuses(row@.take(j as int)),
            decreases row@.len() - j,
        {
            push_decimal(&mut s, row[j].1 as u32);
            push_str(&mut s, " | ");
            assert(row@.take(j + 1).drop_last() == row@.take(j as int));
            j = j + 1;
            assert(s@ =~= before_row + row_statuses(row@.take(j as int)));
        }
        assert(row@.take(row@.len() as int) == row@);
        push_str(&mut s, "\n");
        let ghost before_rule = s@;
        let mut k: usize = 0;
        while k < row.len()
            invariant
                k <= row@.len(),
                s@ == before_rule + row_rule(k as nat),
            decreases row@.len() - k,
        {
            push_str(&mut s, "-   ");
            k = k + 1;
            assert(s@ =~= before_rule + row_rule(k as nat));
        }
        push_str(&mut s, "\n");
        assert(data@.take(i + 1).drop_last() == data@.take(i as int));
        i = i + 1;
        assert(s@ =~= heading + rows_text(data@.take(i as int)));
    }
    assert(data@.take(data@.len() as int) == data@);
    s
}

} // verus!
