//! Where the parts of one house of the matrix lie in the shared matrix file.
//!
//! The file holds the bincode encoding of a `Matrix` whose notes all have
//! the same length: each vector and each string is preceded by its length in
//! eight bytes. A house takes eight bytes for the length of its notes, then
//! for each of the four notes eight bytes of length and the note's text, then
//! one byte of status.
use vstd::prelude::*;

verus! {

/// Number of notes kept in every house, one per repairer.
pub const NOTES_PER_HOUSE: u32 = 4;

/// The bytes that one house takes in the file.
pub open spec fn house_len(note_len: nat) -> nat {
    4 * (note_len + 8) + 9
}

/// Where the first note's length of the house at `idx` begins.
pub open spec fn notes_offset(idx: (u8, u8), note_len: nat, size: nat) -> nat {
    (24 + idx.0 * (size * house_len(note_len)) + idx.1 * house_len(note_len) + idx.0 * 8) as nat
}

/// Where the text of the note of `repairer` (counted from 0) begins.
pub open spec fn spec_note_start(idx: (u8, u8), repairer: nat, note_len: nat, size: nat) -> nat {
    notes_offset(idx, note_len, size) + repairer * (note_len + 8) + 8
}

/// Where the status byte of the house at `idx` lies.
pub open spec fn spec_status_index(idx: (u8, u8), note_len: nat, size: nat) -> nat {
    notes_offset(idx, note_len, size) + 4 * (note_len + 8)
}

proof fn lemma_offset_bounds(idx: (u8, u8), note_len: u8, size: u8)
    ensures
        house_len(note_len as nat) <= 1061,
        idx.0 * ((size as nat) * house_len(note_len as nat)) <= 255 * (255 * 1061),
        idx.1 * house_len(note_len as nat) <= 255 * 1061,
{
    let h = house_len(note_len as nat);
    assert(h <= 1061);
    assert((size as nat) * h <= 255 * 1061) by (nonlinear_arith)
        requires
            size <= 255,
            h <= 1061,
    ;
    let sh = (size as nat) * h;
    assert(idx.0 * sh <= 255 * (255 * 1061)) by (nonlinear_arith)
        requires
            idx.0 <= 255,
            sh <= 255 * 1061,
    ;
    assert(idx.1 * h <= 255 * 1061) by (nonlinear_arith)
        requires
            idx.1 <= 255,
            h <= 1061,
    ;
}

/// The byte range `(start, end)` of the note that `repairer_id` (counted from
/// 0) leaves in the house at `element_idx`, in a matrix of `size` columns
/// whose notes are `note_len` bytes long.
pub fn get_note_index(element_idx: (u8, u8), repairer_id: u8, note_len: u8, size: u8) -> (res: (
    usize,
    usize,
))
    ensures
        res.0 == spec_note_start(element_idx, repairer_id as nat, note_len as nat, size as nat),
        res.1 == res.0 + note_len,
{
    proof {
        lemma_offset_bounds(element_idx, note_len, size);
    }
    let notes_num: u32 = NOTES_PER_HOUSE;
    let buffers_starting_nulls: u32 = 3 * 8;
    let house: u32 = notes_num * (note_len as u32 + 8) + 9;
    assert(size as u32 * house <= 255 * 1061 && element_idx.0 as u32 * (size as u32 * house) <= 255
        * (255 * 1061) && repairer_id as u32 * (note_len as u32 + 8) <= 255 * 263) by (
    nonlinear_arith)
        requires
            house <= 1061,
            note_len <= 255,
            size <= 255,
            element_idx.0 <= 255,
            repairer_id <= 255,
    ;
    let passing_rows: u32 = element_idx.0 as u32 * (size as u32 * house);
    let passing_cols: u32 = element_idx.1 as u32 * house;
    let num_rows_dis: u32 = element_idx.0 as u32 * 8;
    let start: u32 = buffers_starting_nulls + passing_rows + passing_cols + num_rows_dis + (
    repairer_id as u32 * (note_len as u32 + 8) + 8);
    let end: u32 = start + note_len as u32;
    (start as usize, end as usize)
}

/// The index of the status byte of the house at `element_idx`.
pub fn get_status_index(element_idx: (u8, u8), note_len: u8, size: u8) -> (res: usize)
    ensures
        res == spec_status_index(element_idx, note_len as nat, size as nat),
{
    proof {
        lemma_offset_bounds(element_idx, note_len, size);
    }
    let notes_num: u32 = NOTES_PER_HOUSE;
    let buffers_starting_nulls: u32 = 3 * 8;
    let house: u32 = notes_num * (note_len as u32 + 8) + 9;
    assert(size as u32 * house <= 255 * 1061 && element_idx.0 as u32 * (size as u32 * house) <= 255
        * (255 * 1061)) by (
    nonlinear_arith)
        requires
            house <= 1061,
            note_len <= 255,
            size <= 255,
            element_idx.0 <= 255,
    ;
    let passing_rows: u32 = element_idx.0 as u32 * (size as u32 * house);
    let passing_cols: u32 = element_idx.1 as u32 * house;
    let num_rows_dis: u32 = element_idx.0 as u32 * 8;
    let status: u32 = buffers_starting_nulls + passing_rows + passing_cols + num_rows_dis + notes_num
        * (note_len as u32 + 8);
    status as usize
}

/// In one house the notes of the four repairers do not overlap, and all of
/// them lie before the status byte.
pub proof fn lemma_notes_apart(idx: (u8, u8), i: nat, j: nat, note_len: nat, size: nat)
    requires
        i < j < 4,
    ensures
        spec_note_start(idx, i, note_len, size) + note_len <= spec_note_start(
            idx,
            j,
            note_len,
            size,
        ),
        spec_note_start(idx, j, note_len, size) + note_len <= spec_status_index(
            idx,
            note_len,
            size,
        ),
{
    assert(i * (note_len + 8) + note_len + 8 <= j * (note_len + 8)) by (nonlinear_arith)
        requires
            i < j,
    ;
    assert(j * (note_len + 8) + 8 + note_len <= 4 * (note_len + 8)) by (nonlinear_arith)
        requires
            j < 4,
    ;
}

/// Everything that belongs to a house lies inside its own bytes, and the
/// houses of a matrix with `size` columns do not share bytes: the house at
/// `a` ends before the house at `b` begins when `a` comes first in reading
/// order.
pub proof fn lemma_houses_apart(a: (u8, u8), b: (u8, u8), note_len: nat, size: nat)
    requires
        a.1 < size,
        b.1 < size,
        a.0 < b.0 || (a.0 == b.0 && a.1 < b.1),
    ensures
        spec_status_index(a, note_len, size) < notes_offset(b, note_len, size) - 8,
        notes_offset(a, note_len, size) + house_len(note_len) - 8 <= notes_offset(
            b,
            note_len,
            size,
        ) - 8,
{
    let h = house_len(note_len);
    let (ar, ac, br, bc) = (a.0 as int, a.1 as int, b.0 as int, b.1 as int);
    let s = size as int;
    assert(ar * (s * h) + ac * h + ar * 8 + h <= br * (s * h) + bc * h + br * 8) by (
    nonlinear_arith)
        requires
            0 <= ac < s,
            0 <= bc < s,
            0 <= ar,
            0 <= br,
            h >= 9,
            ar < br || (ar == br && ac < bc),
    {
        if ar < br {
            assert(ar * (s * h) + s * h <= br * (s * h)) by (nonlinear_arith)
                requires
                    ar < br,
                    s * h >= 0,
            ;
            assert(ac * h + h <= s * h) by (nonlinear_arith)
                requires
                    ac < s,
                    h >= 0,
            ;
            assert(0 <= bc * h) by (nonlinear_arith)
                requires
                    bc >= 0,
                    h >= 0,
            ;
        } else {
            assert(ac * h + h <= bc * h) by (nonlinear_arith)
                requires
                    ac < bc,
                    h >= 0,
            ;
        }
    }
}

} // verus!
