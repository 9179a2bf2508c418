//! The move engine: applies one of the four directions to a packed board
//! using the row tables, and reports the resulting board and score gained.
//! A move is a no-op exactly when the resulting board equals the input
//! board; that equality is the only validity signal.

use vstd::prelude::*;

verus! {

use crate::Board;
use crate::board::lemma_board_eq_by_rows;
use crate::board::reverse;
use crate::board::reverse_spec;
use crate::board::row_of;
use crate::board::set_row;
use crate::board::get_row;
use crate::board::transpose;
use crate::board::transpose_spec;
use crate::tables::MoveTables;
use crate::tables::lemma_merge_score_is_pow_sum;
use crate::tables::lemma_slide_bounds;
use crate::tables::merged_exps;
use crate::tables::nonzeros;
use crate::tables::pow_sum;
use crate::tables::row_seq;
use crate::tables::slide_result;
use crate::tables::slide_score;

/// Four packed rows assembled into one packed board, top row first.
pub open spec fn pack_rows(r0: u16, r1: u16, r2: u16, r3: u16) -> Board {
    (r0 + 0x1_0000 * r1 + 0x1_0000_0000 * r2 + 0x1_0000_0000_0000 * r3) as u64
}

/// Reading a row back from four packed rows returns that row.
proof fn lemma_pack_rows_of(r0: u16, r1: u16, r2: u16, r3: u16)
    by (bit_vector)
    ensures
        row_of(pack_rows(r0, r1, r2, r3), 0) == r0,
        row_of(pack_rows(r0, r1, r2, r3), 1) == r1,
        row_of(pack_rows(r0, r1, r2, r3), 2) == r2,
        row_of(pack_rows(r0, r1, r2, r3), 3) == r3,
{
}

/// The board a left move produces: every row slid and merged in place.
pub open spec fn move_left_spec(b: Board) -> Board {
    pack_rows(
        slide_result(row_of(b, 0)),
        slide_result(row_of(b, 1)),
        slide_result(row_of(b, 2)),
        slide_result(row_of(b, 3)),
    )
}

/// The score a left move gains: the sum of the four row scores.
pub open spec fn left_score_spec(b: Board) -> int {
    slide_score(row_of(b, 0)) + slide_score(row_of(b, 1)) + slide_score(row_of(b, 2))
        + slide_score(row_of(b, 3))
}

/// The board each direction maps `b` to.  A right move is a left move on
/// the row-reversed board; vertical moves work on the transposed board.
/// A direction code outside `0..4` is treated as a documented no-op.
pub open spec fn move_result_spec(b: Board, dir: u32) -> Board {
    if dir == 0 {
        transpose_spec(move_left_spec(transpose_spec(b)))
    } else if dir == 1 {
        transpose_spec(reverse_spec(move_left_spec(reverse_spec(transpose_spec(b)))))
    } else if dir == 2 {
        move_left_spec(b)
    } else if dir == 3 {
        reverse_spec(move_left_spec(reverse_spec(b)))
    } else {
        b
    }
}

/// The board whose plain left slide the direction reduces to.
pub open spec fn move_source_spec(b: Board, dir: u32) -> Board {
    if dir == 0 {
        transpose_spec(b)
    } else if dir == 1 {
        reverse_spec(transpose_spec(b))
    } else if dir == 2 {
        b
    } else if dir == 3 {
        reverse_spec(b)
    } else {
        b
    }
}

/// The score each direction gains on `b`; an unknown direction gains none.
pub open spec fn move_score_spec(b: Board, dir: u32) -> int {
    if dir < 4 {
        left_score_spec(move_source_spec(b, dir))
    } else {
        0
    }
}

/// A move gains at most four rows of top-value merges.
pub proof fn lemma_move_score_bound(b: Board, dir: u32)
    ensures
        0 <= move_score_spec(b, dir) <= 0x80000,
{
    let s = move_source_spec(b, dir);
    lemma_slide_bounds(row_of(s, 0));
    lemma_slide_bounds(row_of(s, 1));
    lemma_slide_bounds(row_of(s, 2));
    lemma_slide_bounds(row_of(s, 3));
}

/// The sum, over the four rows of a board, of `2^e` for every exponent `e`
/// that a left merge pass on that board produces by merging.
pub open spec fn merge_pow_sum(b: Board) -> int {
    pow_sum(merged_exps(nonzeros(row_seq(row_of(b, 0))))) + pow_sum(
        merged_exps(nonzeros(row_seq(row_of(b, 1)))),
    ) + pow_sum(merged_exps(nonzeros(row_seq(row_of(b, 2))))) + pow_sum(
        merged_exps(nonzeros(row_seq(row_of(b, 3)))),
    )
}

/// The score a move gains equals the sum, over all merges the move
/// performs, of two to the merged exponent.  Every direction reduces to a
/// left slide of its source board, so the merges counted are those of that
/// slide.
pub proof fn lemma_move_score_is_merge_pow_sum(b: Board, dir: u32)
    requires
        dir < 4,
    ensures
        move_score_spec(b, dir) == merge_pow_sum(move_source_spec(b, dir)),
{
    let s = move_source_spec(b, dir);
    lemma_merge_score_is_pow_sum(nonzeros(row_seq(row_of(s, 0))));
    lemma_merge_score_is_pow_sum(nonzeros(row_seq(row_of(s, 1))));
    lemma_merge_score_is_pow_sum(nonzeros(row_seq(row_of(s, 2))));
    lemma_merge_score_is_pow_sum(nonzeros(row_seq(row_of(s, 3))));
}

/// Applying a left move twice is the same as applying it once, wherever
/// the first move leaves no freshly created merge behind: if no row of the
/// moved board holds an adjacent equal pair, the second move returns the
/// same board and gains no score.  (A merge can create such a pair — two
/// `4` tiles followed by an `8` become two adjacent `8`s — so the law
/// excludes exactly those boards.)
pub proof fn lemma_left_move_idempotent(b: Board)
    requires
        forall|i: u64| i < 4 ==> crate::tables::merge_free_row(#[trigger] row_of(move_left_spec(b), i)),
    ensures
        move_left_spec(move_left_spec(b)) == move_left_spec(b),
        left_score_spec(move_left_spec(b)) == 0,
{
    let b1 = move_left_spec(b);
    lemma_pack_rows_of(
        slide_result(row_of(b, 0)),
        slide_result(row_of(b, 1)),
        slide_result(row_of(b, 2)),
        slide_result(row_of(b, 3)),
    );
    crate::tables::lemma_slide_fixpoint(row_of(b, 0));
    crate::tables::lemma_slide_fixpoint(row_of(b, 1));
    crate::tables::lemma_slide_fixpoint(row_of(b, 2));
    crate::tables::lemma_slide_fixpoint(row_of(b, 3));
    lemma_pack_rows_of(
        slide_result(row_of(b1, 0)),
        slide_result(row_of(b1, 1)),
        slide_result(row_of(b1, 2)),
        slide_result(row_of(b1, 3)),
    );
    lemma_board_eq_by_rows(move_left_spec(b1), b1);
}

/// Applies the row tables to each of the four rows and reassembles.
fn move_left(tables: &MoveTables, board: Board) -> (res: (Board, u32))
    requires
        tables.wf(),
    ensures
        res.0 == move_left_spec(board),
        res.1 == left_score_spec(board),
{
    proof {
        lemma_slide_bounds(row_of(board, 0));
        lemma_slide_bounds(row_of(board, 1));
        lemma_slide_bounds(row_of(board, 2));
        lemma_slide_bounds(row_of(board, 3));
    }
    let mut new_board: Board = 0;
    let (n0, s0) = crate::tables::move_left(tables, get_row(board, 0));
    let (n1, s1) = crate::tables::move_left(tables, get_row(board, 1));
    let (n2, s2) = crate::tables::move_left(tables, get_row(board, 2));
    let (n3, s3) = crate::tables::move_left(tables, get_row(board, 3));
    set_row(&mut new_board, 0, n0);
    set_row(&mut new_board, 1, n1);
    set_row(&mut new_board, 2, n2);
    set_row(&mut new_board, 3, n3);
    proof {
        lemma_pack_rows_of(n0, n1, n2, n3);
        lemma_board_eq_by_rows(new_board, move_left_spec(board));
    }
    (new_board, s0 + s1 + s2 + s3)
}

/// A right move: reverse every row, slide left, reverse back.
fn move_right(tables: &MoveTables, board: Board) -> (res: (Board, u32))
    requires
        tables.wf(),
    ensures
        res.0 == reverse_spec(move_left_spec(reverse_spec(board))),
        res.1 == left_score_spec(reverse_spec(board)),
{
    let reversed = reverse(board);
    let (new_reversed, score) = move_left(tables, reversed);
    (reverse(new_reversed), score)
}

/// An up move: transpose, slide left, transpose back.
fn move_up(tables: &MoveTables, board: Board) -> (res: (Board, u32))
    requires
        tables.wf(),
    ensures
        res.0 == move_result_spec(board, 0),
        res.1 == move_score_spec(board, 0),
{
    let transposed = transpose(board);
    let (new_transposed, score) = move_left(tables, transposed);
    (transpose(new_transposed), score)
}

/// A down move: transpose, slide right, transpose back.
fn move_down(tables: &MoveTables, board: Board) -> (res: (Board, u32))
    requires
        tables.wf(),
    ensures
        res.0 == move_result_spec(board, 1),
        res.1 == move_score_spec(board, 1),
{
    let transposed = transpose(board);
    let (new_transposed, score) = move_right(tables, transposed);
    (transpose(new_transposed), score)
}

/// Executes a move in the given direction and returns the new board and the
/// score the move gains.  Directions: 0=up, 1=down, 2=left, 3=right; any
/// other code is a documented no-op returning the board unchanged with no
/// score.
pub fn execute_move(tables: &MoveTables, board: Board, dir: u32) -> (res: (Board, u32))
    requires
        tables.wf(),
    ensures
        res.0 == move_result_spec(board, dir),
        res.1 == move_score_spec(board, dir),
        res.1 <= 0x80000,
{
    proof {
        lemma_move_score_bound(board, dir);
    }
    match dir {
        0 => move_up(tables, board),
        1 => move_down(tables, board),
        2 => move_left(tables, board),
        3 => move_right(tables, board),
        _ => (board, 0),
    }
}

/// Moves the board in the given direction (0=up, 1=down, 2=left, 3=right),
/// returning the new board and the score gained.  The direction-code
/// variant of [`execute_move`]; an unknown code is a no-op.
pub fn move_board(tables: &MoveTables, board: u64, direction: u8) -> (res: (u64, u32))
    requires
        tables.wf(),
    ensures
        res.0 == move_result_spec(board, direction as u32),
        res.1 == move_score_spec(board, direction as u32),
        res.1 <= 0x80000,
{
    execute_move(tables, board, direction as u32)
}

} // verus!
