//! The heuristic evaluator: scores a board as a weighted sum of
//! monotonicity, smoothness, an empty-cell bonus, and the largest exponent
//! present.  Higher is better.
//!
//! Scores are fixed-point integers, since they are only ever compared
//! against each other within one search.  The calibration weights
//! (monotonicity 4.0, smoothness 0.1, empty cells 2.7, max tile 1.0) are
//! scaled by 1000 to (4000, 100, 2700, 1000), and the empty-cell bonus
//! `ln(1 + empty)` is drawn from a table of `100 * ln(1 + n)` rounded to
//! the nearest integer, so its weight appears below as `2700 / 100 = 27`.

use vstd::prelude::*;

verus! {

use crate::Board;
use crate::board::count_empty;
use crate::board::empty_count;
use crate::board::lemma_empties_upto_bound;
use crate::board::lemma_nib_bound;
use crate::board::nib;
use crate::board::tile_at;

/// The absolute difference of two values.
pub open spec fn abs_diff(a: int, b: int) -> int {
    if a >= b {
        a - b
    } else {
        b - a
    }
}

/// The smoothness penalty cell `k` contributes: the negated absolute
/// exponent difference towards its right and its down neighbour, counted
/// only between two non-empty cells.
pub open spec fn cell_smooth(b: Board, k: int) -> int {
    let v = nib(b, k as u64) as int;
    (if v != 0 && k % 4 < 3 && nib(b, (k + 1) as u64) != 0 {
        -abs_diff(v, nib(b, (k + 1) as u64) as int)
    } else {
        0
    }) + (if v != 0 && k / 4 < 3 && nib(b, (k + 4) as u64) != 0 {
        -abs_diff(v, nib(b, (k + 4) as u64) as int)
    } else {
        0
    })
}

/// The smoothness contributions of the first `n` cells.
pub open spec fn smooth_upto(b: Board, n: int) -> int
    decreases n,
{
    if n <= 0 {
        0
    } else {
        smooth_upto(b, n - 1) + cell_smooth(b, n - 1)
    }
}

/// The smoothness term: never positive, zero on a locally uniform board.
pub open spec fn smoothness_spec(b: Board) -> int {
    smooth_upto(b, 16)
}

/// What a pair adds to a line's decreasing total: the (non-positive)
/// difference of squared exponents when the line steps down here.
pub open spec fn dec_part(a: int, n: int) -> int {
    if a > n {
        n * n - a * a
    } else {
        0
    }
}

/// What a pair adds to a line's increasing total: the (non-positive)
/// difference of squared exponents when the line steps up or stays here.
pub open spec fn inc_part(a: int, n: int) -> int {
    if a > n {
        0
    } else {
        a * a - n * n
    }
}

/// The two cells of horizontal pair `m` (`m` in `0..12`): pair `m` sits in
/// row `m / 3` between columns `m % 3` and `m % 3 + 1`.
pub open spec fn row_pair_a(b: Board, m: int) -> int {
    nib(b, (4 * (m / 3) + m % 3) as u64) as int
}

pub open spec fn row_pair_n(b: Board, m: int) -> int {
    nib(b, (4 * (m / 3) + m % 3 + 1) as u64) as int
}

/// The two cells of vertical pair `m` (`m` in `0..12`): pair `m` sits in
/// column `m / 3` between rows `m % 3` and `m % 3 + 1`.
pub open spec fn col_pair_a(b: Board, m: int) -> int {
    nib(b, (4 * (m % 3) + m / 3) as u64) as int
}

pub open spec fn col_pair_n(b: Board, m: int) -> int {
    nib(b, (4 * (m % 3) + m / 3 + 4) as u64) as int
}

/// Partial monotonicity totals over the first `n` pairs: vertical
/// decreasing, vertical increasing, horizontal decreasing, horizontal
/// increasing.
pub open spec fn col_dec_upto(b: Board, n: int) -> int
    decreases n,
{
    if n <= 0 {
        0
    } else {
        col_dec_upto(b, n - 1) + dec_part(col_pair_a(b, n - 1), col_pair_n(b, n - 1))
    }
}

pub open spec fn col_inc_upto(b: Board, n: int) -> int
    decreases n,
{
    if n <= 0 {
        0
    } else {
        col_inc_upto(b, n - 1) + inc_part(col_pair_a(b, n - 1), col_pair_n(b, n - 1))
    }
}

pub open spec fn row_dec_upto(b: Board, n: int) -> int
    decreases n,
{
    if n <= 0 {
        0
    } else {
        row_dec_upto(b, n - 1) + dec_part(row_pair_a(b, n - 1), row_pair_n(b, n - 1))
    }
}

pub open spec fn row_inc_upto(b: Board, n: int) -> int
    decreases n,
{
    if n <= 0 {
        0
    } else {
        row_inc_upto(b, n - 1) + inc_part(row_pair_a(b, n - 1), row_pair_n(b, n - 1))
    }
}

/// The monotonicity term: each row and column may be ordered in either
/// direction, so the better of the two directional totals counts, rows and
/// columns independently.  Never positive; zero when every line is
/// monotone one way.
pub open spec fn mono_spec(b: Board) -> int {
    (if col_dec_upto(b, 12) > col_inc_upto(b, 12) {
        col_dec_upto(b, 12)
    } else {
        col_inc_upto(b, 12)
    }) + (if row_dec_upto(b, 12) > row_inc_upto(b, 12) {
        row_dec_upto(b, 12)
    } else {
        row_inc_upto(b, 12)
    })
}

/// The largest exponent among the first `n` cells.
pub open spec fn max_exp_upto(b: Board, n: int) -> int
    decreases n,
{
    if n <= 0 {
        0
    } else {
        let rest = max_exp_upto(b, n - 1);
        if nib(b, (n - 1) as u64) as int > rest {
            nib(b, (n - 1) as u64) as int
        } else {
            rest
        }
    }
}

/// The largest exponent present on the board (not its face value).
pub open spec fn max_exp_spec(b: Board) -> int {
    max_exp_upto(b, 16)
}

/// `100 * ln(1 + n)` rounded to the nearest integer, for `n` empty cells:
/// the empty-cell bonus grows with emptiness but flattens out, and is zero
/// (not unbounded below) on a full board.
pub open spec fn ln_scaled(n: int) -> int {
    if n <= 0 {
        0
    } else if n == 1 {
        69
    } else if n == 2 {
        110
    } else if n == 3 {
        139
    } else if n == 4 {
        161
    } else if n == 5 {
        179
    } else if n == 6 {
        195
    } else if n == 7 {
        208
    } else if n == 8 {
        220
    } else if n == 9 {
        230
    } else if n == 10 {
        240
    } else if n == 11 {
        248
    } else if n == 12 {
        256
    } else if n == 13 {
        264
    } else if n == 14 {
        271
    } else if n == 15 {
        277
    } else {
        283
    }
}

/// The full heuristic: the fixed-weight linear combination of the four
/// sub-scores, weights (4.0, 0.1, 2.7, 1.0) in fixed-point form.
pub open spec fn eval_spec(b: Board) -> int {
    4000 * mono_spec(b) + 100 * smoothness_spec(b) + 27 * ln_scaled(empty_count(b)) + 1000
        * max_exp_spec(b)
}

/// Each cell's smoothness contribution is between -30 and 0.
proof fn lemma_cell_smooth_bound(b: Board, k: int)
    ensures
        -30 <= cell_smooth(b, k) <= 0,
{
    lemma_nib_bound(b, k as u64);
    lemma_nib_bound(b, (k + 1) as u64);
    lemma_nib_bound(b, (k + 4) as u64);
}

/// Partial smoothness totals are between `-30 * n` and 0.
pub proof fn lemma_smooth_upto_bound(b: Board, n: int)
    ensures
        -30 * (if n >= 0 {
            n
        } else {
            0
        }) <= smooth_upto(b, n) <= 0,
    decreases n,
{
    if n > 0 {
        lemma_smooth_upto_bound(b, n - 1);
        lemma_cell_smooth_bound(b, n - 1);
    }
}

/// A pair's monotonicity contributions are between -225 and 0.
proof fn lemma_pair_bounds(a: int, n: int)
    requires
        0 <= a < 16,
        0 <= n < 16,
    ensures
        -225 <= dec_part(a, n) <= 0,
        -225 <= inc_part(a, n) <= 0,
{
    assert(0 <= a * a <= 225 && 0 <= n * n <= 225 && (a > n ==> n * n <= a * a) && (a <= n ==> a
        * a <= n * n)) by (nonlinear_arith)
        requires
            0 <= a < 16,
            0 <= n < 16,
    ;
}

/// Partial monotonicity totals are between `-225 * n` and 0.
pub proof fn lemma_mono_upto_bounds(b: Board, n: int)
    ensures
        -225 * (if n >= 0 {
            n
        } else {
            0
        }) <= col_dec_upto(b, n) <= 0,
        -225 * (if n >= 0 {
            n
        } else {
            0
        }) <= col_inc_upto(b, n) <= 0,
        -225 * (if n >= 0 {
            n
        } else {
            0
        }) <= row_dec_upto(b, n) <= 0,
        -225 * (if n >= 0 {
            n
        } else {
            0
        }) <= row_inc_upto(b, n) <= 0,
    decreases n,
{
    if n > 0 {
        lemma_mono_upto_bounds(b, n - 1);
        lemma_nib_bound(b, (4 * ((n - 1) / 3) + (n - 1) % 3) as u64);
        lemma_nib_bound(b, (4 * ((n - 1) / 3) + (n - 1) % 3 + 1) as u64);
        lemma_nib_bound(b, (4 * ((n - 1) % 3) + (n - 1) / 3) as u64);
        lemma_nib_bound(b, (4 * ((n - 1) % 3) + (n - 1) / 3 + 4) as u64);
        lemma_pair_bounds(row_pair_a(b, n - 1), row_pair_n(b, n - 1));
        lemma_pair_bounds(col_pair_a(b, n - 1), col_pair_n(b, n - 1));
    }
}

/// Partial maxima of exponents are between 0 and 15.
pub proof fn lemma_max_exp_bound(b: Board, n: int)
    ensures
        0 <= max_exp_upto(b, n) <= 15,
    decreases n,
{
    if n > 0 {
        lemma_max_exp_bound(b, n - 1);
        lemma_nib_bound(b, (n - 1) as u64);
    }
}

/// Every board's heuristic score fits comfortably in the fixed-point range.
pub proof fn lemma_eval_bounds(b: Board)
    ensures
        -30000000 <= eval_spec(b) <= 30000000,
{
    lemma_mono_upto_bounds(b, 12);
    lemma_smooth_upto_bound(b, 16);
    lemma_max_exp_bound(b, 16);
    lemma_empties_upto_bound(b, 16);
}

/// The smoothness term of a board.
pub fn smoothness_score(board: Board) -> (s: i64)
    ensures
        s == smoothness_spec(board),
        -480 <= s <= 0,
{
    let mut acc: i64 = 0;
    for k in 0..16
        invariant
            acc == smooth_upto(board, k as int),
            -30 * (k as int) <= acc <= 0,
    {
        let v = tile_at(board, k);
        proof {
            lemma_nib_bound(board, k as u64);
            lemma_cell_smooth_bound(board, k as int);
        }
        if v != 0 {
            if k % 4 < 3 {
                let right = tile_at(board, k + 1);
                proof {
                    lemma_nib_bound(board, (k + 1) as u64);
                }
                if right != 0 {
                    let d: i64 = if v >= right {
                        (v - right) as i64
                    } else {
                        (right - v) as i64
                    };
                    acc = acc - d;
                }
            }
            if k / 4 < 3 {
                let down = tile_at(board, k + 4);
                proof {
                    lemma_nib_bound(board, (k + 4) as u64);
                }
                if down != 0 {
                    let d: i64 = if v >= down {
                        (v - down) as i64
                    } else {
                        (down - v) as i64
                    };
                    acc = acc - d;
                }
            }
        }
    }
    acc
}

/// The monotonicity term of a board: the better directional total of the
/// columns plus the better directional total of the rows.
pub fn monotonicity_score(board: Board) -> (s: i64)
    ensures
        s == mono_spec(board),
        -5400 <= s <= 0,
{
    let mut col_dec: i64 = 0;
    let mut col_inc: i64 = 0;
    let mut row_dec: i64 = 0;
    let mut row_inc: i64 = 0;
    for m in 0..12
        invariant
            col_dec == col_dec_upto(board, m as int),
            col_inc == col_inc_upto(board, m as int),
            row_dec == row_dec_upto(board, m as int),
            row_inc == row_inc_upto(board, m as int),
            -225 * (m as int) <= col_dec <= 0,
            -225 * (m as int) <= col_inc <= 0,
            -225 * (m as int) <= row_dec <= 0,
            -225 * (m as int) <= row_inc <= 0,
    {
        let i = m / 3;
        let k = m % 3;
        let ra_u = tile_at(board, 4 * i + k);
        let rn_u = tile_at(board, 4 * i + k + 1);
        let ca_u = tile_at(board, 4 * k + i);
        let cn_u = tile_at(board, 4 * k + i + 4);
        proof {
            lemma_nib_bound(board, (4 * i + k) as u64);
            lemma_nib_bound(board, (4 * i + k + 1) as u64);
            lemma_nib_bound(board, (4 * k + i) as u64);
            lemma_nib_bound(board, (4 * k + i + 4) as u64);
        }
        let ra: i64 = ra_u as i64;
        let rn: i64 = rn_u as i64;
        let ca: i64 = ca_u as i64;
        let cn: i64 = cn_u as i64;
        proof {
            assert(ra == row_pair_a(board, m as int));
            assert(rn == row_pair_n(board, m as int));
            assert(ca == col_pair_a(board, m as int));
            assert(cn == col_pair_n(board, m as int));
            lemma_pair_bounds(ra as int, rn as int);
            lemma_pair_bounds(ca as int, cn as int);
            assert(ra * ra <= 225 && rn * rn <= 225 && ca * ca <= 225 && cn * cn <= 225 && ra * ra
                >= 0 && rn * rn >= 0 && ca * ca >= 0 && cn * cn >= 0) by (nonlinear_arith)
                requires
                    0 <= ra < 16 && 0 <= rn < 16 && 0 <= ca < 16 && 0 <= cn < 16,
            ;
        }
        if ra > rn {
            row_dec = row_dec + (rn * rn - ra * ra);
        } else {
            row_inc = row_inc + (ra * ra - rn * rn);
        }
        if ca > cn {
            col_dec = col_dec + (cn * cn - ca * ca);
        } else {
            col_inc = col_inc + (ca * ca - cn * cn);
        }
    }
    let cols: i64 = if col_dec > col_inc {
        col_dec
    } else {
        col_inc
    };
    let rows: i64 = if row_dec > row_inc {
        row_dec
    } else {
        row_inc
    };
    cols + rows
}

/// The largest exponent on the board (not its face value).
pub fn get_max_tile_bitboard(board: Board) -> (m: u64)
    ensures
        m == max_exp_spec(board),
        m <= 15,
{
    let mut max_power: u64 = 0;
    for i in 0..16
        invariant
            max_power == max_exp_upto(board, i as int),
            max_power <= 15,
    {
        let power = tile_at(board, i);
        proof {
            lemma_nib_bound(board, i as u64);
        }
        if power > max_power {
            max_power = power;
        }
    }
    max_power
}

/// The empty-cell bonus: `100 * ln(1 + n)` rounded, looked up.
fn empty_log(n: u32) -> (l: i64)
    requires
        n <= 16,
    ensures
        l == ln_scaled(n as int),
{
    if n == 0 {
        0
    } else if n == 1 {
        69
    } else if n == 2 {
        110
    } else if n == 3 {
        139
    } else if n == 4 {
        161
    } else if n == 5 {
        179
    } else if n == 6 {
        195
    } else if n == 7 {
        208
    } else if n == 8 {
        220
    } else if n == 9 {
        230
    } else if n == 10 {
        240
    } else if n == 11 {
        248
    } else if n == 12 {
        256
    } else if n == 13 {
        264
    } else if n == 14 {
        271
    } else if n == 15 {
        277
    } else {
        283
    }
}

/// Evaluates the board: exactly the fixed-weight linear combination of the
/// four independently computable sub-scores, with the weights
/// (4.0, 0.1, 2.7, 1.0) in fixed-point form as (4000, 100, 27 per table
/// step, 1000).
pub fn evaluate_board(board: Board) -> (score: i64)
    ensures
        score == eval_spec(board),
        score == 4000 * mono_spec(board) + 100 * smoothness_spec(board) + 27 * ln_scaled(
            empty_count(board),
        ) + 1000 * max_exp_spec(board),
        -30000000 <= score <= 30000000,
{
    let mono = monotonicity_score(board);
    let smooth = smoothness_score(board);
    let empty = count_empty(board);
    let max_tile = get_max_tile_bitboard(board);
    proof {
        lemma_eval_bounds(board);
    }
    4000 * mono + 100 * smooth + 27 * empty_log(empty) + 1000 * (max_tile as i64)
}

} // verus!
