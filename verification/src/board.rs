//! The packed board codec: nibble access, row extraction and injection,
//! transposition, per-row reversal, empty-cell counting, and conversion
//! between flat tile-value grids and the packed representation.

use vstd::prelude::*;

verus! {

use crate::Board;
use crate::Row;
use vstd::arithmetic::power2::lemma2_to64;
use vstd::arithmetic::power2::lemma_pow2_strictly_increases;
use vstd::arithmetic::power2::lemma_pow2_unfold;
use vstd::arithmetic::power2::pow2;
use vstd::bits::lemma_u32_shl_is_mul;

/// The exponent nibble at cell index `i` (row major, `i` in `0..16`).
pub open spec fn nib(b: Board, i: u64) -> u64
    recommends
        i < 16,
{
    (b >> ((4 * i) as u64)) & 0xF
}

/// The packed row at index `i` (`i` in `0..4`): bits `[16*i, 16*i + 16)`.
pub open spec fn row_of(b: Board, i: u64) -> Row
    recommends
        i < 4,
{
    (b >> ((16 * i) as u64)) as u16
}

/// The exponent nibble at position `j` of a packed row (`j` in `0..4`).
pub open spec fn row_nib(r: Row, j: u64) -> u16
    recommends
        j < 4,
{
    (r >> ((4 * j) as u16)) & 0xF
}

/// A nibble is always a value in `0..16`.
pub proof fn lemma_nib_bound(b: Board, i: u64)
    by (bit_vector)
    ensures
        nib(b, i) < 16,
{
}

/// A row nibble is always a value in `0..16`.
pub proof fn lemma_row_nib_bound(r: Row, j: u64)
    by (bit_vector)
    ensures
        row_nib(r, j) < 16,
{
}

/// Two boards with the same four rows are the same board.
pub proof fn lemma_board_eq_by_rows(a: Board, b: Board)
    by (bit_vector)
    requires
        row_of(a, 0) == row_of(b, 0),
        row_of(a, 1) == row_of(b, 1),
        row_of(a, 2) == row_of(b, 2),
        row_of(a, 3) == row_of(b, 3),
    ensures
        a == b,
{
}

/// The board with every cell moved to its transposed position: the nibble of
/// cell `(r, c)` moves to cell `(c, r)`.  Vertical moves reduce to horizontal
/// ones through this map.
pub open spec fn transpose_spec(b: Board) -> Board {
    (nib(b, 0) << 0u64) | (nib(b, 1) << 16u64) | (nib(b, 2) << 32u64) | (nib(b, 3) << 48u64)
        | (nib(b, 4) << 4u64) | (nib(b, 5) << 20u64) | (nib(b, 6) << 36u64) | (nib(b, 7) << 52u64)
        | (nib(b, 8) << 8u64) | (nib(b, 9) << 24u64) | (nib(b, 10) << 40u64) | (nib(b, 11) << 56u64)
        | (nib(b, 12) << 12u64) | (nib(b, 13) << 28u64) | (nib(b, 14) << 44u64) | (nib(b, 15)
        << 60u64)
}

/// A row with its four nibbles in reverse order.
pub open spec fn rev_row_spec(r: Row) -> Row {
    ((r & 0xF000) >> 12u16) | ((r & 0x0F00) >> 4u16) | ((r & 0x00F0) << 4u16) | ((r & 0x000F)
        << 12u16)
}

/// The board with every row reversed in place (no row-order swap).
pub open spec fn reverse_spec(b: Board) -> Board {
    ((b & 0x000F_000F_000F_000F) << 12u64) | ((b & 0x00F0_00F0_00F0_00F0) << 4u64) | ((b
        & 0x0F00_0F00_0F00_0F00) >> 4u64) | ((b & 0xF000_F000_F000_F000) >> 12u64)
}

/// Transposition moves cell `(r, c)` to cell `(c, r)`.
pub proof fn lemma_transpose_nib(b: Board, r: u64, c: u64)
    by (bit_vector)
    requires
        r < 4,
        c < 4,
    ensures
        nib(transpose_spec(b), (4 * c + r) as u64) == nib(b, (4 * r + c) as u64),
{
}

/// Transposing twice gives the original board back.
pub proof fn lemma_transpose_involution(b: Board)
    by (bit_vector)
    ensures
        transpose_spec(transpose_spec(b)) == b,
{
}

/// Row reversal swaps nibble `j` with nibble `3 - j`.
pub proof fn lemma_rev_row_nib(r: Row, j: u64)
    by (bit_vector)
    requires
        j < 4,
    ensures
        row_nib(rev_row_spec(r), j) == row_nib(r, (3 - j) as u64),
{
}

/// Reversing a row twice gives the original row back.
pub proof fn lemma_rev_row_involution(r: Row)
    by (bit_vector)
    ensures
        rev_row_spec(rev_row_spec(r)) == r,
{
}

/// Board reversal reverses each row independently.
pub proof fn lemma_reverse_rows(b: Board, i: u64)
    by (bit_vector)
    requires
        i < 4,
    ensures
        row_of(reverse_spec(b), i) == rev_row_spec(row_of(b, i)),
{
}

/// Reversing the board twice gives the original board back.
pub proof fn lemma_reverse_involution(b: Board)
    by (bit_vector)
    ensures
        reverse_spec(reverse_spec(b)) == b,
{
}

/// An all-zero board has all-zero rows.
proof fn lemma_zero_board_rows(i: u64)
    by (bit_vector)
    requires
        i < 4,
    ensures
        row_of(0u64, i) == 0u16,
{
}

/// Extracts a single row from the board.
#[inline]
pub fn get_row(board: Board, row_index: usize) -> (r: Row)
    requires
        row_index < 4,
    ensures
        r == row_of(board, row_index as u64),
{
    (board >> ((row_index as u64) * 16)) as u16
}

/// Sets a single row on the board.
#[inline]
pub fn set_row(board: &mut Board, row_index: usize, row_val: Row)
    requires
        row_index < 4,
    ensures
        forall|i: u64| i < 4 && i != row_index ==> row_of(*final(board), i) == row_of(*old(board), i),
        row_of(*final(board), row_index as u64) == row_val,
{
    let shift: u64 = (row_index as u64) * 16;
    // Clear the 16 bits for the target row, then set the new row value.
    let cleared: u64 = *board & !(0xFFFF_u64 << shift);
    let updated: u64 = cleared | ((row_val as u64) << shift);
    proof {
        lemma_set_row_bits(*board, updated, row_index as u64, row_val);
    }
    *board = updated;
}

/// Reads the exponent nibble of cell `(r, c)`.
#[inline]
pub fn get_tile(board: Board, r: usize, c: usize) -> (t: u64)
    requires
        r < 4,
        c < 4,
    ensures
        t == nib(board, (4 * r + c) as u64),
{
    (board >> (((4 * r + c) as u64) * 4)) & 0xF
}

/// Reads the exponent nibble at flat cell index `i` (row major).
#[inline]
pub fn tile_at(board: Board, i: usize) -> (t: u64)
    requires
        i < 16,
    ensures
        t == nib(board, i as u64),
{
    (board >> ((i as u64) * 4)) & 0xF
}

/// Transposes the board, so that the left-move logic can serve for vertical
/// moves.
pub fn transpose(board: Board) -> (t: Board)
    ensures
        t == transpose_spec(board),
{
    let n0 = tile_at(board, 0);
    let n1 = tile_at(board, 1);
    let n2 = tile_at(board, 2);
    let n3 = tile_at(board, 3);
    let n4 = tile_at(board, 4);
    let n5 = tile_at(board, 5);
    let n6 = tile_at(board, 6);
    let n7 = tile_at(board, 7);
    let n8 = tile_at(board, 8);
    let n9 = tile_at(board, 9);
    let n10 = tile_at(board, 10);
    let n11 = tile_at(board, 11);
    let n12 = tile_at(board, 12);
    let n13 = tile_at(board, 13);
    let n14 = tile_at(board, 14);
    let n15 = tile_at(board, 15);
    (n0 << 0u64) | (n1 << 16u64) | (n2 << 32u64) | (n3 << 48u64) | (n4 << 4u64) | (n5 << 20u64)
        | (n6 << 36u64) | (n7 << 52u64) | (n8 << 8u64) | (n9 << 24u64) | (n10 << 40u64) | (n11
        << 56u64) | (n12 << 12u64) | (n13 << 28u64) | (n14 << 44u64) | (n15 << 60u64)
}

/// Reverses the four nibbles of a single row.
#[inline]
pub fn reverse_row(row: Row) -> (r: Row)
    ensures
        r == rev_row_spec(row),
{
    ((row & 0xF000) >> 12u16) | ((row & 0x0F00) >> 4u16) | ((row & 0x00F0) << 4u16) | ((row
        & 0x000F) << 12u16)
}

/// Reverses every row of the board in place (no row-order swap).
pub fn reverse(board: Board) -> (r: Board)
    ensures
        r == reverse_spec(board),
{
    let mut new_board: Board = 0;
    proof {
        lemma_zero_board_rows(0);
        lemma_zero_board_rows(1);
        lemma_zero_board_rows(2);
        lemma_zero_board_rows(3);
    }
    for i in 0..4
        invariant
            forall|j: u64| j < i ==> row_of(new_board, j) == rev_row_spec(row_of(board, j)),
            forall|j: u64| i <= j < 4 ==> row_of(new_board, j) == 0,
    {
        set_row(&mut new_board, i, reverse_row(get_row(board, i)));
    }
    proof {
        lemma_reverse_rows(board, 0);
        lemma_reverse_rows(board, 1);
        lemma_reverse_rows(board, 2);
        lemma_reverse_rows(board, 3);
        lemma_board_eq_by_rows(new_board, reverse_spec(board));
    }
    new_board
}

/// The number of empty cells among the first `n` cell indices.
pub open spec fn empties_upto(b: Board, n: int) -> int
    decreases n,
{
    if n <= 0 {
        0
    } else {
        empties_upto(b, n - 1) + if nib(b, (n - 1) as u64) == 0 {
            1int
        } else {
            0int
        }
    }
}

/// The number of empty cells on the board, a value in `0..=16`.
pub open spec fn empty_count(b: Board) -> int {
    empties_upto(b, 16)
}

/// Partial empty-cell counts never exceed the number of cells scanned.
pub proof fn lemma_empties_upto_bound(b: Board, n: int)
    requires
        0 <= n,
    ensures
        0 <= empties_upto(b, n) <= n,
    decreases n,
{
    if n > 0 {
        lemma_empties_upto_bound(b, n - 1);
    }
}

/// Counts the number of empty cells (cells with value 0).
pub fn count_empty(board: Board) -> (n: u32)
    ensures
        n == empty_count(board),
        n <= 16,
{
    let mut count: u32 = 0;
    for i in 0..16
        invariant
            count == empties_upto(board, i as int),
            count <= i,
    {
        if tile_at(board, i) == 0 {
            count += 1;
        }
    }
    count
}

/// The face value carried by an exponent nibble: `0` for an empty cell,
/// `2^e` for a tile nibble `e`.
pub open spec fn face_spec(e: u64) -> u32
    recommends
        e < 16,
{
    if e == 0 {
        0u32
    } else {
        pow2(e as nat) as u32
    }
}

/// A flat input value the codec accepts: `0`, or a power of two from `2` up
/// to `32768` (the largest face value a nibble can carry).
pub open spec fn valid_tile(v: u32) -> bool {
    v == 0 || (exists|e: u64| 1 <= e < 16 && v == face_spec(e))
}

/// A flat 16-cell grid of acceptable face values.
pub open spec fn valid_tiles(t: Seq<u32>) -> bool {
    t.len() == 16 && forall|i: int| 0 <= i < 16 ==> valid_tile(t[i])
}

/// The floor of the base-two logarithm.
pub open spec fn log2_spec(v: nat) -> nat
    decreases v,
{
    if v <= 1 {
        0
    } else {
        1 + log2_spec((v / 2) as nat)
    }
}

/// The exponent nibble a face value encodes to (`0` stays `0`).
pub open spec fn exp_of_tile(v: u32) -> u64 {
    log2_spec(v as nat) as u64
}

/// `log2_spec` inverts `pow2`.
proof fn lemma_log2_pow2(e: nat)
    ensures
        log2_spec(pow2(e)) == e,
    decreases e,
{
    lemma2_to64();
    if e > 0 {
        lemma_pow2_unfold(e);
        lemma_pow2_strictly_increases(0, e);
        assert(pow2(e) > 1);
        assert(pow2(e) / 2 == pow2((e - 1) as nat));
        assert(log2_spec(pow2(e)) == 1 + log2_spec(pow2(e) / 2));
        lemma_log2_pow2((e - 1) as nat);
    }
}

/// Sixteen nibble values assembled into one packed board, low cell first.
pub open spec fn pack_nibs16(s: Seq<u64>) -> int
    recommends
        s.len() == 16,
{
    s[0] + 0x10 * s[1] + 0x100 * s[2] + 0x1000 * s[3] + 0x1_0000 * s[4] + 0x10_0000 * s[5]
        + 0x100_0000 * s[6] + 0x1000_0000 * s[7] + 0x1_0000_0000 * s[8] + 0x10_0000_0000 * s[9]
        + 0x100_0000_0000 * s[10] + 0x1000_0000_0000 * s[11] + 0x1_0000_0000_0000 * s[12]
        + 0x10_0000_0000_0000 * s[13] + 0x100_0000_0000_0000 * s[14] + 0x1000_0000_0000_0000
        * s[15]
}

/// The packed board a valid flat grid encodes to.
pub open spec fn encode_spec(t: Seq<u32>) -> Board
    recommends
        valid_tiles(t),
{
    pack_nibs16(Seq::new(16, |i: int| exp_of_tile(t[i]))) as u64
}

/// The flat grid of face values a packed board decodes to.
pub open spec fn decode_spec(b: Board) -> Seq<u32> {
    Seq::new(16, |i: int| face_spec(nib(b, i as u64)))
}

/// Packing sixteen nibble values and reading one back returns that value.
proof fn lemma_pack_nibs(
    v: u64,
    n0: u64,
    n1: u64,
    n2: u64,
    n3: u64,
    n4: u64,
    n5: u64,
    n6: u64,
    n7: u64,
    n8: u64,
    n9: u64,
    n10: u64,
    n11: u64,
    n12: u64,
    n13: u64,
    n14: u64,
    n15: u64,
)
    by (bit_vector)
    requires
        n0 < 16 && n1 < 16 && n2 < 16 && n3 < 16 && n4 < 16 && n5 < 16 && n6 < 16 && n7 < 16,
        n8 < 16 && n9 < 16 && n10 < 16 && n11 < 16 && n12 < 16 && n13 < 16 && n14 < 16 && n15
            < 16,
        v == (n0 + 0x10 * n1 + 0x100 * n2 + 0x1000 * n3 + 0x1_0000 * n4 + 0x10_0000 * n5
            + 0x100_0000 * n6 + 0x1000_0000 * n7 + 0x1_0000_0000 * n8 + 0x10_0000_0000 * n9
            + 0x100_0000_0000 * n10 + 0x1000_0000_0000 * n11 + 0x1_0000_0000_0000 * n12
            + 0x10_0000_0000_0000 * n13 + 0x100_0000_0000_0000 * n14 + 0x1000_0000_0000_0000
            * n15) as u64,
    ensures
        nib(v, 0) == n0 && nib(v, 1) == n1 && nib(v, 2) == n2 && nib(v, 3) == n3,
        nib(v, 4) == n4 && nib(v, 5) == n5 && nib(v, 6) == n6 && nib(v, 7) == n7,
        nib(v, 8) == n8 && nib(v, 9) == n9 && nib(v, 10) == n10 && nib(v, 11) == n11,
        nib(v, 12) == n12 && nib(v, 13) == n13 && nib(v, 14) == n14 && nib(v, 15) == n15,
{
}

/// Two boards with the same sixteen nibbles are the same board.
proof fn lemma_board_eq_by_nibs(a: Board, b: Board)
    by (bit_vector)
    requires
        nib(a, 0) == nib(b, 0) && nib(a, 1) == nib(b, 1) && nib(a, 2) == nib(b, 2) && nib(a, 3)
            == nib(b, 3),
        nib(a, 4) == nib(b, 4) && nib(a, 5) == nib(b, 5) && nib(a, 6) == nib(b, 6) && nib(a, 7)
            == nib(b, 7),
        nib(a, 8) == nib(b, 8) && nib(a, 9) == nib(b, 9) && nib(a, 10) == nib(b, 10) && nib(a, 11)
            == nib(b, 11),
        nib(a, 12) == nib(b, 12) && nib(a, 13) == nib(b, 13) && nib(a, 14) == nib(b, 14) && nib(
            a,
            15,
        ) == nib(b, 15),
    ensures
        a == b,
{
}

/// An empty board has all-zero nibbles.
proof fn lemma_nib_zero(j: u64)
    by (bit_vector)
    ensures
        nib(0u64, j) == 0,
{
}

/// Placing a nibble on an empty cell leaves every other cell unchanged.
proof fn lemma_nib_or_shift(b: Board, t: u64, k: u64, j: u64)
    by (bit_vector)
    requires
        t < 16,
        k < 16,
        j < 16,
        nib(b, k) == 0,
    ensures
        nib(b | (t << ((4 * k) as u64)), j) == if j == k {
            t
        } else {
            nib(b, j)
        },
{
}

/// Relates the pack of the sixteen exponents of a grid to `encode_spec`.
proof fn lemma_encode_spec_nibs(t: Seq<u32>)
    requires
        t.len() == 16,
        forall|i: int| 0 <= i < 16 ==> exp_of_tile(t[i]) < 16,
    ensures
        forall|i: u64| i < 16 ==> #[trigger] nib(encode_spec(t), i) == exp_of_tile(t[i as int]),
{
    let s = Seq::new(16, |i: int| exp_of_tile(t[i]));
    assert(0 <= pack_nibs16(s) < 0x1_0000_0000_0000_0000) by {
        assert(s[0] < 16 && s[1] < 16 && s[2] < 16 && s[3] < 16 && s[4] < 16 && s[5] < 16 && s[6]
            < 16 && s[7] < 16 && s[8] < 16 && s[9] < 16 && s[10] < 16 && s[11] < 16 && s[12] < 16
            && s[13] < 16 && s[14] < 16 && s[15] < 16);
    }
    lemma_pack_nibs(
        encode_spec(t),
        s[0],
        s[1],
        s[2],
        s[3],
        s[4],
        s[5],
        s[6],
        s[7],
        s[8],
        s[9],
        s[10],
        s[11],
        s[12],
        s[13],
        s[14],
        s[15],
    );
}

/// The exponent of a face value, or `None` when the value is not a power of
/// two that a nibble can carry.
fn exp_of_value(v: u32) -> (r: Option<u8>)
    requires
        v != 0,
    ensures
        match r {
            Some(e) => 1 <= e < 16 && v == face_spec(e as u64),
            None => forall|e: u64| 1 <= e < 16 ==> v != face_spec(e),
        },
{
    for e in 1..16u8
        invariant
            v != 0,
            forall|k: u64| 1 <= k < e ==> v != face_spec(k),
    {
        let p: u32 = 1u32 << (e as u32);
        proof {
            lemma2_to64();
            lemma_pow2_strictly_increases(e as nat, 17);
            lemma_u32_shl_is_mul(1u32, e as u32);
        }
        if p == v {
            return Some(e);
        }
    }
    None
}

/// Converts a flat row-major grid of face values into a packed board.
///
/// Rejects the grid (`None`) unless it holds exactly sixteen values, each
/// `0` or a power of two between `2` and `32768`.
pub fn encode(tiles: &Vec<u32>) -> (r: Option<Board>)
    ensures
        r is Some <==> valid_tiles(tiles@),
        r is Some ==> r == Some(encode_spec(tiles@)),
{
    if tiles.len() != 16 {
        return None;
    }
    let mut board: Board = 0;
    proof {
        assert forall|j: u64| j < 16 implies #[trigger] nib(0u64, j) == 0 by {
            lemma_nib_zero(j);
        }
    }
    for i in 0..16
        invariant
            tiles@.len() == 16,
            forall|j: int| 0 <= j < i ==> valid_tile(tiles@[j]),
            forall|j: u64| j < i ==> #[trigger] nib(board, j) == exp_of_tile(tiles@[j as int]),
            forall|j: u64| i <= j < 16 ==> #[trigger] nib(board, j) == 0,
    {
        let v = tiles[i];
        let e: u8 = if v == 0 {
            0u8
        } else {
            match exp_of_value(v) {
                Some(e) => e,
                None => {
                    return None;
                },
            }
        };
        proof {
            if v != 0 {
                lemma2_to64();
                lemma_pow2_strictly_increases(e as nat, 32);
                assert(v as nat == pow2(e as nat));
                lemma_log2_pow2(e as nat);
            }
            assert(exp_of_tile(v) == e);
        }
        let old_board: Ghost<Board> = Ghost(board);
        board = board | ((e as u64) << ((i as u64) * 4));
        proof {
            assert forall|j: u64| j < 16 implies #[trigger] nib(board, j) == if j == i as u64 {
                e as u64
            } else {
                nib(old_board@, j)
            } by {
                lemma_nib_or_shift(old_board@, e as u64, i as u64, j);
            }
        }
    }
    proof {
        assert(valid_tiles(tiles@));
        assert forall|j: int| 0 <= j < 16 implies exp_of_tile(tiles@[j]) < 16 by {
            assert(nib(board, j as u64) == exp_of_tile(tiles@[j]));
            lemma_nib_bound(board, j as u64);
        }
        lemma_encode_spec_nibs(tiles@);
        assert forall|j: u64| j < 16 implies #[trigger] nib(board, j) == nib(
            encode_spec(tiles@),
            j,
        ) by {
            assert(nib(board, j) == exp_of_tile(tiles@[j as int]));
        }
        lemma_board_eq_by_nibs(board, encode_spec(tiles@));
    }
    Some(board)
}

/// Converts a packed board back into the flat row-major grid of face values.
pub fn decode(board: Board) -> (r: Vec<u32>)
    ensures
        r@ == decode_spec(board),
        r@.len() == 16,
{
    let mut out: Vec<u32> = Vec::new();
    for i in 0..16
        invariant
            out@.len() == i,
            forall|j: int| 0 <= j < i ==> out@[j] == face_spec(nib(board, j as u64)),
    {
        let e = tile_at(board, i);
        proof {
            lemma_nib_bound(board, i as u64);
        }
        let face: u32 = if e == 0 {
            0u32
        } else {
            proof {
                lemma_pow2_strictly_increases(e as nat, 17);
                lemma2_to64();
                lemma_u32_shl_is_mul(1u32, e as u32);
            }
            1u32 << (e as u32)
        };
        out.push(face);
    }
    proof {
        assert(out@ =~= decode_spec(board));
    }
    out
}

/// Encoding a valid flat grid and decoding the result reproduces the grid:
/// the codec loses nothing on grids made of zeros and in-range powers of two.
pub proof fn lemma_codec_round_trip(t: Seq<u32>)
    requires
        valid_tiles(t),
    ensures
        decode_spec(encode_spec(t)) == t,
{
    assert forall|i: int| 0 <= i < 16 implies exp_of_tile(t[i]) < 16 by {
        lemma_exp_of_valid_tile(t[i]);
    }
    lemma_encode_spec_nibs(t);
    assert forall|i: int| 0 <= i < 16 implies decode_spec(encode_spec(t))[i] == t[i] by {
        lemma_exp_of_valid_tile(t[i]);
        assert(nib(encode_spec(t), i as u64) == exp_of_tile(t[i as u64 as int]));
    }
    assert(decode_spec(encode_spec(t)) =~= t);
}

/// A valid face value decodes from its own exponent nibble.
proof fn lemma_exp_of_valid_tile(v: u32)
    requires
        valid_tile(v),
    ensures
        exp_of_tile(v) < 16,
        face_spec(exp_of_tile(v)) == v,
{
    if v == 0 {
    } else {
        let e = choose|e: u64| 1 <= e < 16 && v == face_spec(e);
        assert(v == pow2(e as nat) as u32);
        lemma_pow2_strictly_increases(e as nat, 32);
        lemma2_to64();
        assert(v as nat == pow2(e as nat));
        lemma_log2_pow2(e as nat);
    }
}

proof fn lemma_set_row_bits(b: Board, updated: Board, k: u64, v: Row)
    by (bit_vector)
    requires
        k < 4,
        updated == (b & !(0xFFFF_u64 << ((k * 16) as u64))) | ((v as u64) << ((k * 16) as u64)),
    ensures
        forall|i: u64| i < 4 && i != k ==> #[trigger] row_of(updated, i) == row_of(b, i),
        row_of(updated, k) == v,
{
}

} // verus!
