//! Build-once lookup tables for row moves: for every possible 16-bit row
//! value, the row that a left slide-and-merge produces and the score the
//! merges gain.  The table is an explicit immutable value handed to its
//! callers, so concurrent searches can share one copy read-only.

use vstd::prelude::*;

verus! {

use crate::Row;
use crate::board::rev_row_spec;
use crate::board::lemma_row_nib_bound;
use crate::board::row_nib;
use vstd::arithmetic::power2::lemma2_to64;
use vstd::arithmetic::power2::lemma_pow2_strictly_increases;
use vstd::arithmetic::power2::pow2;
use vstd::bits::lemma_u32_shl_is_mul;

/// The four nibbles of a packed row as a sequence, leftmost cell first.
pub open spec fn row_seq(r: Row) -> Seq<u16> {
    Seq::new(4, |j: int| row_nib(r, j as u64))
}

/// The nonzero tiles of `s` in order: sliding moves every tile over the
/// empty cells without reordering the tiles themselves.
pub open spec fn nonzeros(s: Seq<u16>) -> Seq<u16>
    decreases s.len(),
{
    if s.len() == 0 {
        Seq::empty()
    } else if s[0] == 0 {
        nonzeros(s.skip(1))
    } else {
        seq![s[0]] + nonzeros(s.skip(1))
    }
}

/// One merge pass over the compacted tiles of a row, left to right: each
/// adjacent equal pair merges exactly once into a tile one exponent higher,
/// gaining `2^(e+1)` score, and a tile produced by a merge never merges
/// again with the next original tile in the same pass.  A pair already at
/// the top exponent 15 stays unmerged, since a nibble cannot carry a larger
/// tile.  Returns the merged tiles and the score gained.
pub open spec fn merge_pass(s: Seq<u16>) -> (Seq<u16>, int)
    decreases s.len(),
{
    if s.len() == 0 {
        (Seq::empty(), 0)
    } else if s.len() >= 2 && s[0] == s[1] && s[0] < 15 {
        let rest = merge_pass(s.skip(2));
        (seq![(s[0] + 1) as u16] + rest.0, pow2((s[0] + 1) as nat) + rest.1)
    } else {
        let rest = merge_pass(s.skip(1));
        (seq![s[0]] + rest.0, rest.1)
    }
}

/// The exponents of the tiles a merge pass produces by merging, in order.
pub open spec fn merged_exps(s: Seq<u16>) -> Seq<u16>
    decreases s.len(),
{
    if s.len() == 0 {
        Seq::empty()
    } else if s.len() >= 2 && s[0] == s[1] && s[0] < 15 {
        seq![(s[0] + 1) as u16] + merged_exps(s.skip(2))
    } else {
        merged_exps(s.skip(1))
    }
}

/// The sum of `2^e` over a sequence of exponents.
pub open spec fn pow_sum(s: Seq<u16>) -> int
    decreases s.len(),
{
    if s.len() == 0 {
        0
    } else {
        pow2(s[0] as nat) + pow_sum(s.skip(1))
    }
}

/// The score of a merge pass is exactly the sum of `2^e` over the exponents
/// of the tiles it merged into being.
pub proof fn lemma_merge_score_is_pow_sum(s: Seq<u16>)
    ensures
        merge_pass(s).1 == pow_sum(merged_exps(s)),
    decreases s.len(),
{
    if s.len() == 0 {
    } else if s.len() >= 2 && s[0] == s[1] && s[0] < 15 {
        lemma_merge_score_is_pow_sum(s.skip(2));
        let m = merged_exps(s);
        assert(m[0] == (s[0] + 1) as u16);
        assert(m.skip(1) =~= merged_exps(s.skip(2)));
    } else {
        lemma_merge_score_is_pow_sum(s.skip(1));
    }
}

/// The compacted tiles of a row: nonzero, in range, and no more of them
/// than there were cells.
pub proof fn lemma_nonzeros_bounds(s: Seq<u16>)
    requires
        forall|i: int| 0 <= i < s.len() ==> s[i] < 16,
    ensures
        nonzeros(s).len() <= s.len(),
        forall|i: int| 0 <= i < nonzeros(s).len() ==> 0 < #[trigger] nonzeros(s)[i] < 16,
    decreases s.len(),
{
    if s.len() > 0 {
        lemma_nonzeros_bounds(s.skip(1));
    }
}

/// A merge pass keeps tiles nonzero and in range, never grows the row, and
/// gains a bounded score.
pub proof fn lemma_merge_pass_bounds(s: Seq<u16>)
    requires
        forall|i: int| 0 <= i < s.len() ==> 0 < #[trigger] s[i] < 16,
    ensures
        merge_pass(s).0.len() <= s.len(),
        forall|i: int| 0 <= i < merge_pass(s).0.len() ==> 0 < #[trigger] merge_pass(s).0[i] < 16,
        0 <= merge_pass(s).1 <= 0x8000 * s.len(),
    decreases s.len(),
{
    lemma2_to64();
    if s.len() == 0 {
    } else if s.len() >= 2 && s[0] == s[1] && s[0] < 15 {
        lemma_merge_pass_bounds(s.skip(2));
        if ((s[0] + 1) as nat) < 15 {
            lemma_pow2_strictly_increases((s[0] + 1) as nat, 15);
        }
    } else {
        lemma_merge_pass_bounds(s.skip(1));
    }
}

/// Four tile values padded with empty cells back to a width-4 row.
pub open spec fn pad4(s: Seq<u16>) -> Seq<u16> {
    Seq::new(
        4,
        |j: int|
            if j < s.len() {
                s[j]
            } else {
                0u16
            },
    )
}

/// Four nibble values assembled into one packed row, leftmost cell first.
pub open spec fn pack_row4(s: Seq<u16>) -> int
    recommends
        s.len() == 4,
{
    s[0] + 0x10 * s[1] + 0x100 * s[2] + 0x1000 * s[3]
}

/// The tiles a left slide-and-merge leaves on a row, before packing.
pub open spec fn slide_seq(r: Row) -> Seq<u16> {
    merge_pass(nonzeros(row_seq(r))).0
}

/// The packed row a left slide-and-merge produces.
pub open spec fn slide_result(r: Row) -> Row {
    pack_row4(pad4(slide_seq(r))) as u16
}

/// The score a left slide-and-merge gains on a row.
pub open spec fn slide_score(r: Row) -> int {
    merge_pass(nonzeros(row_seq(r))).1
}

/// Every row nibble is in range.
proof fn lemma_row_seq_bounds(r: Row)
    ensures
        forall|i: int| 0 <= i < 4 ==> #[trigger] row_seq(r)[i] < 16,
{
    assert forall|i: int| 0 <= i < 4 implies #[trigger] row_seq(r)[i] < 16 by {
        lemma_row_nib_bound(r, i as u64);
    }
}

/// The slide of a row keeps at most four tiles, all in range, and its score
/// is bounded by four top-value merges.
pub proof fn lemma_slide_bounds(r: Row)
    ensures
        slide_seq(r).len() <= 4,
        forall|i: int| 0 <= i < slide_seq(r).len() ==> 0 < #[trigger] slide_seq(r)[i] < 16,
        0 <= slide_score(r) <= 0x20000,
{
    lemma_row_seq_bounds(r);
    lemma_nonzeros_bounds(row_seq(r));
    lemma_merge_pass_bounds(nonzeros(row_seq(r)));
}

/// A row on which a merge pass has nothing to do: no two adjacent equal
/// nonzero tiles below the top exponent.
pub open spec fn merge_free_row(r: Row) -> bool {
    forall|j: u64|
        j < 3 ==> !(#[trigger] row_nib(r, j) != 0 && row_nib(r, j) == row_nib(r, (j + 1) as u64)
            && row_nib(r, j) < 15)
}

/// A merge pass over tiles with no mergeable adjacent pair changes nothing
/// and gains nothing.
proof fn lemma_merge_pass_identity(s: Seq<u16>)
    requires
        forall|k: int| 0 <= k < s.len() ==> #[trigger] s[k] != 0,
        forall|k: int| 0 <= k < s.len() - 1 ==> !(#[trigger] s[k] == s[k + 1] && s[k] < 15),
    ensures
        merge_pass(s).0 == s,
        merge_pass(s).1 == 0,
    decreases s.len(),
{
    if s.len() == 0 {
        assert(merge_pass(s).0 =~= s);
    } else {
        lemma_merge_pass_identity(s.skip(1));
        assert(seq![s[0]] + s.skip(1) =~= s);
    }
}

/// Compacting a sequence whose zeros all sit at the tail keeps exactly the
/// nonzero prefix.
proof fn lemma_nonzeros_split(t: Seq<u16>, m: int)
    requires
        0 <= m <= t.len(),
        forall|i: int| 0 <= i < m ==> #[trigger] t[i] != 0,
        forall|i: int| m <= i < t.len() ==> #[trigger] t[i] == 0,
    ensures
        nonzeros(t) == t.take(m),
    decreases t.len(),
{
    if t.len() == 0 {
        assert(nonzeros(t) =~= t.take(m));
    } else if m == 0 {
        lemma_nonzeros_split(t.skip(1), 0);
        assert(nonzeros(t) =~= t.take(0));
    } else {
        lemma_nonzeros_split(t.skip(1), m - 1);
        assert(seq![t[0]] + t.skip(1).take(m - 1) =~= t.take(m));
    }
}

/// Reading the nibbles back from four packed tile values returns them.
proof fn lemma_pack_row4_nibs(v: u16, a: u16, b: u16, c: u16, d: u16)
    by (bit_vector)
    requires
        a < 16 && b < 16 && c < 16 && d < 16,
        v == (a + 0x10 * b + 0x100 * c + 0x1000 * d) as u16,
    ensures
        row_nib(v, 0) == a,
        row_nib(v, 1) == b,
        row_nib(v, 2) == c,
        row_nib(v, 3) == d,
{
}

/// A row is the pack of its own four nibbles.
proof fn lemma_row_pack_ident(r: Row)
    by (bit_vector)
    ensures
        r == (row_nib(r, 0) + 0x10 * row_nib(r, 1) + 0x100 * row_nib(r, 2) + 0x1000 * row_nib(
            r,
            3,
        )) as u16,
{
}

/// The nibbles of a slid row are its merged tiles padded with empties.
pub proof fn lemma_slide_result_nibs(r: Row)
    ensures
        row_seq(slide_result(r)) == pad4(slide_seq(r)),
{
    lemma_slide_bounds(r);
    let p = pad4(slide_seq(r));
    assert(p[0] < 16 && p[1] < 16 && p[2] < 16 && p[3] < 16);
    lemma_pack_row4_nibs(slide_result(r), p[0], p[1], p[2], p[3]);
    assert(row_seq(slide_result(r)) =~= p);
}

/// Sliding a settled row is the identity: a slid row that offers no merge
/// slides to itself and gains no score.
pub proof fn lemma_slide_fixpoint(r: Row)
    requires
        merge_free_row(slide_result(r)),
    ensures
        slide_result(slide_result(r)) == slide_result(r),
        slide_score(slide_result(r)) == 0,
{
    let r1 = slide_result(r);
    let s = slide_seq(r);
    lemma_slide_bounds(r);
    lemma_slide_result_nibs(r);
    let m = s.len() as int;
    lemma_nonzeros_split(pad4(s), m);
    assert(pad4(s).take(m) =~= s);
    assert(nonzeros(row_seq(r1)) == s);
    assert forall|k: int| 0 <= k < s.len() - 1 implies !(#[trigger] s[k] == s[k + 1] && s[k]
        < 15) by {
        assert(row_nib(r1, k as u64) == pad4(s)[k]);
        assert(row_nib(r1, (k + 1) as u64) == pad4(s)[k + 1]);
    }
    lemma_merge_pass_identity(s);
    assert(slide_seq(r1) == s);
    assert(slide_score(r1) == 0);
    assert forall|j: int| 0 <= j < 4 implies #[trigger] pad4(slide_seq(r1))[j] == row_seq(r1)[j]
        by {}
    assert(pad4(slide_seq(r1)) =~= row_seq(r1));
    lemma_row_pack_ident(r1);
    assert(pack_row4(row_seq(r1)) == row_nib(r1, 0) + 0x10 * row_nib(r1, 1) + 0x100 * row_nib(
        r1,
        2,
    ) + 0x1000 * row_nib(r1, 3));
    assert(slide_result(r1) == r1);
}

/// Reads the exponent nibble at position `j` of a packed row.
#[inline]
pub fn row_tile(row: Row, j: usize) -> (t: u16)
    requires
        j < 4,
    ensures
        t == row_nib(row, j as u64),
        t < 16,
{
    proof {
        lemma_row_nib_bound(row, j as u64);
    }
    (row >> ((j as u16) * 4)) & 0xF
}

/// The pre-calculated results of a left slide-and-merge for all 65536
/// possible row values: `move_left_table[row]` is the resulting row and
/// `score_table[row]` the score it gains.
pub struct MoveTables {
    pub move_left_table: Vec<u16>,
    pub score_table: Vec<u32>,
}

impl MoveTables {
    /// A fully built table: one entry per row value, each the slide result
    /// and score of its index.
    pub open spec fn wf(&self) -> bool {
        &&& self.move_left_table@.len() == 0x10000
        &&& self.score_table@.len() == 0x10000
        &&& forall|r: int|
            0 <= r < 0x10000 ==> #[trigger] self.move_left_table@[r] == slide_result(r as u16)
        &&& forall|r: int|
            0 <= r < 0x10000 ==> #[trigger] self.score_table@[r] == slide_score(r as u16)
    }

    /// Simulates a left slide-and-merge on a single row, tile by tile.
    fn slide_and_merge(row: Row) -> (res: (Row, u32))
        ensures
            res.0 == slide_result(row),
            res.1 == slide_score(row),
    {
        // 1. Slide the nonzero tiles to the left.
        let mut tiles: Vec<u16> = Vec::new();
        proof {
            lemma_row_seq_bounds(row);
            assert(row_seq(row).skip(0) =~= row_seq(row));
        }
        for j in 0..4
            invariant
                nonzeros(row_seq(row)) == tiles@ + nonzeros(row_seq(row).skip(j as int)),
                tiles@.len() <= j,
                forall|k: int| 0 <= k < tiles@.len() ==> 0 < #[trigger] tiles@[k] < 16,
        {
            let t = row_tile(row, j);
            proof {
                let s = row_seq(row);
                assert(s.skip(j as int)[0] == s[j as int]);
                assert(s.skip(j as int).skip(1) =~= s.skip(j + 1));
            }
            if t != 0 {
                tiles.push(t);
                proof {
                    let s = row_seq(row);
                    assert(nonzeros(s.skip(j as int)) == seq![t] + nonzeros(s.skip(j + 1)));
                    assert(tiles@ + nonzeros(s.skip(j + 1)) =~= (tiles@.drop_last() + seq![t])
                        + nonzeros(s.skip(j + 1)));
                    assert((tiles@.drop_last() + seq![t]) + nonzeros(s.skip(j + 1))
                        =~= tiles@.drop_last() + (seq![t] + nonzeros(s.skip(j + 1))));
                }
            }
        }
        proof {
            assert(row_seq(row).skip(4) =~= Seq::<u16>::empty());
            assert(nonzeros(row_seq(row)) =~= tiles@);
            lemma_merge_pass_bounds(tiles@);
        }
        let nz: Ghost<Seq<u16>> = Ghost(tiles@);

        // 2. Merge adjacent equal tiles once per scan pass.
        let mut out: Vec<u16> = Vec::new();
        let mut score: u32 = 0;
        let mut i: usize = 0;
        proof {
            assert(nz@.skip(0) =~= nz@);
        }
        while i < tiles.len()
            invariant
                nz@ == tiles@,
                i <= tiles@.len() <= 4,
                forall|k: int| 0 <= k < tiles@.len() ==> 0 < #[trigger] tiles@[k] < 16,
                merge_pass(nz@).0 == out@ + merge_pass(nz@.skip(i as int)).0,
                merge_pass(nz@).1 == score + merge_pass(nz@.skip(i as int)).1,
                0 <= score <= 0x8000 * i,
                forall|k: int| 0 <= k < out@.len() ==> 0 < #[trigger] out@[k] < 16,
                out@.len() <= i,
            decreases tiles@.len() - i,
        {
            let suffix: Ghost<Seq<u16>> = Ghost(nz@.skip(i as int));
            proof {
                assert(suffix@.len() == nz@.len() - i);
                assert(suffix@[0] == nz@[i as int]);
                if i + 1 < tiles@.len() {
                    assert(suffix@[1] == nz@[i + 1]);
                }
                lemma_merge_pass_bounds(suffix@);
            }
            let a = tiles[i];
            if i + 1 < tiles.len() && tiles[i + 1] == a && a < 15 {
                let merged: u16 = a + 1;
                let gain: u32 = 1u32 << (merged as u32);
                proof {
                    lemma2_to64();
                    lemma_pow2_strictly_increases(merged as nat, 17);
                    lemma_u32_shl_is_mul(1u32, merged as u32);
                    assert(gain == pow2(merged as nat));
                    assert(suffix@.skip(2) =~= nz@.skip(i + 2));
                    assert(merge_pass(suffix@).0 == seq![merged] + merge_pass(nz@.skip(i + 2)).0);
                    lemma_merge_pass_bounds(nz@.skip(i + 2));
                }
                out.push(merged);
                score = score + gain;
                proof {
                    assert((out@.drop_last() + merge_pass(suffix@).0) =~= out@ + merge_pass(
                        nz@.skip(i + 2),
                    ).0);
                }
                i = i + 2;
            } else {
                proof {
                    assert(suffix@.skip(1) =~= nz@.skip(i + 1));
                    assert(merge_pass(suffix@).0 == seq![a] + merge_pass(nz@.skip(i + 1)).0);
                    lemma_merge_pass_bounds(nz@.skip(i + 1));
                }
                out.push(a);
                proof {
                    assert((out@.drop_last() + merge_pass(suffix@).0) =~= out@ + merge_pass(
                        nz@.skip(i + 1),
                    ).0);
                }
                i = i + 1;
            }
        }
        proof {
            assert(nz@.skip(nz@.len() as int) =~= Seq::<u16>::empty());
            assert(out@ + merge_pass(nz@.skip(nz@.len() as int)).0 =~= out@);
            assert(out@ == slide_seq(row));
            assert(score == slide_score(row));
        }

        // 3. Pack the merged tiles back into a row, padding with empties.
        let e0: u16 = if out.len() > 0 {
            out[0]
        } else {
            0
        };
        let e1: u16 = if out.len() > 1 {
            out[1]
        } else {
            0
        };
        let e2: u16 = if out.len() > 2 {
            out[2]
        } else {
            0
        };
        let e3: u16 = if out.len() > 3 {
            out[3]
        } else {
            0
        };
        let packed: u16 = e0 + e1 * 0x10 + e2 * 0x100 + e3 * 0x1000;
        proof {
            let p = pad4(slide_seq(row));
            assert(p[0] == e0 && p[1] == e1 && p[2] == e2 && p[3] == e3);
            assert(packed == slide_result(row));
        }
        (packed, score)
    }

    /// Builds the full table: the slide result and score for every one of
    /// the 65536 possible row values, stored at the row's own index.
    pub fn new() -> (t: MoveTables)
        ensures
            t.wf(),
    {
        let mut move_left_table: Vec<u16> = Vec::new();
        let mut score_table: Vec<u32> = Vec::new();
        for i in 0..0x10000usize
            invariant
                move_left_table@.len() == i,
                score_table@.len() == i,
                forall|r: int|
                    0 <= r < i ==> #[trigger] move_left_table@[r] == slide_result(r as u16),
                forall|r: int| 0 <= r < i ==> #[trigger] score_table@[r] == slide_score(r as u16),
        {
            let (res, sc) = Self::slide_and_merge(i as u16);
            move_left_table.push(res);
            score_table.push(sc);
        }
        MoveTables { move_left_table, score_table }
    }
}

/// Performs a left move on a row using the pre-calculated lookup table.
#[inline]
pub fn move_left(tables: &MoveTables, row: Row) -> (res: (Row, u32))
    requires
        tables.wf(),
    ensures
        res.0 == slide_result(row),
        res.1 == slide_score(row),
{
    let res = tables.move_left_table[row as usize];
    let score = tables.score_table[row as usize];
    (res, score)
}

/// Performs a right move on a row: reverse, slide left, reverse back.
#[inline]
pub fn move_right(tables: &MoveTables, row: Row) -> (res: (Row, u32))
    requires
        tables.wf(),
    ensures
        res.0 == rev_row_spec(slide_result(rev_row_spec(row))),
        res.1 == slide_score(rev_row_spec(row)),
{
    let reversed = crate::board::reverse_row(row);
    let (new_row, score) = move_left(tables, reversed);
    (crate::board::reverse_row(new_row), score)
}

} // verus!
