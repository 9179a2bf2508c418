//! Depth-bounded expectimax search: MAX nodes take the best of the four
//! directions, CHANCE nodes average over every possible tile spawn (a `2`
//! with weight 9, a `4` with weight 1, out of 10), and depth 0 defers to
//! the heuristic evaluator.  One transposition table, scoped to a single
//! top-level search call, memoizes evaluated nodes; its key combines the
//! board with the depth and the node kind, so a cached value is exactly
//! the value the pure recursion would compute.

use std::collections::HashMap;
use vstd::prelude::*;

verus! {

broadcast use vstd::std_specs::hash::group_hash_axioms;

use crate::Board;
use crate::board::count_empty;
use crate::board::empties_upto;
use crate::board::empty_count;
use crate::board::lemma_empties_upto_bound;
use crate::board::nib;
use crate::board::tile_at;
use crate::engine::execute_move;
use crate::engine::move_result_spec;
use crate::eval::eval_spec;
use crate::eval::lemma_eval_bounds;
use crate::eval::evaluate_board;
use crate::tables::MoveTables;
use vstd::arithmetic::div_mod::lemma_div_by_multiple;
use vstd::arithmetic::div_mod::lemma_div_is_ordered;
use vstd::arithmetic::div_mod::lemma_div_nonincreasing;
use vstd::arithmetic::div_mod::lemma_div_pos_is_pos;

/// A transposition table: evaluated search nodes, keyed by board, depth
/// and node kind, scoped to one top-level search call.
pub type TranspositionTable = HashMap<u128, i64>;

/// A direction is legal exactly when it changes the board.
pub open spec fn legal_spec(b: Board, dir: u32) -> bool {
    move_result_spec(b, dir) != b
}

/// The board after a tile of exponent `e` spawns on (empty) cell `i`.
pub open spec fn spawn_spec(b: Board, i: int, e: u64) -> Board {
    b | (e << ((4 * i) as u64))
}

/// Integer division with the quotient rounded towards zero.
pub open spec fn div_trunc(a: int, d: int) -> int
    recommends
        d > 0,
{
    if a >= 0 {
        a / d
    } else {
        -((-a) / d)
    }
}

/// The best child value a MAX node finds among directions `0..n`, or
/// `None` when none of them is legal.
pub open spec fn max_child(b: Board, depth: nat, n: int) -> Option<int>
    decreases depth, 0int, n,
{
    if n <= 0 {
        None
    } else {
        let prev = max_child(b, depth, n - 1);
        let dir = (n - 1) as u32;
        if depth > 0 && legal_spec(b, dir) {
            let v = expectimax_spec(move_result_spec(b, dir), (depth - 1) as nat, false);
            match prev {
                None => Some(v),
                Some(w) => Some(
                    if v > w {
                        v
                    } else {
                        w
                    },
                ),
            }
        } else {
            prev
        }
    }
}

/// The weighted total a CHANCE node accumulates over the empty cells among
/// the first `n` cell indices: each empty cell contributes nine times the
/// value after a `2` spawns there plus once the value after a `4` does.
pub open spec fn chance_total(b: Board, depth: nat, n: int) -> int
    decreases depth, 1int, n,
{
    if n <= 0 {
        0
    } else {
        let rest = chance_total(b, depth, n - 1);
        if depth > 0 && nib(b, (n - 1) as u64) == 0 {
            rest + 9 * expectimax_spec(spawn_spec(b, n - 1, 1), (depth - 1) as nat, true) + 1
                * expectimax_spec(spawn_spec(b, n - 1, 2), (depth - 1) as nat, true)
        } else {
            rest
        }
    }
}

/// The value of a search node.  Depth 0 short-circuits to the evaluator
/// for either kind.  A MAX node takes the best direction, or 0 as the
/// blocked-position penalty when no direction changes the board.  A CHANCE
/// node averages over all `2 * empty` spawn outcomes, rounding towards
/// zero; on a full board it defers to a MAX node at the same depth, since
/// nothing can spawn and no depth is consumed.
pub open spec fn expectimax_spec(b: Board, depth: nat, player: bool) -> int
    decreases
        depth,
        (if player {
            0int
        } else {
            1int
        }),
        100int,
{
    if depth == 0 {
        eval_spec(b)
    } else if player {
        match max_child(b, depth, 4) {
            None => 0,
            Some(v) => v,
        }
    } else {
        let n = empty_count(b);
        if n == 0 {
            expectimax_spec(b, depth, true)
        } else {
            div_trunc(chance_total(b, depth, 16), 10 * n)
        }
    }
}

/// A quotient rounded towards zero keeps any bound the dividend keeps in
/// multiples of the divisor.
proof fn lemma_div_trunc_bound(a: int, d: int, bound: int)
    requires
        d > 0,
        bound >= 0,
        -(d * bound) <= a <= d * bound,
    ensures
        -bound <= div_trunc(a, d) <= bound,
{
    if a >= 0 {
        lemma_div_pos_is_pos(a, d);
        lemma_div_is_ordered(a, d * bound, d);
        lemma_div_by_multiple(bound, d);
    } else {
        lemma_div_pos_is_pos(-a, d);
        lemma_div_is_ordered(-a, d * bound, d);
        lemma_div_by_multiple(bound, d);
    }
}

/// Every node value stays inside the evaluator's fixed-point range.
pub proof fn lemma_expectimax_bound(b: Board, depth: nat, player: bool)
    ensures
        -30000000 <= expectimax_spec(b, depth, player) <= 30000000,
    decreases
        depth,
        (if player {
            0int
        } else {
            1int
        }),
        100int,
{
    if depth == 0 {
        lemma_eval_bounds(b);
    } else if player {
        lemma_max_child_bound(b, depth, 4);
    } else {
        let n = empty_count(b);
        lemma_empties_upto_bound(b, 16);
        if n == 0 {
            lemma_expectimax_bound(b, depth, true);
        } else {
            lemma_chance_total_bound(b, depth, 16);
            assert(10 * n * 30000000 == 300000000 * n) by (nonlinear_arith);
            lemma_div_trunc_bound(chance_total(b, depth, 16), 10 * n, 30000000);
        }
    }
}

/// A MAX node's best child value, when one exists, is in range.
proof fn lemma_max_child_bound(b: Board, depth: nat, n: int)
    ensures
        match max_child(b, depth, n) {
            None => true,
            Some(v) => -30000000 <= v <= 30000000,
        },
    decreases depth, 0int, n,
{
    if n > 0 {
        lemma_max_child_bound(b, depth, n - 1);
        let dir = (n - 1) as u32;
        if depth > 0 && legal_spec(b, dir) {
            lemma_expectimax_bound(move_result_spec(b, dir), (depth - 1) as nat, false);
        }
    }
}

/// A CHANCE node's partial total is bounded by ten times the range per
/// empty cell counted so far.
proof fn lemma_chance_total_bound(b: Board, depth: nat, n: int)
    requires
        n >= 0,
    ensures
        -300000000 * empties_upto(b, n) <= chance_total(b, depth, n) <= 300000000 * empties_upto(
            b,
            n,
        ),
    decreases depth, 1int, n,
{
    if n > 0 {
        lemma_chance_total_bound(b, depth, n - 1);
        lemma_empties_upto_bound(b, n - 1);
        let e_prev = empties_upto(b, n - 1);
        let rest = chance_total(b, depth, n - 1);
        if depth > 0 && nib(b, (n - 1) as u64) == 0 {
            lemma_expectimax_bound(spawn_spec(b, n - 1, 1), (depth - 1) as nat, true);
            lemma_expectimax_bound(spawn_spec(b, n - 1, 2), (depth - 1) as nat, true);
            let v2 = expectimax_spec(spawn_spec(b, n - 1, 1), (depth - 1) as nat, true);
            let v4 = expectimax_spec(spawn_spec(b, n - 1, 2), (depth - 1) as nat, true);
            assert(chance_total(b, depth, n) == rest + 9 * v2 + v4);
            assert(empties_upto(b, n) == e_prev + 1);
            assert(-300000000 <= 9 * v2 + v4 <= 300000000);
        } else {
            assert(chance_total(b, depth, n) == rest);
            assert(e_prev <= empties_upto(b, n));
        }
    }
}

/// The memo key of a node: the board in the low 64 bits, the depth above
/// it, and the node kind on top, so distinct nodes get distinct keys.
pub open spec fn memo_key(b: Board, depth: u32, player: bool) -> u128 {
    (b + depth * 0x1_0000_0000_0000_0000 + (if player {
        0x1_0000_0000_0000_0000_0000_0000int
    } else {
        0int
    })) as u128
}

/// Distinct nodes have distinct memo keys.
proof fn lemma_memo_key_injective(b1: Board, d1: u32, p1: bool, b2: Board, d2: u32, p2: bool)
    requires
        memo_key(b1, d1, p1) == memo_key(b2, d2, p2),
    ensures
        b1 == b2 && d1 == d2 && p1 == p2,
{
}

/// Every entry of the transposition table is the exact node value of the
/// node its key encodes.
pub open spec fn table_inv(m: Map<u128, i64>) -> bool {
    forall|k: u128|
        #[trigger] m.contains_key(k) ==> exists|b: Board, depth: u32, player: bool|
            k == #[trigger] memo_key(b, depth, player) && m[k] == expectimax_spec(
                b,
                depth as nat,
                player,
            )
}

/// Inserting a node's exact value under its own key preserves the table
/// invariant.
proof fn lemma_table_inv_insert(
    old_m: Map<u128, i64>,
    new_m: Map<u128, i64>,
    b: Board,
    depth: u32,
    player: bool,
    v: i64,
)
    requires
        table_inv(old_m),
        new_m == old_m.insert(memo_key(b, depth, player), v),
        v == expectimax_spec(b, depth as nat, player),
    ensures
        table_inv(new_m),
{
    assert forall|k: u128| #[trigger] new_m.contains_key(k) implies exists|
        b2: Board,
        d2: u32,
        p2: bool,
    |
        k == #[trigger] memo_key(b2, d2, p2) && new_m[k] == expectimax_spec(
            b2,
            d2 as nat,
            p2,
        ) by {
        if k == memo_key(b, depth, player) {
            assert(new_m[k] == v);
            assert(k == memo_key(b, depth, player) && new_m[k] == expectimax_spec(
                b,
                depth as nat,
                player,
            ));
        } else {
            assert(old_m.contains_key(k));
            let (b2, d2, p2) = choose|b2: Board, d2: u32, p2: bool|
                k == #[trigger] memo_key(b2, d2, p2) && old_m[k] == expectimax_spec(
                    b2,
                    d2 as nat,
                    p2,
                );
            assert(new_m[k] == old_m[k]);
            assert(k == memo_key(b2, d2, p2) && new_m[k] == expectimax_spec(b2, d2 as nat, p2));
        }
    }
}

/// Evaluates one search node: probes the transposition table, otherwise
/// computes the node as the spec describes, stores the result, and returns
/// it.  Depth 0 defers to the evaluator; a MAX node takes the best legal
/// direction or 0 when blocked; a CHANCE node averages the spawn outcomes,
/// or hands a full board straight to a MAX node at the same depth.
pub fn expectimax(
    tables: &MoveTables,
    board: Board,
    depth: u32,
    is_player_turn: bool,
    table: &mut TranspositionTable,
) -> (score: i64)
    requires
        tables.wf(),
        table_inv(old(table)@),
    ensures
        score == expectimax_spec(board, depth as nat, is_player_turn),
        -30000000 <= score <= 30000000,
        table_inv(final(table)@),
    decreases
        depth,
        (if is_player_turn {
            0int
        } else {
            1int
        }),
{
    let key: u128 = (board as u128) + (depth as u128) * 0x1_0000_0000_0000_0000u128 + (
    if is_player_turn {
        0x1_0000_0000_0000_0000_0000_0000u128
    } else {
        0u128
    });
    proof {
        assert(key == memo_key(board, depth, is_player_turn));
        lemma_expectimax_bound(board, depth as nat, is_player_turn);
    }
    match table.get(&key) {
        Some(v) => {
            let score = *v;
            proof {
                assert(table@.contains_key(key));
                let (b2, d2, p2) = choose|b2: Board, d2: u32, p2: bool|
                    key == #[trigger] memo_key(b2, d2, p2) && table@[key] == expectimax_spec(
                        b2,
                        d2 as nat,
                        p2,
                    );
                lemma_memo_key_injective(board, depth, is_player_turn, b2, d2, p2);
            }
            return score;
        },
        None => {},
    }
    if depth == 0 {
        return evaluate_board(board);
    }
    if is_player_turn {
        // MAX node: the best legal direction, or the blocked penalty.
        let mut best: i64 = i64::MIN;
        let mut moved = false;
        for m in 0..4u32
            invariant
                tables.wf(),
                table_inv(table@),
                depth >= 1,
                match max_child(board, depth as nat, m as int) {
                    None => !moved && best == i64::MIN,
                    Some(w) => moved && best == w && -30000000 <= w <= 30000000,
                },
        {
            let (new_board, _move_score) = execute_move(tables, board, m);
            if new_board != board {
                let v = expectimax(tables, new_board, depth - 1, false, table);
                moved = true;
                if v > best {
                    best = v;
                }
            }
        }
        let score: i64 = if !moved {
            0
        } else {
            best
        };
        let old_map: Ghost<Map<u128, i64>> = Ghost(table@);
        table.insert(key, score);
        proof {
            lemma_table_inv_insert(old_map@, table@, board, depth, is_player_turn, score);
        }
        score
    } else {
        // CHANCE node: average over every possible spawn, or defer to a
        // MAX node at the same depth when nothing can spawn.
        let num_empty = count_empty(board);
        if num_empty == 0 {
            let v = expectimax(tables, board, depth, true, table);
            return v;
        }
        let mut total: i64 = 0;
        for i in 0..16usize
            invariant
                tables.wf(),
                table_inv(table@),
                depth >= 1,
                total == chance_total(board, depth as nat, i as int),
                -300000000 * empties_upto(board, i as int) <= total <= 300000000 * empties_upto(
                    board,
                    i as int,
                ),
        {
            proof {
                lemma_empties_upto_bound(board, i as int);
                lemma_empties_upto_bound(board, i + 1);
            }
            if tile_at(board, i) == 0 {
                let b2 = board | (1u64 << ((i as u64) * 4));
                let b4 = board | (2u64 << ((i as u64) * 4));
                proof {
                    assert(b2 == spawn_spec(board, i as int, 1));
                    assert(b4 == spawn_spec(board, i as int, 2));
                }
                let v2 = expectimax(tables, b2, depth - 1, true, table);
                let v4 = expectimax(tables, b4, depth - 1, true, table);
                total = total + 9 * v2 + v4;
            }
        }
        proof {
            lemma_empties_upto_bound(board, 16);
        }
        let divisor: u64 = 10 * (num_empty as u64);
        let q: i64 = if total >= 0 {
            proof {
                lemma_div_nonincreasing(total as int, divisor as int);
            }
            ((total as u64) / divisor) as i64
        } else {
            let neg: i64 = -total;
            proof {
                lemma_div_nonincreasing(neg as int, divisor as int);
            }
            -(((neg as u64) / divisor) as i64)
        };
        proof {
            assert(q == div_trunc(total as int, divisor as int));
            assert(divisor == 10 * empty_count(board));
            assert(q == expectimax_spec(board, depth as nat, is_player_turn));
        }
        let old_map: Ghost<Map<u128, i64>> = Ghost(table@);
        table.insert(key, q);
        proof {
            lemma_table_inv_insert(old_map@, table@, board, depth, is_player_turn, q);
        }
        q
    }
}

/// The value the search assigns to direction `d` from the root position.
pub open spec fn root_val(b: Board, search_depth: u32, d: u32) -> int
    recommends
        search_depth >= 1,
{
    expectimax_spec(move_result_spec(b, d), (search_depth - 1) as nat, false)
}

/// Picks the best direction for the board by expectimax lookahead: every
/// legal direction (stable order up, down, left, right) is evaluated as a
/// CHANCE node one level down, all sharing one fresh transposition table,
/// and the first direction with the strictly greatest value wins.  When no
/// direction is legal the documented default direction 0 (up) is returned.
pub fn find_best_move(tables: &MoveTables, board: Board, search_depth: u32) -> (best: u32)
    requires
        tables.wf(),
        search_depth >= 1,
    ensures
        best < 4,
        (forall|d: u32| d < 4 ==> !legal_spec(board, d)) ==> best == 0,
        (exists|d: u32| d < 4 && legal_spec(board, d)) ==> {
            &&& legal_spec(board, best)
            &&& forall|d: u32|
                d < 4 && legal_spec(board, d) ==> root_val(board, search_depth, d) <= root_val(
                    board,
                    search_depth,
                    best,
                )
            &&& forall|d: u32|
                d < best && legal_spec(board, d) ==> root_val(board, search_depth, d) < root_val(
                    board,
                    search_depth,
                    best,
                )
        },
{
    let mut best_move: u32 = 0;
    let mut best_score: i64 = i64::MIN;
    let mut table: TranspositionTable = HashMap::with_capacity(100000);
    proof {
        assert(table_inv(table@));
    }
    for m in 0..4u32
        invariant
            tables.wf(),
            search_depth >= 1,
            table_inv(table@),
            best_move < 4,
            if best_score == i64::MIN {
                best_move == 0 && forall|d: u32| d < m ==> !legal_spec(board, d)
            } else {
                &&& best_move < m
                &&& legal_spec(board, best_move)
                &&& best_score == root_val(board, search_depth, best_move)
                &&& -30000000 <= best_score <= 30000000
                &&& forall|d: u32|
                    d < m && legal_spec(board, d) ==> root_val(board, search_depth, d)
                        <= best_score
                &&& forall|d: u32|
                    d < best_move && legal_spec(board, d) ==> root_val(board, search_depth, d)
                        < best_score
            },
    {
        let (new_board, _move_score) = execute_move(tables, board, m);
        if new_board != board {
            let score = expectimax(tables, new_board, search_depth - 1, false, &mut table);
            if score > best_score {
                best_score = score;
                best_move = m;
            }
        }
    }
    best_move
}

} // verus!
