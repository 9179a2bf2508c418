use ai2048::board::{count_empty, encode};
use ai2048::engine::{execute_move, move_board};
use ai2048::eval::{evaluate_board, get_max_tile_bitboard, monotonicity_score, smoothness_score};
use ai2048::search::find_best_move;
use ai2048::tables::MoveTables;

fn board_of(tiles: &[u32; 16]) -> u64 {
    encode(&tiles.to_vec()).unwrap()
}

#[test]
fn test_horizontal_moves() {
    let tables = MoveTables::new();
    // Board:
    // 2 2 0 0
    // 4 4 0 0
    let board = board_of(&[
        2, 2, 0, 0, //
        4, 4, 0, 0, //
        0, 0, 0, 0, //
        0, 0, 0, 0,
    ]);

    // Expected after move left:
    // 4 0 0 0
    // 8 0 0 0
    let expected_left_board = board_of(&[
        4, 0, 0, 0, //
        8, 0, 0, 0, //
        0, 0, 0, 0, //
        0, 0, 0, 0,
    ]);
    let (left_board, left_score) = execute_move(&tables, board, 2);
    assert_eq!(left_board, expected_left_board);
    assert_eq!(left_score, 4 + 8);

    // Expected after move right:
    // 0 0 0 4
    // 0 0 0 8
    let expected_right_board = board_of(&[
        0, 0, 0, 4, //
        0, 0, 0, 8, //
        0, 0, 0, 0, //
        0, 0, 0, 0,
    ]);
    let (right_board, right_score) = execute_move(&tables, board, 3);
    assert_eq!(right_board, expected_right_board);
    assert_eq!(right_score, 4 + 8);
}

#[test]
fn test_vertical_moves() {
    let tables = MoveTables::new();
    // Board:
    // 2 4 0 0
    // 2 4 0 0
    let board = board_of(&[
        2, 4, 0, 0, //
        2, 4, 0, 0, //
        0, 0, 0, 0, //
        0, 0, 0, 0,
    ]);

    // Expected after move up:
    // 4 8 0 0
    // 0 0 0 0
    let expected_up_board = board_of(&[
        4, 8, 0, 0, //
        0, 0, 0, 0, //
        0, 0, 0, 0, //
        0, 0, 0, 0,
    ]);
    let (up_board, up_score) = execute_move(&tables, board, 0);
    assert_eq!(up_board, expected_up_board);
    assert_eq!(up_score, 4 + 8);
}

#[test]
fn test_find_best_move_simple() {
    let tables = MoveTables::new();
    // A board where only horizontal moves do anything.
    let board = board_of(&[
        2, 2, 0, 0, //
        0, 0, 0, 0, //
        0, 0, 0, 0, //
        0, 0, 0, 0,
    ]);
    // Moving left merges, right slides, up/down do nothing.
    let best_move = find_best_move(&tables, board, 3);
    // Expectimax should prefer the merge.
    assert_eq!(best_move, 2); // 2 = left
}

#[test]
fn blocked_board_returns_default_direction() {
    let tables = MoveTables::new();
    // A full board with no equal neighbours anywhere: every direction is
    // a no-op, so the documented default direction 0 (up) comes back.
    let board = board_of(&[
        2, 4, 2, 4, //
        4, 2, 4, 2, //
        2, 4, 2, 4, //
        4, 2, 4, 2,
    ]);
    assert_eq!(count_empty(board), 0);
    for dir in 0..4u32 {
        let (moved, score) = execute_move(&tables, board, dir);
        assert_eq!(moved, board);
        assert_eq!(score, 0);
    }
    assert_eq!(find_best_move(&tables, board, 4), 0);
}

#[test]
fn left_move_is_idempotent_after_settling() {
    let tables = MoveTables::new();
    let board = board_of(&[
        2, 2, 0, 0, //
        4, 4, 0, 0, //
        0, 0, 0, 0, //
        0, 0, 0, 0,
    ]);
    let (once, _) = execute_move(&tables, board, 2);
    let (twice, second_score) = execute_move(&tables, once, 2);
    assert_eq!(twice, once);
    assert_eq!(second_score, 0);
}

#[test]
fn merge_can_create_a_new_pair() {
    let tables = MoveTables::new();
    // [4, 4, 8, 0] slides to [8, 8, 0, 0]: the merge leaves a fresh pair
    // behind, so a second left move still has work to do.
    let board = board_of(&[
        4, 4, 8, 0, //
        0, 0, 0, 0, //
        0, 0, 0, 0, //
        0, 0, 0, 0,
    ]);
    let (once, first_score) = execute_move(&tables, board, 2);
    assert_eq!(
        once,
        board_of(&[
            8, 8, 0, 0, //
            0, 0, 0, 0, //
            0, 0, 0, 0, //
            0, 0, 0, 0,
        ])
    );
    assert_eq!(first_score, 8);
    let (twice, second_score) = execute_move(&tables, once, 2);
    assert_eq!(
        twice,
        board_of(&[
            16, 0, 0, 0, //
            0, 0, 0, 0, //
            0, 0, 0, 0, //
            0, 0, 0, 0,
        ])
    );
    assert_eq!(second_score, 16);
}

#[test]
fn move_board_matches_execute_move() {
    let tables = MoveTables::new();
    let board = board_of(&[
        2, 2, 0, 0, //
        4, 4, 0, 0, //
        0, 0, 0, 0, //
        0, 0, 0, 0,
    ]);
    for dir in 0..4u8 {
        assert_eq!(
            move_board(&tables, board, dir),
            execute_move(&tables, board, dir as u32)
        );
    }
    // An unknown direction code is a documented no-op.
    assert_eq!(move_board(&tables, board, 9), (board, 0));
    assert_eq!(execute_move(&tables, board, 9), (board, 0));
}

#[test]
fn evaluate_empty_board() {
    // Empty board: no monotonicity or smoothness penalties, no tiles,
    // sixteen empty cells: 27 * round(100 * ln(17)) = 27 * 283.
    assert_eq!(evaluate_board(0), 27 * 283);
}

#[test]
fn evaluate_single_tile() {
    // One 2-tile in a corner: mono and smoothness stay 0 (no nonzero
    // neighbour pairs), 15 empty cells give 27 * 277, max exponent 1
    // gives 1000.
    let board = board_of(&[
        2, 0, 0, 0, //
        0, 0, 0, 0, //
        0, 0, 0, 0, //
        0, 0, 0, 0,
    ]);
    assert_eq!(monotonicity_score(board), 0);
    assert_eq!(smoothness_score(board), 0);
    assert_eq!(get_max_tile_bitboard(board), 1);
    assert_eq!(evaluate_board(board), 27 * 277 + 1000);
}

#[test]
fn evaluate_is_weighted_sum_of_sub_scores() {
    let board = board_of(&[
        2, 4, 8, 16, //
        32, 2, 0, 0, //
        2, 0, 4, 0, //
        0, 0, 0, 128,
    ]);
    let mono = monotonicity_score(board);
    let smooth = smoothness_score(board);
    let empty = count_empty(board) as i64;
    let max_tile = get_max_tile_bitboard(board) as i64;
    // round(100 * ln(1 + 7)) = 208
    assert_eq!(empty, 7);
    let empty_log: i64 = 208;
    assert_eq!(
        evaluate_board(board),
        4000 * mono + 100 * smooth + 27 * empty_log + 1000 * max_tile
    );
}

#[test]
fn smoothness_counts_adjacent_differences() {
    // 2 8 . .    exponents 1, 3 differ by 2 horizontally;
    // 2 . . .    2 and 2 differ by 0 vertically.
    let board = board_of(&[
        2, 8, 0, 0, //
        2, 0, 0, 0, //
        0, 0, 0, 0, //
        0, 0, 0, 0,
    ]);
    assert_eq!(smoothness_score(board), -2);
}

#[test]
fn deeper_search_still_prefers_the_merge() {
    let tables = MoveTables::new();
    let board = board_of(&[
        2, 2, 0, 0, //
        0, 0, 0, 0, //
        0, 0, 0, 0, //
        0, 0, 0, 0,
    ]);
    assert_eq!(find_best_move(&tables, board, 4), 2);
}
