use ai2048::tables::{move_left, move_right, MoveTables};

// Helper to create a row from 4 tile values (0-15)
fn row(a: u16, b: u16, c: u16, d: u16) -> u16 {
    (d << 12) | (c << 8) | (b << 4) | a
}

#[test]
fn test_move_left() {
    let tables = MoveTables::new();

    // No move: [2, 4, 8, 16] -> [2, 4, 8, 16], score 0
    // log2 values: 1, 2, 3, 4
    let r1 = row(1, 2, 3, 4);
    let (res1, score1) = move_left(&tables, r1);
    assert_eq!(res1, row(1, 2, 3, 4));
    assert_eq!(score1, 0);

    // Simple slide: [2, 0, 0, 4] -> [2, 4, 0, 0], score 0
    let r2 = row(1, 0, 0, 2);
    let (res2, score2) = move_left(&tables, r2);
    assert_eq!(res2, row(1, 2, 0, 0));
    assert_eq!(score2, 0);

    // Merge: [2, 2, 0, 0] -> [4, 0, 0, 0], score 4
    let r3 = row(1, 1, 0, 0);
    let (res3, score3) = move_left(&tables, r3);
    assert_eq!(res3, row(2, 0, 0, 0));
    assert_eq!(score3, 4);

    // Merge complex: [4, 4, 4, 4] -> [8, 8, 0, 0], score 16
    let r4 = row(2, 2, 2, 2);
    let (res4, score4) = move_left(&tables, r4);
    assert_eq!(res4, row(3, 3, 0, 0));
    assert_eq!(score4, 8 + 8);

    // Merge with slide: [0, 2, 2, 4] -> [4, 4, 0, 0], score 4
    let r5 = row(0, 1, 1, 2);
    let (res5, score5) = move_left(&tables, r5);
    assert_eq!(res5, row(2, 2, 0, 0));
    assert_eq!(score5, 4);

    // Full row merge: [2, 2, 4, 4] -> [4, 8, 0, 0], score 4+8=12
    let r6 = row(1, 1, 2, 2);
    let (res6, score6) = move_left(&tables, r6);
    assert_eq!(res6, row(2, 3, 0, 0));
    assert_eq!(score6, 4 + 8);
}

#[test]
fn test_move_right() {
    let tables = MoveTables::new();

    // [2, 4, 8, 16] -> [2, 4, 8, 16]
    let r1 = row(1, 2, 3, 4);
    let (res1, score1) = move_right(&tables, r1);
    assert_eq!(res1, row(1, 2, 3, 4));
    assert_eq!(score1, 0);

    // Simple slide: [2, 0, 0, 4] -> [0, 0, 2, 4]
    let r2 = row(1, 0, 0, 2);
    let (res2, score2) = move_right(&tables, r2);
    assert_eq!(res2, row(0, 0, 1, 2));
    assert_eq!(score2, 0);

    // Merge: [0, 0, 2, 2] -> [0, 0, 0, 4], score 4
    let r3 = row(0, 0, 1, 1);
    let (res3, score3) = move_right(&tables, r3);
    assert_eq!(res3, row(0, 0, 0, 2));
    assert_eq!(score3, 4);

    // Merge complex: [2, 2, 4, 4] -> [0, 0, 4, 8], score 12
    let r4 = row(1, 1, 2, 2);
    let (res4, score4) = move_right(&tables, r4);
    assert_eq!(res4, row(0, 0, 2, 3));
    assert_eq!(score4, 4 + 8);
}

#[test]
fn merges_cap_at_top_exponent() {
    // Two 32768 tiles (exponent 15) stay unmerged: a nibble cannot carry
    // a larger tile, so the pair slides together but does not combine.
    let tables = MoveTables::new();
    let r = row(15, 15, 0, 0);
    let (res, score) = move_left(&tables, r);
    assert_eq!(res, row(15, 15, 0, 0));
    assert_eq!(score, 0);

    // One step below the cap still merges normally.
    let r2 = row(14, 14, 0, 0);
    let (res2, score2) = move_left(&tables, r2);
    assert_eq!(res2, row(15, 0, 0, 0));
    assert_eq!(score2, 32768);
}
