use ai2048::board::{count_empty, decode, encode, get_row, get_tile, reverse, set_row, transpose};

// Mirrors the host-side conversion: each nonzero entry of the flat array
// is stored as the truncated base-two logarithm of its value.
fn from_js(board_js: &[f64]) -> u64 {
    let mut board: u64 = 0;
    for r in 0..4 {
        for c in 0..4 {
            let tile_value = board_js[r * 4 + c];
            if tile_value != 0.0 {
                let exponent = tile_value.log2() as u64;
                let shift = (r * 16) + (c * 4);
                board |= exponent << shift;
            }
        }
    }
    board
}

#[test]
fn test_reverse() {
    let js_board = [
        1.0, 2.0, 3.0, 4.0, //
        5.0, 6.0, 7.0, 8.0, //
        9.0, 10.0, 11.0, 12.0, //
        13.0, 14.0, 15.0, 16.0,
    ];
    let board = from_js(&js_board);
    let reversed = reverse(board);

    // Each row is reversed in place; the row order itself does not change.
    let expected_js = [
        4.0, 3.0, 2.0, 1.0, //
        8.0, 7.0, 6.0, 5.0, //
        12.0, 11.0, 10.0, 9.0, //
        16.0, 15.0, 14.0, 13.0,
    ];
    let expected_board = from_js(&expected_js);

    assert_eq!(reversed, expected_board);
}

#[test]
fn test_from_js_and_get_row() {
    let js_board = [
        2.0, 4.0, 8.0, 16.0, //
        32.0, 64.0, 128.0, 256.0, //
        512.0, 1024.0, 2048.0, 4096.0, //
        8192.0, 16384.0, 0.0, 0.0,
    ];
    let board = from_js(&js_board);

    // log2(2)=1, log2(4)=2, log2(8)=3, log2(16)=4
    assert_eq!(get_row(board, 0), 0x4321);
    // log2(32)=5, log2(64)=6, log2(128)=7, log2(256)=8
    assert_eq!(get_row(board, 1), 0x8765);
    // log2(512)=9, log2(1024)=10(A), log2(2048)=11(B), log2(4096)=12(C)
    assert_eq!(get_row(board, 2), 0xCBA9);
    // log2(8192)=13(D), log2(16384)=14(E), 0, 0
    assert_eq!(get_row(board, 3), 0x00ED);
}

#[test]
fn test_transpose() {
    // Create a board:
    // 1 2 3 4
    // 5 6 7 8
    // 9 A B C
    // D E F 0
    let mut board: u64 = 0;
    board |= 0x4321 << 0;
    board |= 0x8765 << 16;
    board |= 0xCBA9 << 32;
    board |= 0x0FED << 48;

    // After transpose:
    // 1 5 9 D
    // 2 6 A E
    // 3 7 B F
    // 4 8 C 0
    let transposed = transpose(board);

    assert_eq!(get_row(transposed, 0), 0xD951);
    assert_eq!(get_row(transposed, 1), 0xEA62);
    assert_eq!(get_row(transposed, 2), 0xFB73);
    assert_eq!(get_row(transposed, 3), 0x0C84);
}

#[test]
fn test_count_empty() {
    let js_board = [
        2.0, 0.0, 8.0, 0.0, // 2 empty
        0.0, 64.0, 128.0, 256.0, // 1 empty
        512.0, 1024.0, 2048.0, 4096.0, // 0 empty
        0.0, 0.0, 0.0, 0.0, // 4 empty
    ];
    let board = from_js(&js_board);
    assert_eq!(count_empty(board), 7);
}

#[test]
fn transpose_twice_is_identity() {
    let mut board: u64 = 0;
    board |= 0x4321 << 0;
    board |= 0x8765 << 16;
    board |= 0xCBA9 << 32;
    board |= 0x0FED << 48;
    assert_eq!(transpose(transpose(board)), board);
}

#[test]
fn reverse_twice_is_identity() {
    let mut board: u64 = 0;
    board |= 0x4321 << 0;
    board |= 0x8765 << 16;
    board |= 0xCBA9 << 32;
    board |= 0x0FED << 48;
    assert_eq!(reverse(reverse(board)), board);
}

#[test]
fn encode_decode_round_trip() {
    let tiles: Vec<u32> = vec![
        2, 4, 8, 16, //
        32, 64, 128, 256, //
        512, 1024, 2048, 4096, //
        8192, 16384, 32768, 0,
    ];
    let board = encode(&tiles).unwrap();
    assert_eq!(decode(board), tiles);

    let sparse: Vec<u32> = vec![2, 2, 0, 0, 4, 4, 0, 0, 0, 0, 0, 0, 0, 0, 0, 0];
    let sparse_board = encode(&sparse).unwrap();
    assert_eq!(decode(sparse_board), sparse);
    assert_eq!(get_row(sparse_board, 0), 0x0011);
    assert_eq!(get_row(sparse_board, 1), 0x0022);
}

#[test]
fn set_row_replaces_one_row() {
    let mut board: u64 = 0;
    board |= 0x4321 << 0;
    board |= 0x8765 << 16;
    set_row(&mut board, 1, 0x000A);
    assert_eq!(get_row(board, 0), 0x4321);
    assert_eq!(get_row(board, 1), 0x000A);
    assert_eq!(get_row(board, 2), 0x0000);
    assert_eq!(get_row(board, 3), 0x0000);
    // Cell (1, 0) now holds the exponent written into the low nibble.
    assert_eq!(get_tile(board, 1, 0), 0xA);
    assert_eq!(get_tile(board, 0, 2), 0x3);
}

#[test]
fn encode_rejects_bad_grids() {
    // Wrong length.
    assert_eq!(encode(&vec![2, 4, 8]), None);
    // Not a power of two.
    let mut tiles: Vec<u32> = vec![0; 16];
    tiles[3] = 3;
    assert_eq!(encode(&tiles), None);
    // 1 is a power of two but not a tile a nibble can carry.
    tiles[3] = 1;
    assert_eq!(encode(&tiles), None);
    // Larger than the biggest representable tile.
    tiles[3] = 65536;
    assert_eq!(encode(&tiles), None);
}
