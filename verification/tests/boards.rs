use chess_core::board_representation::{
    get_square_bitboard, BitBoard, Coord, PieceCode, Player, Position, StaticBoard, Zerox88Board,
};

fn back_rank(white: bool) -> [PieceCode; 8] {
    if white {
        [
            PieceCode::WR,
            PieceCode::WN,
            PieceCode::WB,
            PieceCode::WQ,
            PieceCode::WK,
            PieceCode::WB,
            PieceCode::WN,
            PieceCode::WR,
        ]
    } else {
        [
            PieceCode::BR,
            PieceCode::BN,
            PieceCode::BB,
            PieceCode::BQ,
            PieceCode::BK,
            PieceCode::BB,
            PieceCode::BN,
            PieceCode::BR,
        ]
    }
}

fn expected_start(file: u8, rank: u8) -> PieceCode {
    match rank {
        0 => back_rank(true)[file as usize],
        1 => PieceCode::WP,
        6 => PieceCode::BP,
        7 => back_rank(false)[file as usize],
        _ => PieceCode::ES,
    }
}

fn assert_disjoint(bit: &BitBoard) {
    for i in 0..12 {
        for j in (i + 1)..12 {
            assert_eq!(bit.main_boards[i] & bit.main_boards[j], 0, "boards {} and {}", i, j);
        }
    }
}

#[test]
fn bitboard_starts_with_the_standard_masks() {
    let bit: BitBoard = BitBoard::new();
    let expected: [u64; 12] = [
        0b11111111 << 48,
        0b01000010 << 56,
        0b00100100 << 56,
        0b10000001 << 56,
        0b00010000 << 56,
        0b00001000 << 56,
        0b11111111 << 8,
        0b01000010,
        0b00100100,
        0b10000001,
        0b00010000,
        0b00001000,
    ];
    assert_eq!(bit.main_boards, expected);
    assert_eq!(bit.en_passant_board, 0);
    assert_disjoint(&bit);
}

#[test]
fn every_board_starts_with_the_standard_position() {
    let bit: BitBoard = BitBoard::new();
    let zerox: Zerox88Board = Zerox88Board::new();
    let pos: Position = Position::new();
    for rank in 0..8u8 {
        for file in 0..8u8 {
            let c: Coord = Coord::new(file, rank);
            assert_eq!(bit.get_square(c), expected_start(file, rank));
            assert_eq!(zerox.get_square(c), expected_start(file, rank));
            assert_eq!(pos.get_square(c), expected_start(file, rank));
        }
    }
}

#[test]
fn zerox88_padding_and_en_passant_start_empty() {
    let zerox: Zerox88Board = Zerox88Board::new();
    for slot in 0..128usize {
        assert_eq!(zerox.en_passant_board[slot], PieceCode::ES);
        if slot % 16 >= 8 {
            assert_eq!(zerox.main_board[slot], PieceCode::ES);
        }
    }
    assert_eq!(zerox.main_board[0x04], PieceCode::WK);
    assert_eq!(zerox.main_board[0x74], PieceCode::BK);
    assert_eq!(zerox.main_board[0x10], PieceCode::WP);
}

#[test]
fn position_starts_with_white_to_move_and_all_rights() {
    let pos: Position = Position::new();
    assert_eq!(pos.current_turn, Player::White);
    assert_eq!(pos.can_castle_kingside, [true, true]);
    assert_eq!(pos.can_castle_queenside, [true, true]);
    assert_eq!(pos.plys_without_capture, 0);
    let by_default: Position = Position::default();
    assert_eq!(
        by_default.piece_centric_board.main_boards,
        pos.piece_centric_board.main_boards
    );
    assert_eq!(
        by_default.square_centric_board.main_board,
        pos.square_centric_board.main_board
    );
}

#[test]
fn starting_position_scenario() {
    let mut pos: Position = Position::new();
    assert_eq!(pos.get_square(Coord::new(2, 7)), PieceCode::BB);
    assert_eq!(pos.get_square(Coord::new(4, 1)), PieceCode::WP);
    pos.set_square(PieceCode::ES, Coord::new(4, 1));
    pos.set_square(PieceCode::WP, Coord::new(4, 3));
    let e2: Coord = Coord::new(4, 1);
    let e4: Coord = Coord::new(4, 3);
    assert_eq!(pos.piece_centric_board.get_square(e2), PieceCode::ES);
    assert_eq!(pos.piece_centric_board.get_square(e4), PieceCode::WP);
    assert_eq!(pos.square_centric_board.get_square(e2), PieceCode::ES);
    assert_eq!(pos.square_centric_board.get_square(e4), PieceCode::WP);
    let bits_before: [u64; 12] = pos.piece_centric_board.main_boards;
    let array_before: [PieceCode; 128] = pos.square_centric_board.main_board;
    pos.apply_own_0x88_board();
    assert_eq!(pos.piece_centric_board.main_boards, bits_before);
    pos.apply_own_bitboard();
    assert_eq!(pos.square_centric_board.main_board, array_before);
    assert_eq!(pos.get_square(e2), PieceCode::ES);
    assert_eq!(pos.get_square(e4), PieceCode::WP);
    assert_disjoint(&pos.piece_centric_board);
}

#[test]
fn bitboard_set_square_adds_without_clearing() {
    let mut bit: BitBoard = BitBoard::new();
    let e7: Coord = Coord::new(4, 6);
    // a white pawn set over the black pawn of e7 leaves both boards holding the square
    bit.set_square(PieceCode::WP, e7);
    let mask: u64 = get_square_bitboard(e7);
    assert_ne!(bit.main_boards[0] & mask, 0);
    assert_ne!(bit.main_boards[6] & mask, 0);
    // the first board that holds the square wins
    assert_eq!(bit.get_square(e7), PieceCode::WP);
    // emptying takes the square from the first board only
    bit.set_square(PieceCode::ES, e7);
    assert_eq!(bit.main_boards[0] & mask, 0);
    assert_ne!(bit.main_boards[6] & mask, 0);
    assert_eq!(bit.get_square(e7), PieceCode::BP);
}

#[test]
fn bitboard_set_square_on_an_empty_square_changes_one_bit() {
    let mut bit: BitBoard = BitBoard::new();
    let before: [u64; 12] = bit.main_boards;
    bit.set_square(PieceCode::BQ, Coord::new(3, 3));
    for i in 0..12 {
        if i == 10 {
            assert_eq!(bit.main_boards[i], before[i] | get_square_bitboard(Coord::new(3, 3)));
        } else {
            assert_eq!(bit.main_boards[i], before[i]);
        }
    }
    // emptying an empty square changes nothing
    bit.set_square(PieceCode::ES, Coord::new(0, 4));
    assert_eq!(bit.main_boards[10], before[10] | get_square_bitboard(Coord::new(3, 3)));
    assert_disjoint(&bit);
}

#[test]
fn zerox88_set_square_overwrites() {
    let mut zerox: Zerox88Board = Zerox88Board::new();
    zerox.set_square(PieceCode::WQ, Coord::new(4, 6));
    assert_eq!(zerox.get_square(Coord::new(4, 6)), PieceCode::WQ);
    assert_eq!(zerox.main_board[0x64], PieceCode::WQ);
    assert_eq!(zerox.get_square(Coord::new(3, 6)), PieceCode::BP);
}

#[test]
fn replace_square_keeps_the_boards_disjoint_and_in_sync() {
    let mut pos: Position = Position::new();
    let e7: Coord = Coord::new(4, 6);
    pos.replace_square(PieceCode::WQ, e7);
    assert_eq!(pos.piece_centric_board.get_square(e7), PieceCode::WQ);
    assert_eq!(pos.square_centric_board.get_square(e7), PieceCode::WQ);
    assert_disjoint(&pos.piece_centric_board);
    assert_eq!(pos.piece_centric_board.main_boards[6], 0b11110111 << 8);
    pos.replace_square(PieceCode::ES, e7);
    assert_eq!(pos.get_square(e7), PieceCode::ES);
    assert_eq!(pos.piece_centric_board.get_square(e7), PieceCode::ES);
}

#[test]
fn reset_restores_the_start() {
    let mut pos: Position = Position::new();
    pos.replace_square(PieceCode::ES, Coord::new(4, 1));
    pos.replace_square(PieceCode::WP, Coord::new(4, 3));
    pos.set_en_passant_board(get_square_bitboard(Coord::new(4, 2)));
    pos.current_turn = Player::Black;
    pos.can_castle_kingside = [false, true];
    pos.can_castle_queenside = [true, false];
    pos.plys_without_capture = 17;
    pos.reset();
    let fresh: Position = Position::new();
    assert_eq!(pos.piece_centric_board.main_boards, fresh.piece_centric_board.main_boards);
    assert_eq!(pos.piece_centric_board.en_passant_board, 0);
    assert_eq!(pos.square_centric_board.main_board, fresh.square_centric_board.main_board);
    assert_eq!(pos.square_centric_board.en_passant_board, [PieceCode::ES; 128]);
    assert_eq!(pos.current_turn, Player::White);
    assert_eq!(pos.can_castle_kingside, [true, true]);
    assert_eq!(pos.can_castle_queenside, [true, true]);
    assert_eq!(pos.plys_without_capture, 0);

    let mut bit: BitBoard = BitBoard::new();
    bit.set_square(PieceCode::ES, Coord::new(0, 0));
    bit.en_passant_board = 5;
    bit.reset();
    assert_eq!(bit.main_boards, BitBoard::new().main_boards);
    assert_eq!(bit.en_passant_board, 0);

    let mut zerox: Zerox88Board = Zerox88Board::new();
    zerox.set_square(PieceCode::ES, Coord::new(0, 0));
    zerox.en_passant_board[0x24] = PieceCode::BK;
    zerox.reset();
    assert_eq!(zerox.main_board, Zerox88Board::new().main_board);
    assert_eq!(zerox.en_passant_board, [PieceCode::ES; 128]);
}

#[test]
fn round_trip_sync_reproduces_the_square_centric_board() {
    let mut board: Zerox88Board = Zerox88Board::new();
    board.set_square(PieceCode::ES, Coord::new(4, 1));
    board.set_square(PieceCode::WP, Coord::new(4, 3));
    board.set_square(PieceCode::BN, Coord::new(0, 0));
    board.set_square(PieceCode::WK, Coord::new(7, 7));
    board.set_square(PieceCode::BQ, Coord::new(3, 4));
    // any marker but the empty one stands for an en passant target
    board.en_passant_board[0x24] = PieceCode::BK;
    board.en_passant_board[0x52] = PieceCode::WP;

    let mut bit: BitBoard = BitBoard::new();
    bit.apply_0x88_board(&board);
    assert_disjoint(&bit);
    assert_eq!(
        bit.en_passant_board,
        get_square_bitboard(Coord::new(4, 2)) | get_square_bitboard(Coord::new(2, 5))
    );

    let mut back: Zerox88Board = Zerox88Board::new();
    back.en_passant_board[0x00] = PieceCode::WQ;
    back.main_board[0x0f] = PieceCode::WQ;
    back.apply_bitboard(&bit);
    for rank in 0..8u8 {
        for file in 0..8u8 {
            let c: Coord = Coord::new(file, rank);
            assert_eq!(back.get_square(c), board.get_square(c));
            assert_eq!(bit.get_square(c), board.get_square(c));
            let slot: usize = (rank as usize) * 16 + file as usize;
            assert_eq!(
                back.en_passant_board[slot] != PieceCode::ES,
                board.en_passant_board[slot] != PieceCode::ES
            );
        }
    }
    // the marker is always a white pawn after the copy, and the padding is empty
    assert_eq!(back.en_passant_board[0x24], PieceCode::WP);
    assert_eq!(back.en_passant_board[0x52], PieceCode::WP);
    assert_eq!(back.main_board[0x0f], PieceCode::ES);
    assert_eq!(back.en_passant_board[0x00], PieceCode::ES);
}

#[test]
fn apply_bitboard_takes_the_last_board_that_holds_a_square() {
    let mut bit: BitBoard = BitBoard::new();
    bit.set_square(PieceCode::WP, Coord::new(4, 6));
    let mut zerox: Zerox88Board = Zerox88Board::new();
    zerox.apply_bitboard(&bit);
    assert_eq!(bit.get_square(Coord::new(4, 6)), PieceCode::WP);
    assert_eq!(zerox.get_square(Coord::new(4, 6)), PieceCode::BP);
}

#[test]
fn position_apply_copies_one_board_only() {
    let mut pos: Position = Position::new();
    let mut other: Zerox88Board = Zerox88Board::new();
    other.set_square(PieceCode::ES, Coord::new(0, 1));
    pos.apply_0x88_board(&other);
    assert_eq!(pos.piece_centric_board.get_square(Coord::new(0, 1)), PieceCode::ES);
    assert_eq!(pos.square_centric_board.get_square(Coord::new(0, 1)), PieceCode::WP);
    assert_eq!(pos.get_square(Coord::new(0, 1)), PieceCode::WP);

    let mut bits: BitBoard = BitBoard::new();
    bits.set_square(PieceCode::ES, Coord::new(7, 6));
    pos.apply_bitboard(&bits);
    assert_eq!(pos.square_centric_board.get_square(Coord::new(7, 6)), PieceCode::ES);
    assert_eq!(pos.piece_centric_board.get_square(Coord::new(7, 6)), PieceCode::BP);
    assert_eq!(pos.current_turn, Player::White);
}

#[test]
fn ascii_pictures_the_start() {
    let expected: &str = "8  ♜ ♞ ♝ ♛ ♚ ♝ ♞ ♜\n\
                          7  ♟ ♟ ♟ ♟ ♟ ♟ ♟ ♟\n\
                          6  . . . . . . . .\n\
                          5  . . . . . . . .\n\
                          4  . . . . . . . .\n\
                          3  . . . . . . . .\n\
                          2  ♙ ♙ ♙ ♙ ♙ ♙ ♙ ♙\n\
                          1  ♖ ♘ ♗ ♕ ♔ ♗ ♘ ♖\n   a b c d e f g h\n";
    assert_eq!(BitBoard::new().ascii(), expected);
    assert_eq!(Zerox88Board::new().ascii(), expected);
    assert_eq!(Position::new().ascii(), expected);
}

#[test]
fn ascii_follows_get_square() {
    let mut pos: Position = Position::new();
    pos.replace_square(PieceCode::ES, Coord::new(4, 1));
    pos.replace_square(PieceCode::WP, Coord::new(4, 3));
    let text: String = pos.ascii();
    let lines: Vec<&str> = text.lines().collect();
    assert_eq!(lines.len(), 9);
    assert_eq!(lines[4], "4  . . . . ♙ . . .");
    assert_eq!(lines[6], "2  ♙ ♙ ♙ ♙ . ♙ ♙ ♙");
    assert_eq!(lines[8], "   a b c d e f g h");
    assert_eq!(pos.piece_centric_board.ascii(), text);
}
