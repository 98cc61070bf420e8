use chess_core::board_representation::{
    empty_array, get_square_bitboard, Coord, PieceCode, Player, Position, StaticBoard,
};
use chess_core::move_generation::{
    attack_board, destination_board, encode_move, generate_legal_moves, generate_moves,
    get_all_pieces_bitboard, get_player_bitboard, MoveFields, PLMoveLUT,
};

fn squares(list: &[(u8, u8)]) -> u64 {
    let mut board: u64 = 0;
    for (file, rank) in list {
        board |= get_square_bitboard(Coord::new(*file, *rank));
    }
    board
}

fn cleared() -> Position {
    let mut pos: Position = Position::new();
    for rank in 0..8u8 {
        for file in 0..8u8 {
            pos.replace_square(PieceCode::ES, Coord::new(file, rank));
        }
    }
    pos
}

fn boards(pos: &Position) -> (u64, u64, u64) {
    let occupied: u64 = get_all_pieces_bitboard(&pos.piece_centric_board);
    let own: u64 = get_player_bitboard(&pos.piece_centric_board, pos.current_turn);
    let pawns: u64 = match pos.current_turn {
        Player::White => pos.piece_centric_board.main_boards[6],
        Player::Black => pos.piece_centric_board.main_boards[0],
    };
    (occupied, own, pawns)
}

#[test]
fn empty_array_is_empty() {
    assert_eq!(empty_array(), [PieceCode::ES; 128]);
}

#[test]
fn attack_boards_at_the_start() {
    let lut: PLMoveLUT = PLMoveLUT::default();
    let pos: Position = Position::new();
    let (occupied, _, _) = boards(&pos);
    // the pawn of e2 attacks d3 and f3, not the squares ahead
    assert_eq!(
        attack_board(&pos, &lut, Coord::new(4, 1), occupied),
        squares(&[(3, 2), (5, 2)])
    );
    assert_eq!(
        attack_board(&pos, &lut, Coord::new(4, 6), occupied),
        squares(&[(3, 5), (5, 5)])
    );
    // the knight of b1 attacks a3, c3 and its own pawn of d2
    assert_eq!(
        attack_board(&pos, &lut, Coord::new(1, 0), occupied),
        squares(&[(0, 2), (2, 2), (3, 1)])
    );
    // the rook of a1 sees its two neighbours
    assert_eq!(
        attack_board(&pos, &lut, Coord::new(0, 0), occupied),
        squares(&[(0, 1), (1, 0)])
    );
    assert_eq!(
        attack_board(&pos, &lut, Coord::new(2, 7), occupied),
        squares(&[(1, 6), (3, 6)])
    );
    assert_eq!(
        attack_board(&pos, &lut, Coord::new(3, 0), occupied),
        squares(&[(2, 0), (4, 0), (2, 1), (3, 1), (4, 1)])
    );
    assert_eq!(
        attack_board(&pos, &lut, Coord::new(4, 0), occupied),
        squares(&[(3, 0), (5, 0), (3, 1), (4, 1), (5, 1)])
    );
    // an empty square attacks nothing
    assert_eq!(attack_board(&pos, &lut, Coord::new(4, 3), occupied), 0);
}

#[test]
fn destination_boards_at_the_start() {
    let lut: PLMoveLUT = PLMoveLUT::default();
    let pos: Position = Position::new();
    let (occupied, own, pawns) = boards(&pos);
    assert_eq!(
        destination_board(&pos, &lut, Coord::new(4, 1), occupied, own, pawns),
        squares(&[(4, 2), (4, 3)])
    );
    assert_eq!(
        destination_board(&pos, &lut, Coord::new(1, 0), occupied, own, pawns),
        squares(&[(0, 2), (2, 2)])
    );
    assert_eq!(destination_board(&pos, &lut, Coord::new(0, 0), occupied, own, pawns), 0);
    assert_eq!(destination_board(&pos, &lut, Coord::new(4, 0), occupied, own, pawns), 0);
}

#[test]
fn destination_board_of_a_pawn_with_everything_around() {
    let lut: PLMoveLUT = PLMoveLUT::default();
    let mut pos: Position = cleared();
    pos.replace_square(PieceCode::BP, Coord::new(3, 3));
    pos.replace_square(PieceCode::WP, Coord::new(4, 3));
    pos.replace_square(PieceCode::WN, Coord::new(2, 2));
    pos.replace_square(PieceCode::BN, Coord::new(4, 2));
    pos.set_en_passant_board(get_square_bitboard(Coord::new(4, 2)));
    pos.current_turn = Player::Black;
    let (occupied, own, pawns) = boards(&pos);
    // d4 pushes to d3 and takes the knight of c3; e3 holds a piece of its own side
    assert_eq!(
        destination_board(&pos, &lut, Coord::new(3, 3), occupied, own, pawns),
        squares(&[(3, 2), (2, 2)])
    );
    // with e3 empty and marked, the pawn takes en passant there
    pos.replace_square(PieceCode::ES, Coord::new(4, 2));
    let (occupied, own, pawns) = boards(&pos);
    assert_eq!(
        destination_board(&pos, &lut, Coord::new(3, 3), occupied, own, pawns),
        squares(&[(3, 2), (2, 2), (4, 2)])
    );
    // without the pawn beside, the mark alone gives nothing
    pos.replace_square(PieceCode::ES, Coord::new(4, 3));
    let (occupied, own, pawns) = boards(&pos);
    assert_eq!(
        destination_board(&pos, &lut, Coord::new(3, 3), occupied, own, pawns),
        squares(&[(3, 2), (2, 2)])
    );
}

#[test]
fn pawns_on_the_outer_ranks_do_not_move() {
    let lut: PLMoveLUT = PLMoveLUT::default();
    let mut pos: Position = cleared();
    pos.replace_square(PieceCode::WP, Coord::new(3, 0));
    pos.replace_square(PieceCode::WP, Coord::new(5, 7));
    pos.replace_square(PieceCode::BN, Coord::new(4, 1));
    let (occupied, own, pawns) = boards(&pos);
    assert_eq!(destination_board(&pos, &lut, Coord::new(3, 0), occupied, own, pawns), 0);
    assert_eq!(destination_board(&pos, &lut, Coord::new(5, 7), occupied, own, pawns), 0);
    assert_eq!(attack_board(&pos, &lut, Coord::new(3, 0), occupied), 0);
    assert!(generate_moves(&pos, &lut).is_empty());
}

#[test]
fn apply_move_to_boards_moves_the_pieces_only() {
    let mut pos: Position = Position::new();
    pos.plys_without_capture = 9;
    let e4: MoveFields = MoveFields {
        start: Coord::new(4, 1),
        arrival: Coord::new(4, 3),
        piece: PieceCode::WP,
        arrival_square: PieceCode::ES,
        capture: false,
        en_passant_capture: false,
        double_pawn_push: true,
        promotion: false,
        kingside_castling: false,
        queenside_castling: false,
        check: false,
        checkmate: false,
        promotion_piece: PieceCode::ES,
    };
    pos.apply_move_to_boards(encode_move(&e4));
    assert_eq!(pos.get_square(Coord::new(4, 1)), PieceCode::ES);
    assert_eq!(pos.get_square(Coord::new(4, 3)), PieceCode::WP);
    assert_eq!(pos.piece_centric_board.get_square(Coord::new(4, 3)), PieceCode::WP);
    assert_eq!(pos.piece_centric_board.en_passant_board, 0);
    assert_eq!(pos.current_turn, Player::White);
    assert_eq!(pos.plys_without_capture, 9);
    assert_eq!(pos.can_castle_kingside, [true, true]);
}

#[test]
fn set_en_passant_board_marks_both_boards() {
    let mut pos: Position = Position::new();
    let targets: u64 = squares(&[(4, 2), (0, 5)]);
    pos.set_en_passant_board(targets);
    assert_eq!(pos.piece_centric_board.en_passant_board, targets);
    for slot in 0..128usize {
        let expected: PieceCode = if slot == 0x24 || slot == 0x50 {
            PieceCode::WP
        } else {
            PieceCode::ES
        };
        assert_eq!(pos.square_centric_board.en_passant_board[slot], expected);
    }
    assert_eq!(pos.get_square(Coord::new(4, 1)), PieceCode::WP);
    pos.set_en_passant_board(0);
    assert_eq!(pos.square_centric_board.en_passant_board, [PieceCode::ES; 128]);
}

#[test]
fn no_move_is_listed_twice() {
    let lut: PLMoveLUT = PLMoveLUT::default();
    let mut pos: Position = cleared();
    for (letter, file, rank) in [
        (PieceCode::WK, 4u8, 0u8),
        (PieceCode::WR, 0, 0),
        (PieceCode::WR, 7, 0),
        (PieceCode::WQ, 3, 3),
        (PieceCode::WP, 1, 6),
        (PieceCode::WN, 6, 4),
        (PieceCode::BK, 4, 7),
        (PieceCode::BR, 0, 7),
        (PieceCode::BB, 2, 7),
    ] {
        pos.replace_square(letter, Coord::new(file, rank));
    }
    let mut pseudo: Vec<u32> = generate_moves(&pos, &lut);
    let mut legal: Vec<u32> = generate_legal_moves(&pos, &lut);
    let count: usize = pseudo.len();
    pseudo.sort();
    pseudo.dedup();
    assert_eq!(pseudo.len(), count);
    let legal_count: usize = legal.len();
    legal.sort();
    legal.dedup();
    assert_eq!(legal.len(), legal_count);
    for mov in &legal {
        assert!(pseudo.contains(mov));
    }
    // rooks 10 + 9, king 5 and 2 castling moves, queen 26, pawn 3 x 4, knight 6
    assert_eq!(count, 10 + 9 + 5 + 2 + 26 + 12 + 6);
}
