use chess_core::board_representation::{
    get_square_bitboard, get_unicode_piece, invert_player, zerox88_index, Coord, PieceCode,
    PieceKind, Player,
};

const ALL_PIECES: [PieceCode; 13] = [
    PieceCode::ES,
    PieceCode::WP,
    PieceCode::WN,
    PieceCode::WB,
    PieceCode::WR,
    PieceCode::WQ,
    PieceCode::WK,
    PieceCode::BP,
    PieceCode::BN,
    PieceCode::BB,
    PieceCode::BR,
    PieceCode::BQ,
    PieceCode::BK,
];

#[test]
fn coord_new_keeps_file_and_rank() {
    let c: Coord = Coord::new(2, 7);
    assert_eq!(c.f, 2);
    assert_eq!(c.r, 7);
    let a1: Coord = Coord::default();
    assert_eq!((a1.f, a1.r), (0, 0));
}

#[test]
fn coord_try_new_rejects_squares_off_the_board() {
    assert!(Coord::try_new(8, 0).is_none());
    assert!(Coord::try_new(0, 8).is_none());
    assert!(Coord::try_new(255, 255).is_none());
    let h8: Coord = Coord::try_new(7, 7).unwrap();
    assert_eq!((h8.f, h8.r), (7, 7));
}

#[test]
fn square_bitboard_counts_from_a1_at_the_top_bit() {
    assert_eq!(get_square_bitboard(Coord::new(0, 0)), 0x8000_0000_0000_0000);
    assert_eq!(get_square_bitboard(Coord::new(7, 0)), 0x0100_0000_0000_0000);
    assert_eq!(get_square_bitboard(Coord::new(0, 1)), 0x0080_0000_0000_0000);
    assert_eq!(get_square_bitboard(Coord::new(7, 7)), 1);
    assert_eq!(get_square_bitboard(Coord::new(4, 1)), 1u64 << 63 >> 12);
}

#[test]
fn zerox88_index_has_sixteen_slots_per_rank() {
    assert_eq!(zerox88_index(Coord::new(0, 0)), 0);
    assert_eq!(zerox88_index(Coord::new(7, 0)), 7);
    assert_eq!(zerox88_index(Coord::new(0, 1)), 16);
    assert_eq!(zerox88_index(Coord::new(4, 3)), 0x34);
    assert_eq!(zerox88_index(Coord::new(7, 7)), 0x77);
}

#[test]
fn piece_codes_are_numbered_from_the_empty_square() {
    for (number, piece) in ALL_PIECES.iter().enumerate() {
        assert_eq!(piece.to_u8() as usize, number);
        assert_eq!(PieceCode::from_u8(number as u8), *piece);
        assert_eq!(PieceCode::from_u16(number as u16), *piece);
        assert_eq!(PieceCode::from_u32(number as u32), *piece);
        assert_eq!(PieceCode::from_u64(number as u64), *piece);
        assert_eq!(PieceCode::from_usize(number), *piece);
        assert_eq!(PieceCode::try_from_u8(number as u8), Some(*piece));
    }
}

#[test]
fn piece_code_try_from_rejects_thirteen_and_more() {
    assert_eq!(PieceCode::try_from_u8(13), None);
    assert_eq!(PieceCode::try_from_u8(15), None);
    assert_eq!(PieceCode::try_from_u8(255), None);
}

#[test]
fn piece_owner_and_kind() {
    assert_eq!(PieceCode::ES.owner(), None);
    assert_eq!(PieceCode::ES.kind(), None);
    assert_eq!(PieceCode::WP.owner(), Some(Player::White));
    assert_eq!(PieceCode::WK.owner(), Some(Player::White));
    assert_eq!(PieceCode::BP.owner(), Some(Player::Black));
    assert_eq!(PieceCode::BK.owner(), Some(Player::Black));
    assert_eq!(PieceCode::WN.kind(), Some(PieceKind::Knight));
    assert_eq!(PieceCode::BQ.kind(), Some(PieceKind::Queen));
    let kinds: [PieceKind; 6] = [
        PieceKind::Pawn,
        PieceKind::Knight,
        PieceKind::Bishop,
        PieceKind::Rook,
        PieceKind::Queen,
        PieceKind::King,
    ];
    for (i, kind) in kinds.iter().enumerate() {
        assert_eq!(PieceCode::of(Player::White, *kind), ALL_PIECES[i + 1]);
        assert_eq!(PieceCode::of(Player::Black, *kind), ALL_PIECES[i + 7]);
    }
}

#[test]
fn players() {
    assert_eq!(invert_player(&Player::White), Player::Black);
    assert_eq!(invert_player(&Player::Black), Player::White);
    assert_eq!(Player::White.index(), 0);
    assert_eq!(Player::Black.index(), 1);
    assert_eq!(Player::White.home_rank(), 0);
    assert_eq!(Player::Black.home_rank(), 7);
}

#[test]
fn unicode_pieces() {
    let glyphs: [char; 13] = [
        '.', '♙', '♘', '♗', '♖', '♕', '♔', '♟', '♞', '♝', '♜', '♛', '♚',
    ];
    for (piece, glyph) in ALL_PIECES.iter().zip(glyphs.iter()) {
        assert_eq!(get_unicode_piece(*piece), *glyph);
    }
}
