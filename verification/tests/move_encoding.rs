use chess_core::board_representation::{Coord, PieceCode};
use chess_core::move_generation::{
    decode_move, encode_move, get_move_arrival_coords, get_move_arrival_file, get_move_arrival_rank,
    get_move_arrival_square, get_move_capture, get_move_check, get_move_checkmate,
    get_move_double_pawn_push, get_move_en_passant_capture, get_move_kingside_castling,
    get_move_piece_code, get_move_promotion, get_move_promotion_piece_code,
    get_move_queenside_castling, get_move_start_coords, get_move_start_file,
    get_move_start_rank, MoveFields,
};

fn quiet(start: Coord, arrival: Coord, piece: PieceCode) -> MoveFields {
    MoveFields {
        start,
        arrival,
        piece,
        arrival_square: PieceCode::ES,
        capture: false,
        en_passant_capture: false,
        double_pawn_push: false,
        promotion: false,
        kingside_castling: false,
        queenside_castling: false,
        check: false,
        checkmate: false,
        promotion_piece: PieceCode::ES,
    }
}

fn flags(mov: u32) -> [bool; 8] {
    [
        get_move_capture(mov),
        get_move_en_passant_capture(mov),
        get_move_double_pawn_push(mov),
        get_move_promotion(mov),
        get_move_kingside_castling(mov),
        get_move_queenside_castling(mov),
        get_move_check(mov),
        get_move_checkmate(mov),
    ]
}

#[test]
fn accessors_read_the_bits_counted_from_the_top() {
    // 100 001 100 011 0001 0000 00100000 0000
    let mov: u32 = 0x8631_0200;
    assert_eq!(get_move_start_file(mov), 4);
    assert_eq!(get_move_start_rank(mov), 1);
    assert_eq!(get_move_arrival_file(mov), 4);
    assert_eq!(get_move_arrival_rank(mov), 3);
    let start: Coord = get_move_start_coords(mov);
    assert_eq!((start.f, start.r), (4, 1));
    let arrival: Coord = get_move_arrival_coords(mov);
    assert_eq!((arrival.f, arrival.r), (4, 3));
    assert_eq!(get_move_piece_code(mov), PieceCode::WP);
    assert_eq!(get_move_arrival_square(mov), PieceCode::ES);
    assert_eq!(
        flags(mov),
        [false, false, true, false, false, false, false, false]
    );
    assert_eq!(get_move_promotion_piece_code(mov), PieceCode::ES);
}

#[test]
fn each_field_has_its_own_bits() {
    assert_eq!(get_move_start_file(0xe000_0000), 7);
    assert_eq!(get_move_start_file(!0xe000_0000), 0);
    assert_eq!(get_move_start_rank(0x1c00_0000), 7);
    assert_eq!(get_move_start_rank(!0x1c00_0000), 0);
    assert_eq!(get_move_arrival_file(0x0380_0000), 7);
    assert_eq!(get_move_arrival_file(!0x0380_0000), 0);
    assert_eq!(get_move_arrival_rank(0x0070_0000), 7);
    assert_eq!(get_move_arrival_rank(!0x0070_0000), 0);
    assert_eq!(get_move_piece_code(0x000c_0000), PieceCode::BK);
    assert_eq!(get_move_piece_code(!0x000f_0000 & 0xfff0_0000), PieceCode::ES);
    assert_eq!(get_move_arrival_square(0x0000_c000), PieceCode::BK);
    assert_eq!(get_move_promotion_piece_code(0x0000_000b), PieceCode::BQ);
    for bit in 0..8usize {
        let mov: u32 = 1u32 << (11 - bit);
        let mut expected: [bool; 8] = [false; 8];
        expected[bit] = true;
        assert_eq!(flags(mov), expected);
        let others: u32 = !mov;
        let mut inverse: [bool; 8] = [true; 8];
        inverse[bit] = false;
        assert_eq!(flags(others), inverse);
    }
}

#[test]
fn encode_gives_the_documented_word() {
    let mut fields: MoveFields = quiet(Coord::new(4, 1), Coord::new(4, 3), PieceCode::WP);
    fields.double_pawn_push = true;
    assert_eq!(encode_move(&fields), 0x8631_0200);

    // h7 takes g8 and promotes to a queen, with check
    let capture: MoveFields = MoveFields {
        start: Coord::new(7, 6),
        arrival: Coord::new(6, 7),
        piece: PieceCode::WP,
        arrival_square: PieceCode::BN,
        capture: true,
        en_passant_capture: false,
        double_pawn_push: false,
        promotion: true,
        kingside_castling: false,
        queenside_castling: false,
        check: true,
        checkmate: false,
        promotion_piece: PieceCode::WQ,
    };
    // 111 110 110 111 0001 1000 10010010 0101
    assert_eq!(encode_move(&capture), 0xfb71_8925);
}

#[test]
fn encode_then_decode_gives_every_field_back() {
    let pieces: [PieceCode; 13] = [
        PieceCode::ES,
        PieceCode::WP,
        PieceCode::WN,
        PieceCode::WB,
        PieceCode::WR,
        PieceCode::WQ,
        PieceCode::WK,
        PieceCode::BP,
        PieceCode::BN,
        PieceCode::BB,
        PieceCode::BR,
        PieceCode::BQ,
        PieceCode::BK,
    ];
    let mut seed: u32 = 12345;
    for round in 0..2000u32 {
        seed = seed.wrapping_mul(1664525).wrapping_add(1013904223);
        let r: u32 = seed >> 3;
        let fields: MoveFields = MoveFields {
            start: Coord::new((r % 8) as u8, ((r >> 3) % 8) as u8),
            arrival: Coord::new(((r >> 6) % 8) as u8, ((r >> 9) % 8) as u8),
            piece: pieces[(round % 13) as usize],
            arrival_square: pieces[((round / 13) % 13) as usize],
            capture: (r >> 12) & 1 == 1,
            en_passant_capture: (r >> 13) & 1 == 1,
            double_pawn_push: (r >> 14) & 1 == 1,
            promotion: (r >> 15) & 1 == 1,
            kingside_castling: (r >> 16) & 1 == 1,
            queenside_castling: (r >> 17) & 1 == 1,
            check: (r >> 18) & 1 == 1,
            checkmate: (r >> 19) & 1 == 1,
            promotion_piece: pieces[((round / 169) % 13) as usize],
        };
        let mov: u32 = encode_move(&fields);
        assert_eq!(get_move_start_file(mov), fields.start.f);
        assert_eq!(get_move_start_rank(mov), fields.start.r);
        assert_eq!(get_move_arrival_file(mov), fields.arrival.f);
        assert_eq!(get_move_arrival_rank(mov), fields.arrival.r);
        assert_eq!(get_move_piece_code(mov), fields.piece);
        assert_eq!(get_move_arrival_square(mov), fields.arrival_square);
        assert_eq!(
            flags(mov),
            [
                fields.capture,
                fields.en_passant_capture,
                fields.double_pawn_push,
                fields.promotion,
                fields.kingside_castling,
                fields.queenside_castling,
                fields.check,
                fields.checkmate
            ]
        );
        assert_eq!(get_move_promotion_piece_code(mov), fields.promotion_piece);
        assert_eq!(decode_move(mov), Some(fields));
    }
}

#[test]
fn decode_rejects_numbers_that_are_no_piece_codes() {
    assert_eq!(decode_move(0x000d_0000), None);
    assert_eq!(decode_move(0x0000_e000), None);
    assert_eq!(decode_move(0x0000_000f), None);
    assert_eq!(decode_move(0xffff_ffff), None);
    let all_valid: MoveFields = MoveFields {
        start: Coord::new(7, 7),
        arrival: Coord::new(7, 7),
        piece: PieceCode::BK,
        arrival_square: PieceCode::BK,
        capture: true,
        en_passant_capture: true,
        double_pawn_push: true,
        promotion: true,
        kingside_castling: true,
        queenside_castling: true,
        check: true,
        checkmate: true,
        promotion_piece: PieceCode::BK,
    };
    assert_eq!(encode_move(&all_valid), 0xfffc_cffc);
    assert_eq!(decode_move(0xfffc_cffc), Some(all_valid));
    assert_eq!(decode_move(0), Some(quiet(Coord::new(0, 0), Coord::new(0, 0), PieceCode::ES)));
}

#[test]
fn setting_one_field_leaves_the_others() {
    let base: MoveFields = quiet(Coord::new(1, 0), Coord::new(2, 2), PieceCode::WN);
    let word: u32 = encode_move(&base);
    let mut with_check: MoveFields = quiet(Coord::new(1, 0), Coord::new(2, 2), PieceCode::WN);
    with_check.check = true;
    assert_eq!(encode_move(&with_check) ^ word, 1 << 5);
    let mut with_capture: MoveFields = quiet(Coord::new(1, 0), Coord::new(2, 2), PieceCode::WN);
    with_capture.arrival_square = PieceCode::BK;
    assert_eq!(encode_move(&with_capture) ^ word, 12 << 12);
    let other_start: MoveFields = quiet(Coord::new(3, 0), Coord::new(2, 2), PieceCode::WN);
    assert_eq!(encode_move(&other_start) ^ word, 2 << 29);
}
