use chess_core::board_representation::{get_square_bitboard, Coord, Player};
use chess_core::move_generation::{
    gen_pl_b_attacks, gen_pl_b_moves, gen_pl_k_moves, gen_pl_n_moves, gen_pl_p_moves,
    gen_pl_q_attacks, gen_pl_q_moves, gen_pl_r_attacks, gen_pl_r_moves, precompute_pl_k_moves,
    precompute_pl_n_moves, precompute_pl_p_moves, PLMoveLUT,
};

fn squares(list: &[(u8, u8)]) -> u64 {
    let mut board: u64 = 0;
    for (file, rank) in list {
        board |= get_square_bitboard(Coord::new(*file, *rank));
    }
    board
}

#[test]
fn knight_on_d4_has_eight_destinations() {
    let board: u64 = gen_pl_n_moves(Coord::new(3, 3));
    assert_eq!(board.count_ones(), 8);
    assert_eq!(
        board,
        squares(&[(1, 2), (1, 4), (2, 1), (2, 5), (4, 1), (4, 5), (5, 2), (5, 4)])
    );
}

#[test]
fn knight_on_a1_has_two_destinations() {
    let board: u64 = gen_pl_n_moves(Coord::new(0, 0));
    assert_eq!(board.count_ones(), 2);
    assert_eq!(board, squares(&[(1, 2), (2, 1)]));
}

#[test]
fn knight_never_wraps_around_the_edges() {
    assert_eq!(gen_pl_n_moves(Coord::new(1, 0)), squares(&[(0, 2), (2, 2), (3, 1)]));
    assert_eq!(gen_pl_n_moves(Coord::new(7, 7)), squares(&[(5, 6), (6, 5)]));
    assert_eq!(
        gen_pl_n_moves(Coord::new(6, 3)),
        squares(&[(4, 2), (4, 4), (5, 1), (5, 5), (7, 1), (7, 5)])
    );
    assert_eq!(
        gen_pl_n_moves(Coord::new(0, 6)),
        squares(&[(1, 4), (2, 5), (2, 7)])
    );
}

#[test]
fn king_on_e1_has_five_destinations() {
    let board: u64 = gen_pl_k_moves(Coord::new(4, 0));
    assert_eq!(board.count_ones(), 5);
    assert_eq!(board, squares(&[(3, 0), (5, 0), (3, 1), (4, 1), (5, 1)]));
}

#[test]
fn king_in_the_corners_and_the_middle() {
    assert_eq!(gen_pl_k_moves(Coord::new(0, 0)), squares(&[(1, 0), (0, 1), (1, 1)]));
    assert_eq!(gen_pl_k_moves(Coord::new(7, 7)), squares(&[(6, 7), (6, 6), (7, 6)]));
    assert_eq!(
        gen_pl_k_moves(Coord::new(7, 3)),
        squares(&[(7, 2), (7, 4), (6, 2), (6, 3), (6, 4)])
    );
    assert_eq!(gen_pl_k_moves(Coord::new(0, 7)), squares(&[(1, 7), (0, 6), (1, 6)]));
    assert_eq!(gen_pl_k_moves(Coord::new(3, 3)).count_ones(), 8);
}

#[test]
fn white_pawn_on_e2() {
    let board: u64 = gen_pl_p_moves(Player::White, Coord::new(4, 1));
    assert_eq!(board, squares(&[(4, 2), (4, 3), (3, 2), (5, 2)]));
}

#[test]
fn pawns_on_the_edge_files_do_not_wrap() {
    let a2: u64 = gen_pl_p_moves(Player::White, Coord::new(0, 1));
    assert_eq!(a2, squares(&[(0, 2), (0, 3), (1, 2)]));
    for rank in 0..8u8 {
        assert_eq!(a2 & get_square_bitboard(Coord::new(7, rank)), 0);
    }
    assert_eq!(
        gen_pl_p_moves(Player::White, Coord::new(7, 1)),
        squares(&[(7, 2), (7, 3), (6, 2)])
    );
    assert_eq!(
        gen_pl_p_moves(Player::Black, Coord::new(0, 6)),
        squares(&[(0, 5), (0, 4), (1, 5)])
    );
    assert_eq!(
        gen_pl_p_moves(Player::Black, Coord::new(7, 6)),
        squares(&[(7, 5), (7, 4), (6, 5)])
    );
}

#[test]
fn pawns_push_twice_from_their_starting_rank_only() {
    assert_eq!(
        gen_pl_p_moves(Player::White, Coord::new(4, 2)),
        squares(&[(4, 3), (3, 3), (5, 3)])
    );
    assert_eq!(
        gen_pl_p_moves(Player::White, Coord::new(4, 6)),
        squares(&[(4, 7), (3, 7), (5, 7)])
    );
    assert_eq!(
        gen_pl_p_moves(Player::Black, Coord::new(4, 6)),
        squares(&[(4, 5), (4, 4), (3, 5), (5, 5)])
    );
    assert_eq!(
        gen_pl_p_moves(Player::Black, Coord::new(4, 1)),
        squares(&[(4, 0), (3, 0), (5, 0)])
    );
    assert_eq!(
        gen_pl_p_moves(Player::Black, Coord::new(2, 5)),
        squares(&[(2, 4), (1, 4), (3, 4)])
    );
}

#[test]
fn rook_on_an_empty_board() {
    assert_eq!(gen_pl_r_moves(Coord::new(0, 0)), 0x7f80_8080_8080_8080);
    let d4: u64 = gen_pl_r_moves(Coord::new(3, 3));
    assert_eq!(d4.count_ones(), 14);
    assert_eq!(
        d4,
        squares(&[
            (3, 0), (3, 1), (3, 2), (3, 4), (3, 5), (3, 6), (3, 7),
            (0, 3), (1, 3), (2, 3), (4, 3), (5, 3), (6, 3), (7, 3)
        ])
    );
}

#[test]
fn bishop_on_an_empty_board() {
    assert_eq!(gen_pl_b_moves(Coord::new(0, 0)), 0x0040_2010_0804_0201);
    assert_eq!(gen_pl_b_moves(Coord::new(7, 0)), 0x0002_0408_1020_4080);
    let d4: u64 = gen_pl_b_moves(Coord::new(3, 3));
    assert_eq!(d4.count_ones(), 13);
    assert_eq!(
        d4,
        squares(&[
            (0, 0), (1, 1), (2, 2), (4, 4), (5, 5), (6, 6), (7, 7),
            (0, 6), (1, 5), (2, 4), (4, 2), (5, 1), (6, 0)
        ])
    );
    assert_eq!(
        gen_pl_b_moves(Coord::new(0, 7)),
        squares(&[(1, 6), (2, 5), (3, 4), (4, 3), (5, 2), (6, 1), (7, 0)])
    );
}

#[test]
fn queen_on_an_empty_board_is_rook_and_bishop() {
    for rank in 0..8u8 {
        for file in 0..8u8 {
            let c: Coord = Coord::new(file, rank);
            assert_eq!(gen_pl_q_moves(c), gen_pl_r_moves(c) | gen_pl_b_moves(c));
            assert_eq!(gen_pl_r_attacks(c, 0), gen_pl_r_moves(c));
            assert_eq!(gen_pl_b_attacks(c, 0), gen_pl_b_moves(c));
            assert_eq!(gen_pl_q_attacks(c, 0), gen_pl_q_moves(c));
        }
    }
    assert_eq!(gen_pl_q_moves(Coord::new(3, 3)).count_ones(), 27);
}

#[test]
fn sliders_stop_at_the_first_piece() {
    let occupied: u64 = squares(&[(3, 5), (1, 3), (3, 3), (5, 5), (6, 6), (2, 2)]);
    assert_eq!(
        gen_pl_r_attacks(Coord::new(3, 3), occupied),
        squares(&[
            (3, 4), (3, 5), (3, 2), (3, 1), (3, 0), (2, 3), (1, 3), (4, 3), (5, 3), (6, 3), (7, 3)
        ])
    );
    assert_eq!(
        gen_pl_b_attacks(Coord::new(3, 3), occupied),
        squares(&[(4, 4), (5, 5), (2, 2), (2, 4), (1, 5), (0, 6), (4, 2), (5, 1), (6, 0)])
    );
    assert_eq!(
        gen_pl_q_attacks(Coord::new(3, 3), occupied),
        gen_pl_r_attacks(Coord::new(3, 3), occupied) | gen_pl_b_attacks(Coord::new(3, 3), occupied)
    );
    // a rook shut in its corner sees its two neighbours
    let corner: u64 = squares(&[(0, 1), (1, 0)]);
    assert_eq!(gen_pl_r_attacks(Coord::new(0, 0), corner), corner);
    assert_eq!(gen_pl_b_attacks(Coord::new(0, 0), squares(&[(1, 1)])), squares(&[(1, 1)]));
}

#[test]
fn lookup_tables_hold_the_generated_boards() {
    let lut: PLMoveLUT = PLMoveLUT::default();
    let knights: [u64; 64] = precompute_pl_n_moves();
    let kings: [u64; 64] = precompute_pl_k_moves();
    let white: [u64; 64] = precompute_pl_p_moves(Player::White);
    let black: [u64; 64] = precompute_pl_p_moves(Player::Black);
    assert_eq!(lut.n_lut, knights);
    assert_eq!(lut.k_lut, kings);
    assert_eq!(lut.white_p_lut, white);
    assert_eq!(lut.black_p_lut, black);
    for rank in 0..8u8 {
        for file in 0..8u8 {
            let c: Coord = Coord::new(file, rank);
            let i: usize = rank as usize * 8 + file as usize;
            assert_eq!(knights[i], gen_pl_n_moves(c));
            assert_eq!(kings[i], gen_pl_k_moves(c));
            if rank == 0 || rank == 7 {
                assert_eq!(white[i], 0);
                assert_eq!(black[i], 0);
            } else {
                assert_eq!(white[i], gen_pl_p_moves(Player::White, c));
                assert_eq!(black[i], gen_pl_p_moves(Player::Black, c));
            }
        }
    }
    assert_eq!(knights[27].count_ones(), 8);
    assert_eq!(knights[0].count_ones(), 2);
    assert_eq!(kings[4].count_ones(), 5);
    assert_eq!(white[12], squares(&[(4, 2), (4, 3), (3, 2), (5, 2)]));
}
