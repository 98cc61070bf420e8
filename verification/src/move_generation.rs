//! Move encoding, move generation, and making and taking back moves.
//!
//! The pseudo-legal generator computes where each piece can go; the legal
//! generator keeps the moves that do not leave the king of the player who
//! moves under attack; the movable board applies a move to a position and
//! takes it back.
pub mod legal_generator;
pub mod misc;
pub mod movable_board;
pub mod pseudolegal_generator;
pub mod pseudolegal_moves;

pub use legal_generator::{
    attacked, generate_legal_moves, is_attacked, is_king_safe, is_legal, king_safe, legal_move,
};
pub use misc::{
    decode_move, encode_move, get_all_pieces_bitboard, get_move_arrival_coords, get_move_arrival_file,
    get_move_arrival_rank, get_move_arrival_square, get_move_capture, get_move_check,
    get_move_checkmate, get_move_double_pawn_push, get_move_en_passant_capture,
    get_move_kingside_castling, get_move_piece_code, get_move_promotion,
    get_move_promotion_piece_code, get_move_queenside_castling, get_move_start_coords,
    get_move_start_file, get_move_start_rank, get_player_bitboard, lemma_move_fields,
    move_codes_valid, move_field, move_fields, pop_msb, MoveFields,
};
pub use movable_board::{
    lemma_made_fits_undo, lemma_make_move_monotone, lemma_unmake_restores, MoveUndo,
};
pub use pseudolegal_generator::{
    attack_board, attacks, bishop_line, bishop_reach, clear_between, direction, distance,
    gen_pl_b_attacks, gen_pl_b_moves, gen_pl_k_moves, gen_pl_n_moves, gen_pl_p_moves,
    gen_pl_q_attacks, gen_pl_q_moves, gen_pl_r_attacks, gen_pl_r_moves, is_king_board,
    is_knight_board, is_pawn_board, king_step, knight_step, lemma_clear_between,
    lemma_square_towards_wf, on_ray, path_clear, pawn_capture, pawn_direction, pawn_double_push,
    pawn_push, pawn_start_rank, pawn_step, precompute_pl_k_moves, precompute_pl_n_moves,
    precompute_pl_p_moves, queen_reach, rook_line, rook_reach, square_towards, steps, PLMoveLUT,
};
pub use pseudolegal_moves::{
    boards_of, castling_allowed, castling_move, castling_ready, destination_board, extends,
    generate_moves, lemma_castling_moves, lemma_extends_lists, lemma_plain_moves, lists,
    plain_move, promotion_piece_fits, pseudo_legal, reaches, takes_en_passant,
};
