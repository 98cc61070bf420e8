//! Static representations of a chess position.
//!
//! The state of a game is held by [`Position`], which keeps a piece-centric
//! and a square-centric description of the board side by side, together with
//! the turn, the castling rights and the fifty-move counter.
pub mod datatypes;
pub mod misc;
pub mod static_board;

pub use datatypes::{
    back_rank_piece, empty_array, first_holder, last_holder, lemma_first_holder,
    lemma_first_holder_is, lemma_last_holder, lemma_piece_code_numbering, lemma_same_board,
    start_piece, BitBoard, Coord, PieceCode, PieceKind, Player, Position, Zerox88Board,
};
pub use misc::{
    get_square_bitboard, get_unicode_piece, invert_player, lemma_round_trip_bitboard,
    lemma_round_trip_sync, unicode_piece, zerox88_index,
};
pub use static_board::{
    ascii_board, ascii_rank, ascii_ranks_above, lemma_same_picture, StaticBoard,
};
