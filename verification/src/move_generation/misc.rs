//! The encoding of a move in 32 bits, and occupancy helpers.
//!
//! Moves are stored in `u32` integers. Counting the bits from the most
//! significant one:
//! - bits 0 to 5: starting square (3 bits for file + 3 bits for rank)
//! - bits 6 to 11: arrival square (3 bits for file + 3 bits for rank)
//! - bits 12 to 15: PieceCode of the moved piece
//! - bits 16 to 19: PieceCode of the arrival square before the move
//! - bits 20 to 27: capture, en-passant capture, double pawn push, promotion,
//!   kingside castling, queenside castling, check, checkmate
//! - bits 28 to 31: PieceCode of the promotion piece
use crate::bits::{
    holds, lemma_holds_and_not, lemma_holds_mask, lemma_holds_or, A1_BITBOARD,
};
use crate::board_representation::{
    first_holder, lemma_first_holder, lemma_piece_code_numbering, BitBoard,
    Coord, PieceCode, Player, StaticBoard,
};
use vstd::arithmetic::power2::{lemma2_to64, pow2};
use vstd::prelude::*;

verus! {

/// The number written in the `width` bits of `mov` that start at bit
/// `first_bit`, the bits being counted from the most significant one.
#[verifier::opaque]
pub open spec fn move_field(mov: u32, first_bit: nat, width: nat) -> nat {
    (mov as nat / pow2((32 - first_bit - width) as nat)) % pow2(width)
}

/// Everything that an encoded move says.
#[derive(Copy, Clone, Debug, PartialEq, Eq, Structural)]
pub struct MoveFields {
    /// The square that the piece leaves.
    pub start: Coord,
    /// The square that the piece reaches.
    pub arrival: Coord,
    /// The piece that moves.
    pub piece: PieceCode,
    /// What stood on the arrival square before the move.
    pub arrival_square: PieceCode,
    pub capture: bool,
    pub en_passant_capture: bool,
    pub double_pawn_push: bool,
    pub promotion: bool,
    pub kingside_castling: bool,
    pub queenside_castling: bool,
    pub check: bool,
    pub checkmate: bool,
    /// The piece that a promoted pawn becomes; it means something only when
    /// `promotion` is set.
    pub promotion_piece: PieceCode,
}

/// What the encoded move `mov` says. A number that belongs to no piece code
/// (13, 14 or 15) reads as the empty square.
pub open spec fn move_fields(mov: u32) -> MoveFields {
    MoveFields {
        start: Coord::at(move_field(mov, 0, 3) as int, move_field(mov, 3, 3) as int),
        arrival: Coord::at(move_field(mov, 6, 3) as int, move_field(mov, 9, 3) as int),
        piece: PieceCode::of_code(move_field(mov, 12, 4) as int),
        arrival_square: PieceCode::of_code(move_field(mov, 16, 4) as int),
        capture: move_field(mov, 20, 1) == 1,
        en_passant_capture: move_field(mov, 21, 1) == 1,
        double_pawn_push: move_field(mov, 22, 1) == 1,
        promotion: move_field(mov, 23, 1) == 1,
        kingside_castling: move_field(mov, 24, 1) == 1,
        queenside_castling: move_field(mov, 25, 1) == 1,
        check: move_field(mov, 26, 1) == 1,
        checkmate: move_field(mov, 27, 1) == 1,
        promotion_piece: PieceCode::of_code(move_field(mov, 28, 4) as int),
    }
}

/// Whether the three piece codes written in `mov` are piece codes indeed.
pub open spec fn move_codes_valid(mov: u32) -> bool {
    move_field(mov, 12, 4) <= 12 && move_field(mov, 16, 4) <= 12 && move_field(mov, 28, 4) <= 12
}

/// Each field of a move, as shifts and masks compute it.
pub proof fn lemma_move_fields(mov: u32)
    ensures
        move_field(mov, 0, 3) == mov >> 29 < 8,
        move_field(mov, 3, 3) == (mov >> 26) & 0b111 < 8,
        move_field(mov, 6, 3) == (mov >> 23) & 0b111 < 8,
        move_field(mov, 9, 3) == (mov >> 20) & 0b111 < 8,
        move_field(mov, 12, 4) == (mov >> 16) & 0b1111 < 16,
        move_field(mov, 16, 4) == (mov >> 12) & 0b1111 < 16,
        move_field(mov, 20, 1) == 1 <==> (1u32 << 11) & mov != 0,
        move_field(mov, 21, 1) == 1 <==> (1u32 << 10) & mov != 0,
        move_field(mov, 22, 1) == 1 <==> (1u32 << 9) & mov != 0,
        move_field(mov, 23, 1) == 1 <==> (1u32 << 8) & mov != 0,
        move_field(mov, 24, 1) == 1 <==> (1u32 << 7) & mov != 0,
        move_field(mov, 25, 1) == 1 <==> (1u32 << 6) & mov != 0,
        move_field(mov, 26, 1) == 1 <==> (1u32 << 5) & mov != 0,
        move_field(mov, 27, 1) == 1 <==> (1u32 << 4) & mov != 0,
        move_field(mov, 28, 4) == mov & 0b1111 < 16,
{
    reveal(move_field);
    lemma2_to64();
    assert(mov / 0x2000_0000 % 8 == mov >> 29 < 8 && mov / 0x400_0000 % 8 == (mov >> 26) & 0b111
        < 8 && mov / 0x80_0000 % 8 == (mov >> 23) & 0b111 < 8 && mov / 0x10_0000 % 8 == (mov
        >> 20) & 0b111 < 8 && mov / 0x1_0000 % 16 == (mov >> 16) & 0b1111 < 16 && mov / 0x1000
        % 16 == (mov >> 12) & 0b1111 < 16 && (mov / 0x800 % 2 == 1 <==> (1u32 << 11) & mov != 0)
        && (mov / 0x400 % 2 == 1 <==> (1u32 << 10) & mov != 0) && (mov / 0x200 % 2 == 1 <==> (1u32
        << 9) & mov != 0) && (mov / 0x100 % 2 == 1 <==> (1u32 << 8) & mov != 0) && (mov / 0x80 % 2
        == 1 <==> (1u32 << 7) & mov != 0) && (mov / 0x40 % 2 == 1 <==> (1u32 << 6) & mov != 0) && (
    mov / 0x20 % 2 == 1 <==> (1u32 << 5) & mov != 0) && (mov / 0x10 % 2 == 1 <==> (1u32 << 4) & mov
        != 0) && mov / 1 % 16 == mov & 0b1111 < 16) by (bit_vector);
}

/// Get the start file of a move.
#[inline(always)]
pub fn get_move_start_file(mov: u32) -> (file: u8)
    ensures
        file == move_fields(mov).start.f,
        file == move_field(mov, 0, 3),
        file < 8,
{
    proof {
        lemma_move_fields(mov);
    }
    (mov >> 29) as u8
}

/// Get the start rank of a move.
#[inline(always)]
pub fn get_move_start_rank(mov: u32) -> (rank: u8)
    ensures
        rank == move_fields(mov).start.r,
        rank == move_field(mov, 3, 3),
        rank < 8,
{
    proof {
        lemma_move_fields(mov);
    }
    ((mov >> 26) & 0b111) as u8
}

/// Get the start Coord of a move.
#[inline(always)]
pub fn get_move_start_coords(mov: u32) -> (coord: Coord)
    ensures
        coord == move_fields(mov).start,
        coord.wf(),
{
    Coord::new(get_move_start_file(mov), get_move_start_rank(mov))
}

/// Get the arrival file of a move.
#[inline(always)]
pub fn get_move_arrival_file(mov: u32) -> (file: u8)
    ensures
        file == move_fields(mov).arrival.f,
        file == move_field(mov, 6, 3),
        file < 8,
{
    proof {
        lemma_move_fields(mov);
    }
    ((mov >> 23) & 0b111) as u8
}

/// Get the arrival rank of a move.
#[inline(always)]
pub fn get_move_arrival_rank(mov: u32) -> (rank: u8)
    ensures
        rank == move_fields(mov).arrival.r,
        rank == move_field(mov, 9, 3),
        rank < 8,
{
    proof {
        lemma_move_fields(mov);
    }
    ((mov >> 20) & 0b111) as u8
}

/// Get the arrival Coord of a move.
#[inline(always)]
pub fn get_move_arrival_coords(mov: u32) -> (coord: Coord)
    ensures
        coord == move_fields(mov).arrival,
        coord.wf(),
{
    Coord::new(get_move_arrival_file(mov), get_move_arrival_rank(mov))
}

/// Get moved PieceCode from a move. The number written in the move must be
/// that of a piece code.
#[inline(always)]
pub fn get_move_piece_code(mov: u32) -> (piece: PieceCode)
    requires
        move_field(mov, 12, 4) <= 12,
    ensures
        piece == move_fields(mov).piece,
        piece.code() == move_field(mov, 12, 4),
{
    proof {
        lemma_move_fields(mov);
    }
    PieceCode::from_u32((mov >> 16) & 0b1111)
}

/// Get arrival square PieceCode of a move. The number written in the move
/// must be that of a piece code.
#[inline(always)]
pub fn get_move_arrival_square(mov: u32) -> (piece: PieceCode)
    requires
        move_field(mov, 16, 4) <= 12,
    ensures
        piece == move_fields(mov).arrival_square,
        piece.code() == move_field(mov, 16, 4),
{
    proof {
        lemma_move_fields(mov);
    }
    PieceCode::from_u32((mov >> 12) & 0b1111)
}

/// Get capture bit of a move.
#[inline(always)]
pub fn get_move_capture(mov: u32) -> (flag: bool)
    ensures
        flag == move_fields(mov).capture,
{
    proof {
        lemma_move_fields(mov);
    }
    ((0b1 << 11) & mov) != 0
}

/// Get en-passant capture bit of a move.
#[inline(always)]
pub fn get_move_en_passant_capture(mov: u32) -> (flag: bool)
    ensures
        flag == move_fields(mov).en_passant_capture,
{
    proof {
        lemma_move_fields(mov);
    }
    ((0b1 << 10) & mov) != 0
}

/// Get double pawn push bit of a move.
#[inline(always)]
pub fn get_move_double_pawn_push(mov: u32) -> (flag: bool)
    ensures
        flag == move_fields(mov).double_pawn_push,
{
    proof {
        lemma_move_fields(mov);
    }
    ((0b1 << 9) & mov) != 0
}

/// Get promotion bit of a move.
#[inline(always)]
pub fn get_move_promotion(mov: u32) -> (flag: bool)
    ensures
        flag == move_fields(mov).promotion,
{
    proof {
        lemma_move_fields(mov);
    }
    ((0b1 << 8) & mov) != 0
}

/// Get kingside castling bit of a move.
#[inline(always)]
pub fn get_move_kingside_castling(mov: u32) -> (flag: bool)
    ensures
        flag == move_fields(mov).kingside_castling,
{
    proof {
        lemma_move_fields(mov);
    }
    ((0b1 << 7) & mov) != 0
}

/// Get queenside castling bit of a move.
#[inline(always)]
pub fn get_move_queenside_castling(mov: u32) -> (flag: bool)
    ensures
        flag == move_fields(mov).queenside_castling,
{
    proof {
        lemma_move_fields(mov);
    }
    ((0b1 << 6) & mov) != 0
}

/// Get check bit of a move.
#[inline(always)]
pub fn get_move_check(mov: u32) -> (flag: bool)
    ensures
        flag == move_fields(mov).check,
{
    proof {
        lemma_move_fields(mov);
    }
    ((0b1 << 5) & mov) != 0
}

/// Get checkmate bit of a move.
#[inline(always)]
pub fn get_move_checkmate(mov: u32) -> (flag: bool)
    ensures
        flag == move_fields(mov).checkmate,
{
    proof {
        lemma_move_fields(mov);
    }
    ((0b1 << 4) & mov) != 0
}

/// Get the promotion PieceCode of a move. The number written in the move
/// must be that of a piece code.
#[inline(always)]
pub fn get_move_promotion_piece_code(mov: u32) -> (piece: PieceCode)
    requires
        move_field(mov, 28, 4) <= 12,
    ensures
        piece == move_fields(mov).promotion_piece,
        piece.code() == move_field(mov, 28, 4),
{
    proof {
        lemma_move_fields(mov);
    }
    PieceCode::from_u32(mov & 0b1111)
}

/// The number that stands for a flag in an encoded move.
fn flag_bit(flag: bool) -> (bit: u32)
    ensures
        bit == if flag { 1u32 } else { 0u32 },
{
    if flag {
        1
    } else {
        0
    }
}

/// Encode a move. Every field reads back from the result as it was given,
/// so no field disturbs another.
pub fn encode_move(fields: &MoveFields) -> (mov: u32)
    requires
        fields.start.wf(),
        fields.arrival.wf(),
    ensures
        move_fields(mov) == *fields,
        move_codes_valid(mov),
{
    let start_file: u32 = fields.start.f as u32;
    let start_rank: u32 = fields.start.r as u32;
    let arrival_file: u32 = fields.arrival.f as u32;
    let arrival_rank: u32 = fields.arrival.r as u32;
    let piece: u32 = fields.piece.to_u8() as u32;
    let arrival_square: u32 = fields.arrival_square.to_u8() as u32;
    let capture: u32 = flag_bit(fields.capture);
    let en_passant: u32 = flag_bit(fields.en_passant_capture);
    let double_push: u32 = flag_bit(fields.double_pawn_push);
    let promotion: u32 = flag_bit(fields.promotion);
    let kingside: u32 = flag_bit(fields.kingside_castling);
    let queenside: u32 = flag_bit(fields.queenside_castling);
    let check: u32 = flag_bit(fields.check);
    let checkmate: u32 = flag_bit(fields.checkmate);
    let promotion_piece: u32 = fields.promotion_piece.to_u8() as u32;
    let squares: u32 = (start_file << 29) | (start_rank << 26) | (arrival_file << 23) | (
    arrival_rank << 20);
    let pieces: u32 = (piece << 16) | (arrival_square << 12) | promotion_piece;
    let flags: u32 = (capture << 11) | (en_passant << 10) | (double_push << 9) | (promotion << 8)
        | (kingside << 7) | (queenside << 6) | (check << 5) | (checkmate << 4);
    let mov: u32 = squares | pieces | flags;
    proof {
        assert(start_file < 8 && start_rank < 8 && arrival_file < 8 && arrival_rank < 8 && squares
            == (start_file << 29) | (start_rank << 26) | (arrival_file << 23) | (arrival_rank
            << 20) && (pieces | flags) & 0xfff0_0000 == 0 ==> {
            let mov = squares | (pieces | flags);
            &&& mov >> 29 == start_file
            &&& (mov >> 26) & 0b111 == start_rank
            &&& (mov >> 23) & 0b111 == arrival_file
            &&& (mov >> 20) & 0b111 == arrival_rank
            &&& mov & 0x000f_ffff == pieces | flags
        }) by (bit_vector);
        assert(piece < 16 && arrival_square < 16 && promotion_piece < 16 && pieces == (piece << 16)
            | (arrival_square << 12) | promotion_piece && flags & 0xffff_f00f == 0 ==> {
            let low = pieces | flags;
            &&& low & 0xfff0_0000 == 0
            &&& (low >> 16) & 0b1111 == piece
            &&& (low >> 12) & 0b1111 == arrival_square
            &&& low & 0b1111 == promotion_piece
            &&& low & 0x0000_0ff0 == flags
        }) by (bit_vector);
        assert(capture < 2 && en_passant < 2 && double_push < 2 && promotion < 2 && kingside < 2
            && queenside < 2 && check < 2 && checkmate < 2 && flags == (capture << 11) | (
        en_passant << 10) | (double_push << 9) | (promotion << 8) | (kingside << 7) | (queenside
            << 6) | (check << 5) | (checkmate << 4) ==> {
            &&& flags & 0xffff_f00f == 0
            &&& ((1u32 << 11) & flags != 0 <==> capture == 1)
            &&& ((1u32 << 10) & flags != 0 <==> en_passant == 1)
            &&& ((1u32 << 9) & flags != 0 <==> double_push == 1)
            &&& ((1u32 << 8) & flags != 0 <==> promotion == 1)
            &&& ((1u32 << 7) & flags != 0 <==> kingside == 1)
            &&& ((1u32 << 6) & flags != 0 <==> queenside == 1)
            &&& ((1u32 << 5) & flags != 0 <==> check == 1)
            &&& ((1u32 << 4) & flags != 0 <==> checkmate == 1)
        }) by (bit_vector);
        let low = pieces | flags;
        assert(squares | pieces | flags == squares | (pieces | flags)) by (bit_vector);
        assert(mov & 0x000f_ffff == low ==> {
            &&& (mov >> 16) & 0b1111 == (low >> 16) & 0b1111
            &&& (mov >> 12) & 0b1111 == (low >> 12) & 0b1111
            &&& mov & 0b1111 == low & 0b1111
            &&& (1u32 << 11) & mov == (1u32 << 11) & (low & 0x0000_0ff0)
            &&& (1u32 << 10) & mov == (1u32 << 10) & (low & 0x0000_0ff0)
            &&& (1u32 << 9) & mov == (1u32 << 9) & (low & 0x0000_0ff0)
            &&& (1u32 << 8) & mov == (1u32 << 8) & (low & 0x0000_0ff0)
            &&& (1u32 << 7) & mov == (1u32 << 7) & (low & 0x0000_0ff0)
            &&& (1u32 << 6) & mov == (1u32 << 6) & (low & 0x0000_0ff0)
            &&& (1u32 << 5) & mov == (1u32 << 5) & (low & 0x0000_0ff0)
            &&& (1u32 << 4) & mov == (1u32 << 4) & (low & 0x0000_0ff0)
        }) by (bit_vector);
        lemma_move_fields(mov);
        lemma_piece_code_numbering(fields.piece);
        lemma_piece_code_numbering(fields.arrival_square);
        lemma_piece_code_numbering(fields.promotion_piece);
    }
    mov
}

/// Decode a move: everything that it says, or nothing when one of the
/// three numbers that stand for a piece code belongs to none.
pub fn decode_move(mov: u32) -> (fields: Option<MoveFields>)
    ensures
        fields.is_some() <==> move_codes_valid(mov),
        fields matches Some(decoded) ==> decoded == move_fields(mov),
        move_fields(mov).start.wf(),
        move_fields(mov).arrival.wf(),
{
    proof {
        lemma_move_fields(mov);
    }
    if (mov >> 16) & 0b1111 > 12 || (mov >> 12) & 0b1111 > 12 || mov & 0b1111 > 12 {
        return None;
    }
    Some(
        MoveFields {
            start: get_move_start_coords(mov),
            arrival: get_move_arrival_coords(mov),
            piece: get_move_piece_code(mov),
            arrival_square: get_move_arrival_square(mov),
            capture: get_move_capture(mov),
            en_passant_capture: get_move_en_passant_capture(mov),
            double_pawn_push: get_move_double_pawn_push(mov),
            promotion: get_move_promotion(mov),
            kingside_castling: get_move_kingside_castling(mov),
            queenside_castling: get_move_queenside_castling(mov),
            check: get_move_check(mov),
            checkmate: get_move_checkmate(mov),
            promotion_piece: get_move_promotion_piece_code(mov),
        },
    )
}

/// Pop (set to 0) the MSB of a bitboard and return its index: the number of
/// the first square, counting from a1, that the board holds. The board must
/// hold a square.
pub fn pop_msb(bitboard: &mut u64) -> (index: u8)
    requires
        *old(bitboard) != 0,
    ensures
        index < 64,
        holds(*old(bitboard), index as int),
        forall|sq: int| 0 <= sq < index ==> !holds(*old(bitboard), sq),
        forall|sq: int|
            0 <= sq < 64 ==> (#[trigger] holds(*final(bitboard), sq) <==> holds(*old(bitboard), sq)
                && sq != index),
        *final(bitboard) < *old(bitboard),
{
    let board: u64 = *bitboard;
    let zeros: u32 = board.leading_zeros();
    let mask: u64 = A1_BITBOARD >> zeros;
    proof {
        let z = zeros as u64;
        assert(z < 64 && (board >> ((63 - z) as u64)) & 1u64 != 0u64 ==> board & (
        0x8000_0000_0000_0000u64 >> z) != 0) by (bit_vector);
        assert forall|sq: int| 0 <= sq < zeros implies !holds(board, sq) by {
            let s = sq as u64;
            assert(s < z && z < 64 && board >> ((64 - z) as u64) == 0 ==> board & (
            0x8000_0000_0000_0000u64 >> s) == 0) by (bit_vector);
        }
        lemma_holds_and_not(board, mask);
        lemma_holds_mask(zeros as int);
        assert(board & mask != 0 ==> board & !mask < board) by (bit_vector);
    }
    *bitboard = board & !mask;
    zeros as u8
}

/// The squares that the pieces of a player occupy.
pub fn get_player_bitboard(bitboard: &BitBoard, player: Player) -> (occupied: u64)
    ensures
        forall|c: Coord|
            c.wf() ==> (#[trigger] holds(occupied, c.index()) <==> exists|i: int|
                6 * player.index() <= i < 6 * player.index() + 6 && holds(
                    bitboard.main_boards@[i],
                    c.index(),
                )),
        bitboard.wf() ==> forall|c: Coord|
            c.wf() ==> (#[trigger] holds(occupied, c.index()) <==> bitboard.piece_at(c).owner()
                == Some(player)),
{
    let boards = &bitboard.main_boards;
    let occupied: u64 = if player == Player::White {
        proof {
            lemma_holds_or(boards@[0], boards@[1]);
            lemma_holds_or(boards@[0] | boards@[1], boards@[2]);
            lemma_holds_or(boards@[0] | boards@[1] | boards@[2], boards@[3]);
            lemma_holds_or(boards@[0] | boards@[1] | boards@[2] | boards@[3], boards@[4]);
            lemma_holds_or(
                boards@[0] | boards@[1] | boards@[2] | boards@[3] | boards@[4],
                boards@[5],
            );
        }
        boards[0] | boards[1] | boards[2] | boards[3] | boards[4] | boards[5]
    } else {
        proof {
            lemma_holds_or(boards@[6], boards@[7]);
            lemma_holds_or(boards@[6] | boards@[7], boards@[8]);
            lemma_holds_or(boards@[6] | boards@[7] | boards@[8], boards@[9]);
            lemma_holds_or(boards@[6] | boards@[7] | boards@[8] | boards@[9], boards@[10]);
            lemma_holds_or(
                boards@[6] | boards@[7] | boards@[8] | boards@[9] | boards@[10],
                boards@[11],
            );
        }
        boards[6] | boards[7] | boards[8] | boards[9] | boards[10] | boards[11]
    };
    proof {
        let lo = 6 * player.index();
        assert forall|c: Coord| c.wf() implies (#[trigger] holds(occupied, c.index()) <==> exists|
            i: int,
        |
            lo <= i < lo + 6 && holds(bitboard.main_boards@[i], c.index())) by {
            let sq = c.index();
            if holds(occupied, sq) {
                let i = if holds(boards@[lo], sq) {
                    lo
                } else if holds(boards@[lo + 1], sq) {
                    lo + 1
                } else if holds(boards@[lo + 2], sq) {
                    lo + 2
                } else if holds(boards@[lo + 3], sq) {
                    lo + 3
                } else if holds(boards@[lo + 4], sq) {
                    lo + 4
                } else {
                    lo + 5
                };
                assert(lo <= i < lo + 6 && holds(bitboard.main_boards@[i], sq));
            }
        }
        if bitboard.wf() {
            assert forall|c: Coord| c.wf() implies (#[trigger] holds(occupied, c.index())
                <==> bitboard.piece_at(c).owner() == Some(player)) by {
                bitboard.lemma_disjoint_single_holder(c);
                lemma_piece_code_numbering(bitboard.piece_at(c));
                let code = bitboard.piece_at(c).code();
                if code != 0 {
                    assert(holds(bitboard.main_boards@[code - 1], c.index()));
                }
            }
        }
    }
    occupied
}

/// The squares that any piece occupies.
pub fn get_all_pieces_bitboard(bitboard: &BitBoard) -> (occupied: u64)
    ensures
        forall|c: Coord|
            c.wf() ==> (#[trigger] holds(occupied, c.index()) <==> bitboard.piece_at(c)
                != PieceCode::ES),
{
    let white: u64 = get_player_bitboard(bitboard, Player::White);
    let black: u64 = get_player_bitboard(bitboard, Player::Black);
    proof {
        lemma_holds_or(white, black);
        assert forall|c: Coord| c.wf() implies (#[trigger] holds(white | black, c.index())
            <==> bitboard.piece_at(c) != PieceCode::ES) by {
            let boards = bitboard.main_boards@;
            let sq = c.index();
            lemma_first_holder(boards, sq, 0);
            if holds(white | black, sq) {
                let i = choose|i: int| 0 <= i < 12 && holds(boards[i], sq);
                if first_holder(boards, sq, 0) == 12 {
                    assert(!holds(boards[i], sq));
                }
            } else {
                if first_holder(boards, sq, 0) < 12 {
                    let first = first_holder(boards, sq, 0);
                    assert(holds(boards[first], sq));
                    assert(6 * Player::White.index() <= first < 6 * Player::White.index() + 6 || 6
                        * Player::Black.index() <= first < 6 * Player::Black.index() + 6);
                }
            }
        }
    }
    white | black
}

} // verus!
