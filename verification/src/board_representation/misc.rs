//! Conversions and small helpers around the board datatypes.
use super::datatypes::{
    empty_array, last_holder, lemma_same_board, BitBoard, Coord, PieceCode, Player, Position,
    Zerox88Board,
};
use super::static_board::StaticBoard;
use crate::bits::{
    holds, lemma_holds_and, lemma_holds_mask, lemma_holds_or, lemma_holds_zero, square_mask,
    A1_BITBOARD,
};
use vstd::prelude::*;

verus! {

/// From a Coord, get a bitboard corresponding to the square.
pub fn get_square_bitboard(coord: Coord) -> (mask: u64)
    requires
        coord.wf(),
    ensures
        mask == square_mask(coord.index()),
{
    let rank: u8 = coord.r;
    let file: u8 = coord.f;
    assert(rank < 8 && file < 8 ==> (rank << 3) < 64 && 0x8000_0000_0000_0000u64 >> (rank << 3)
        >> file == 0x8000_0000_0000_0000u64 >> ((rank * 8 + file) as u64)) by (bit_vector);
    A1_BITBOARD >> (rank << 3) >> file
}

/// The opponent of a player.
pub fn invert_player(player: &Player) -> (other: Player)
    ensures
        other == player.opponent(),
{
    match player {
        Player::White => Player::Black,
        Player::Black => Player::White,
    }
}

/// The slot of a square in a 0x88 array: sixteen slots per rank, the file
/// within them.
pub fn zerox88_index(coord: Coord) -> (slot: usize)
    requires
        coord.wf(),
    ensures
        slot == coord.slot(),
        slot < 128,
{
    coord.r as usize * 16 + coord.f as usize
}

impl PieceCode {
    /// The piece code with the given number, which must be one of the 13.
    pub fn from_u8(piece_code: u8) -> (piece: PieceCode)
        requires
            piece_code <= 12,
        ensures
            piece == PieceCode::of_code(piece_code as int),
            piece.code() == piece_code,
    {
        match piece_code {
            0 => PieceCode::ES,
            1 => PieceCode::WP,
            2 => PieceCode::WN,
            3 => PieceCode::WB,
            4 => PieceCode::WR,
            5 => PieceCode::WQ,
            6 => PieceCode::WK,
            7 => PieceCode::BP,
            8 => PieceCode::BN,
            9 => PieceCode::BB,
            10 => PieceCode::BR,
            11 => PieceCode::BQ,
            _ => PieceCode::BK,
        }
    }

    /// The piece code with the given number, which must be one of the 13.
    pub fn from_u16(piece_code: u16) -> (piece: PieceCode)
        requires
            piece_code <= 12,
        ensures
            piece == PieceCode::of_code(piece_code as int),
            piece.code() == piece_code,
    {
        PieceCode::from_u8(piece_code as u8)
    }

    /// The piece code with the given number, which must be one of the 13.
    pub fn from_u32(piece_code: u32) -> (piece: PieceCode)
        requires
            piece_code <= 12,
        ensures
            piece == PieceCode::of_code(piece_code as int),
            piece.code() == piece_code,
    {
        PieceCode::from_u8(piece_code as u8)
    }

    /// The piece code with the given number, which must be one of the 13.
    pub fn from_u64(piece_code: u64) -> (piece: PieceCode)
        requires
            piece_code <= 12,
        ensures
            piece == PieceCode::of_code(piece_code as int),
            piece.code() == piece_code,
    {
        PieceCode::from_u8(piece_code as u8)
    }

    /// The piece code with the given number, which must be one of the 13.
    pub fn from_usize(piece_code: usize) -> (piece: PieceCode)
        requires
            piece_code <= 12,
        ensures
            piece == PieceCode::of_code(piece_code as int),
            piece.code() == piece_code,
    {
        PieceCode::from_u8(piece_code as u8)
    }

    /// The piece code with the given number, or nothing when the number
    /// belongs to no piece code.
    pub fn try_from_u8(piece_code: u8) -> (piece: Option<PieceCode>)
        ensures
            piece.is_some() <==> piece_code <= 12,
            piece matches Some(p) ==> p == PieceCode::of_code(piece_code as int) && p.code()
                == piece_code,
    {
        if piece_code <= 12 {
            Some(PieceCode::from_u8(piece_code))
        } else {
            None
        }
    }
}

/// The Unicode character that pictures a piece; a dot for the empty square.
pub open spec fn unicode_piece(piece_code: PieceCode) -> char {
    match piece_code {
        PieceCode::ES => '.',
        PieceCode::WP => '\u{2659}',
        PieceCode::WN => '\u{2658}',
        PieceCode::WB => '\u{2657}',
        PieceCode::WR => '\u{2656}',
        PieceCode::WQ => '\u{2655}',
        PieceCode::WK => '\u{2654}',
        PieceCode::BP => '\u{265F}',
        PieceCode::BN => '\u{265E}',
        PieceCode::BB => '\u{265D}',
        PieceCode::BR => '\u{265C}',
        PieceCode::BQ => '\u{265B}',
        PieceCode::BK => '\u{265A}',
    }
}

/// From a piece ID, return its Unicode character.
pub fn get_unicode_piece(piece_code: PieceCode) -> (symbol: char)
    ensures
        symbol == unicode_piece(piece_code),
{
    match piece_code {
        PieceCode::ES => '.',
        PieceCode::WP => '\u{2659}',
        PieceCode::WN => '\u{2658}',
        PieceCode::WB => '\u{2657}',
        PieceCode::WR => '\u{2656}',
        PieceCode::WQ => '\u{2655}',
        PieceCode::WK => '\u{2654}',
        PieceCode::BP => '\u{265F}',
        PieceCode::BN => '\u{265E}',
        PieceCode::BB => '\u{265D}',
        PieceCode::BR => '\u{265C}',
        PieceCode::BQ => '\u{265B}',
        PieceCode::BK => '\u{265A}',
    }
}

impl BitBoard {
    /// Copy content of a 0x88 board onto the bitboard: afterwards the board
    /// of each piece holds the squares on which the 0x88 board shows that
    /// piece, and the en passant board the squares that it marks.
    pub fn apply_0x88_board(&mut self, zerox88_board: &Zerox88Board)
        ensures
            final(self).is_copy_of_0x88(zerox88_board),
            final(self).wf(),
            forall|c: Coord|
                c.wf() ==> #[trigger] final(self).piece_at(c) == zerox88_board.piece_at(c),
    {
        // Clean all bitboards
        self.main_boards = [0;12];
        self.en_passant_board = 0;
        proof {
            lemma_holds_zero();
        }

        // Copy pieces
        let mut rank: u8 = 0;
        while rank < 8
            invariant
                rank <= 8,
                forall|i: int, c: Coord|
                    0 <= i < 12 && c.wf() ==> (#[trigger] holds(self.main_boards@[i], c.index())
                        <==> c.r < rank && zerox88_board.piece_at(c).code() == i + 1),
                forall|c: Coord|
                    c.wf() ==> (#[trigger] holds(self.en_passant_board, c.index()) <==> c.r < rank
                        && zerox88_board.en_passant_at(c)),
            decreases 8 - rank,
        {
            let mut file: u8 = 0;
            while file < 8
                invariant
                    rank < 8,
                    file <= 8,
                    forall|i: int, c: Coord|
                        0 <= i < 12 && c.wf() ==> (#[trigger] holds(
                            self.main_boards@[i],
                            c.index(),
                        ) <==> (c.r < rank || (c.r == rank && c.f < file))
                            && zerox88_board.piece_at(c).code() == i + 1),
                    forall|c: Coord|
                        c.wf() ==> (#[trigger] holds(self.en_passant_board, c.index()) <==> (c.r
                            < rank || (c.r == rank && c.f < file)) && zerox88_board.en_passant_at(
                            c,
                        )),
                decreases 8 - file,
            {
                let coord = Coord::new(file, rank);
                let mask: u64 = get_square_bitboard(coord);
                proof {
                    lemma_holds_mask(coord.index());
                }

                // Fill main boards
                let piece_code = zerox88_board.get_square(coord);
                if piece_code != PieceCode::ES {
                    let own: usize = (piece_code.to_u8() - 1) as usize;
                    proof {
                        lemma_holds_or(self.main_boards@[own as int], mask);
                    }
                    self.main_boards[own] |= mask;
                }

                // Fill en passant board
                let en_passant_piece_code = zerox88_board.en_passant_board[zerox88_index(coord)];
                if en_passant_piece_code != PieceCode::ES {
                    proof {
                        lemma_holds_or(self.en_passant_board, mask);
                    }
                    self.en_passant_board |= mask;
                }
                file += 1;
            }
            rank += 1;
        }
        proof {
            self.lemma_copy_of_0x88(zerox88_board);
        }
    }
}

impl Zerox88Board {
    /// Copy content of a bitboard onto the 0x88 board: afterwards every
    /// square shows the last piece, in the order of the piece codes, whose
    /// board holds it, and the en passant targets are marked with a white
    /// pawn.
    pub fn apply_bitboard(&mut self, bitboard: &BitBoard)
        ensures
            final(self).is_copy_of_bitboard(bitboard),
            final(self).wf(),
    {
        // Clean boards
        self.main_board = empty_array();
        self.en_passant_board = empty_array();

        // Copy pieces
        let mut rank: u8 = 0;
        while rank < 8
            invariant
                rank <= 8,
                self.padding_is_empty(),
                forall|c: Coord|
                    c.wf() ==> #[trigger] self.main_board@[c.slot()] == if c.r < rank {
                        bitboard.last_piece_at(c)
                    } else {
                        PieceCode::ES
                    },
                forall|c: Coord|
                    c.wf() ==> #[trigger] self.en_passant_board@[c.slot()] == if c.r < rank
                        && bitboard.en_passant_at(c) {
                        PieceCode::WP
                    } else {
                        PieceCode::ES
                    },
            decreases 8 - rank,
        {
            let mut file: u8 = 0;
            while file < 8
                invariant
                    rank < 8,
                    file <= 8,
                    self.padding_is_empty(),
                    forall|c: Coord|
                        c.wf() ==> #[trigger] self.main_board@[c.slot()] == if c.r < rank || (c.r
                            == rank && c.f < file) {
                            bitboard.last_piece_at(c)
                        } else {
                            PieceCode::ES
                        },
                    forall|c: Coord|
                        c.wf() ==> #[trigger] self.en_passant_board@[c.slot()] == if (c.r < rank
                            || (c.r == rank && c.f < file)) && bitboard.en_passant_at(c) {
                            PieceCode::WP
                        } else {
                            PieceCode::ES
                        },
                decreases 8 - file,
            {
                let coord = Coord::new(file, rank);
                let mask: u64 = get_square_bitboard(coord);
                let slot: usize = zerox88_index(coord);
                assert(forall|c: Coord| c.wf() ==> #[trigger] c.padding_slot() != slot);
                assert(forall|c: Coord| c.wf() && c != coord ==> #[trigger] c.slot() != slot);

                // Fill main board
                let mut k: usize = 0;
                while k < 12
                    invariant
                        k <= 12,
                        coord.wf(),
                        slot == coord.slot(),
                        mask == square_mask(coord.index()),
                        self.padding_is_empty(),
                        forall|c: Coord| c.wf() ==> #[trigger] c.padding_slot() != slot,
                        forall|c: Coord| c.wf() && c != coord ==> #[trigger] c.slot() != slot,
                        forall|c: Coord|
                            c.wf() && c != coord ==> #[trigger] self.main_board@[c.slot()] == if c.r
                                < rank || (c.r == rank && c.f < file) {
                                bitboard.last_piece_at(c)
                            } else {
                                PieceCode::ES
                            },
                        self.main_board@[slot as int] == PieceCode::of_code(
                            last_holder(bitboard.main_boards@, coord.index(), k as int) + 1,
                        ),
                        forall|c: Coord|
                            c.wf() ==> #[trigger] self.en_passant_board@[c.slot()] == if (c.r < rank
                                || (c.r == rank && c.f < file)) && bitboard.en_passant_at(c) {
                                PieceCode::WP
                            } else {
                                PieceCode::ES
                            },
                    decreases 12 - k,
                {
                    let filtered_board: u64 = bitboard.main_boards[k] & mask;
                    if filtered_board != 0 {
                        self.main_board[slot] = PieceCode::from_usize(k + 1);
                    }
                    k += 1;
                }

                // Fill en passant board
                let filtered_en_passant_board: u64 = bitboard.en_passant_board & mask;
                if filtered_en_passant_board != 0 {
                    // We'll put a WP by default, but any PieceCode (!= ES) is fine
                    self.en_passant_board[slot] = PieceCode::WP;
                }
                file += 1;
            }
            rank += 1;
        }
    }
}

impl Position {
    /// Copy content of a 0x88 board onto the piece-centric board of the
    /// Position. The square-centric board is left as it was.
    pub fn apply_0x88_board(&mut self, zerox88_board: &Zerox88Board)
        ensures
            final(self).piece_centric_board.is_copy_of_0x88(zerox88_board),
            final(self).square_centric_board == old(self).square_centric_board,
            final(self).same_state_as(old(self)),
    {
        self.piece_centric_board.apply_0x88_board(zerox88_board);
    }

    /// Copy content of a bitboard onto the square-centric board of the
    /// Position. The piece-centric board is left as it was.
    pub fn apply_bitboard(&mut self, bitboard: &BitBoard)
        ensures
            final(self).square_centric_board.is_copy_of_bitboard(bitboard),
            final(self).piece_centric_board == old(self).piece_centric_board,
            final(self).same_state_as(old(self)),
    {
        self.square_centric_board.apply_bitboard(bitboard);
    }

    /// Copy content of the Position's own 0x88 board onto its own bitboard.
    /// Afterwards the two boards are in sync.
    pub fn apply_own_0x88_board(&mut self)
        ensures
            final(self).piece_centric_board.is_copy_of_0x88(&old(self).square_centric_board),
            final(self).square_centric_board == old(self).square_centric_board,
            final(self).same_state_as(old(self)),
            final(self).in_sync(),
            old(self).square_centric_board.wf() ==> final(self).wf(),
    {
        self.piece_centric_board.apply_0x88_board(&self.square_centric_board);
    }

    /// Copy content of the Position's own bitboard onto its own 0x88 board.
    /// Afterwards the two boards are in sync if the bitboard was well
    /// formed.
    pub fn apply_own_bitboard(&mut self)
        ensures
            final(self).square_centric_board.is_copy_of_bitboard(&old(self).piece_centric_board),
            final(self).piece_centric_board == old(self).piece_centric_board,
            final(self).same_state_as(old(self)),
            old(self).piece_centric_board.wf() ==> final(self).wf(),
    {
        self.square_centric_board.apply_bitboard(&self.piece_centric_board);
        proof {
            if old(self).piece_centric_board.wf() {
                assert forall|c: Coord| c.wf() implies #[trigger] self.piece_centric_board.piece_at(
                    c,
                ) == self.square_centric_board.piece_at(c) by {
                    self.piece_centric_board.lemma_disjoint_single_holder(c);
                }
            }
        }
    }
}

impl BitBoard {
    /// Whether the bitboard is well formed: no two of its boards hold a
    /// square in common.
    pub fn is_well_formed(&self) -> (well_formed: bool)
        ensures
            well_formed == self.wf(),
    {
        let ghost boards = self.main_boards@;
        let mut i: usize = 0;
        while i < 12
            invariant
                i <= 12,
                boards == self.main_boards@,
                forall|a: int, b: int, c: Coord|
                    #![trigger holds(boards[a], c.index()), holds(boards[b], c.index())]
                    0 <= a < i && a < b < 12 && c.wf() ==> !(holds(boards[a], c.index()) && holds(
                        boards[b],
                        c.index(),
                    )),
            decreases 12 - i,
        {
            let mut j: usize = i + 1;
            while j < 12
                invariant
                    i < 12,
                    i < j <= 12,
                    boards == self.main_boards@,
                    forall|a: int, b: int, c: Coord|
                        #![trigger holds(boards[a], c.index()), holds(boards[b], c.index())]
                        0 <= a < b < 12 && (a < i || (a == i && b < j)) && c.wf() ==> !(holds(
                            boards[a],
                            c.index(),
                        ) && holds(boards[b], c.index())),
                decreases 12 - j,
            {
                let common: u64 = self.main_boards[i] & self.main_boards[j];
                proof {
                    lemma_holds_and(boards[i as int], boards[j as int]);
                    lemma_holds_zero();
                }
                if common != 0 {
                    proof {
                        if self.disjoint() {
                            assert forall|c: Coord| c.wf() implies holds(
                                common,
                                #[trigger] c.index(),
                            ) == holds(0, c.index()) by {
                                assert(!(holds(boards[i as int], c.index()) && holds(
                                    boards[j as int],
                                    c.index(),
                                )));
                            }
                            lemma_same_board(common, 0);
                        }
                    }
                    return false;
                }
                assert forall|c: Coord| c.wf() implies !(holds(boards[i as int], c.index())
                    && holds(boards[j as int], c.index())) by {
                    assert(holds(common, c.index()) == (holds(boards[i as int], c.index())
                        && holds(boards[j as int], c.index())));
                }
                j += 1;
            }
            i += 1;
        }
        true
    }
}

impl Zerox88Board {
    /// Whether the board is well formed: the slots that belong to no square
    /// are empty in both arrays.
    pub fn is_well_formed(&self) -> (well_formed: bool)
        ensures
            well_formed == self.wf(),
    {
        let mut rank: u8 = 0;
        while rank < 8
            invariant
                rank <= 8,
                forall|c: Coord|
                    c.wf() && c.r < rank ==> #[trigger] self.main_board@[c.padding_slot()]
                        == PieceCode::ES,
                forall|c: Coord|
                    c.wf() && c.r < rank ==> #[trigger] self.en_passant_board@[c.padding_slot()]
                        == PieceCode::ES,
            decreases 8 - rank,
        {
            let mut file: u8 = 0;
            while file < 8
                invariant
                    rank < 8,
                    file <= 8,
                    forall|c: Coord|
                        c.wf() && (c.r < rank || (c.r == rank && c.f < file))
                            ==> #[trigger] self.main_board@[c.padding_slot()] == PieceCode::ES,
                    forall|c: Coord|
                        c.wf() && (c.r < rank || (c.r == rank && c.f < file))
                            ==> #[trigger] self.en_passant_board@[c.padding_slot()]
                            == PieceCode::ES,
                decreases 8 - file,
            {
                let coord = Coord::new(file, rank);
                let slot: usize = zerox88_index(coord) + 8;
                assert(slot == coord.padding_slot());
                if self.main_board[slot] != PieceCode::ES || self.en_passant_board[slot]
                    != PieceCode::ES {
                    return false;
                }
                file += 1;
            }
            rank += 1;
        }
        true
    }
}

impl Position {
    /// Whether the position is well formed: both boards are, and they show
    /// the same piece and the same en passant mark on every square.
    pub fn is_well_formed(&self) -> (well_formed: bool)
        ensures
            well_formed == self.wf(),
    {
        if !self.piece_centric_board.is_well_formed()
            || !self.square_centric_board.is_well_formed() {
            return false;
        }
        let mut rank: u8 = 0;
        while rank < 8
            invariant
                rank <= 8,
                self.piece_centric_board.wf(),
                self.square_centric_board.wf(),
                forall|c: Coord|
                    c.wf() && c.r < rank ==> #[trigger] self.piece_centric_board.piece_at(c)
                        == self.square_centric_board.piece_at(c),
                forall|c: Coord|
                    c.wf() && c.r < rank ==> (#[trigger] self.piece_centric_board.en_passant_at(c)
                        <==> self.square_centric_board.en_passant_at(c)),
            decreases 8 - rank,
        {
            let mut file: u8 = 0;
            while file < 8
                invariant
                    rank < 8,
                    file <= 8,
                    self.piece_centric_board.wf(),
                    self.square_centric_board.wf(),
                    forall|c: Coord|
                        c.wf() && (c.r < rank || (c.r == rank && c.f < file))
                            ==> #[trigger] self.piece_centric_board.piece_at(c)
                            == self.square_centric_board.piece_at(c),
                    forall|c: Coord|
                        c.wf() && (c.r < rank || (c.r == rank && c.f < file)) ==> (
                        #[trigger] self.piece_centric_board.en_passant_at(c)
                            <==> self.square_centric_board.en_passant_at(c)),
                decreases 8 - file,
            {
                let coord = Coord::new(file, rank);
                let marked: bool = self.piece_centric_board.en_passant_board & get_square_bitboard(
                    coord,
                ) != 0;
                let mark: PieceCode = self.square_centric_board.en_passant_board[zerox88_index(
                    coord,
                )];
                assert(marked == self.piece_centric_board.en_passant_at(coord));
                assert((mark != PieceCode::ES) == self.square_centric_board.en_passant_at(coord));
                if self.piece_centric_board.get_square(coord)
                    != self.square_centric_board.get_square(coord) || marked != (mark
                    != PieceCode::ES) {
                    return false;
                }
                file += 1;
            }
            rank += 1;
        }
        true
    }
}

/// Copying a square-centric board onto a bitboard and the bitboard back onto
/// a square-centric board gives a board that shows the piece of the first
/// on every square, and marks the same squares as en passant targets.
pub proof fn lemma_round_trip_sync(board: Zerox88Board, bitboard: BitBoard, back: Zerox88Board)
    requires
        bitboard.is_copy_of_0x88(&board),
        back.is_copy_of_bitboard(&bitboard),
    ensures
        forall|c: Coord| c.wf() ==> #[trigger] back.piece_at(c) == board.piece_at(c),
        forall|c: Coord| c.wf() ==> (#[trigger] back.en_passant_at(c) <==> board.en_passant_at(c)),
{
    bitboard.lemma_copy_of_0x88(&board);
    assert forall|c: Coord| c.wf() implies #[trigger] back.piece_at(c) == board.piece_at(c) by {
        bitboard.lemma_disjoint_single_holder(c);
    }
    assert forall|c: Coord| c.wf() implies (#[trigger] back.en_passant_at(c)
        <==> board.en_passant_at(c)) by {
        assert(bitboard.en_passant_at(c) <==> board.en_passant_at(c));
    }
}

/// Copying a well-formed bitboard onto a square-centric board and that
/// board back onto a bitboard gives the first bitboard again.
pub proof fn lemma_round_trip_bitboard(bitboard: BitBoard, board: Zerox88Board, back: BitBoard)
    requires
        bitboard.wf(),
        board.is_copy_of_bitboard(&bitboard),
        back.is_copy_of_0x88(&board),
    ensures
        back == bitboard,
{
    back.lemma_copy_of_0x88(&board);
    assert forall|c: Coord| c.wf() implies #[trigger] back.piece_at(c) == bitboard.piece_at(c) by {
        bitboard.lemma_disjoint_single_holder(c);
        assert(board.piece_at(c) == bitboard.last_piece_at(c));
    }
    assert forall|c: Coord| c.wf() implies (#[trigger] back.en_passant_at(c)
        <==> bitboard.en_passant_at(c)) by {
        assert(board.en_passant_board@[c.slot()] == if bitboard.en_passant_at(c) {
            PieceCode::WP
        } else {
            PieceCode::ES
        });
    }
    back.lemma_same_pieces(&bitboard);
}

} // verus!
