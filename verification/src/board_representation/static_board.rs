//! The operations common to every representation of a board.
use super::datatypes::{
    first_holder, lemma_first_holder, lemma_first_holder_is, start_piece, BitBoard, Coord,
    PieceCode, Player, Position, Zerox88Board,
};
use super::misc::{get_square_bitboard, get_unicode_piece, unicode_piece, zerox88_index};
use crate::bits::{
    holds, lemma_holds_and_not, lemma_holds_mask, lemma_holds_or, square_mask,
};
use vstd::prelude::*;
use vstd::string::StringExecFns;

verus! {

/// `String::push` appends the character to the end of the string.
pub assume_specification[ String::push ](text: &mut String, ch: char)
    ensures
        final(text)@ == old(text)@.push(ch),
;

/// The line that shows one rank up to the file `files`: the digit of the
/// rank, a space, then a space and a glyph for each file.
pub open spec fn ascii_rank(pieces: spec_fn(Coord) -> PieceCode, rank: int, files: int) -> Seq<
    char,
>
    decreases files,
{
    if files <= 0 {
        seq![(rank + 49) as char, ' ']
    } else {
        ascii_rank(pieces, rank, files - 1) + seq![
            ' ',
            unicode_piece(pieces(Coord::at(files - 1, rank))),
        ]
    }
}

/// The lines of the ranks above `rank`, the highest first, each closed by a
/// line feed.
pub open spec fn ascii_ranks_above(pieces: spec_fn(Coord) -> PieceCode, rank: int) -> Seq<char>
    decreases 8 - rank,
{
    if rank >= 7 {
        Seq::empty()
    } else {
        ascii_ranks_above(pieces, rank + 1) + ascii_rank(pieces, rank + 1, 8) + seq!['\n']
    }
}

/// The picture of a board, given the piece on each square: the ranks from
/// the eighth down to the first, then the legend of the files.
pub open spec fn ascii_board(pieces: spec_fn(Coord) -> PieceCode) -> Seq<char> {
    ascii_ranks_above(pieces, -1) + "   a b c d e f g h\n"@
}

/// This trait contains a collection of utility methods to manipulate a board.
pub trait StaticBoard: Sized {
    /// The piece that the board shows on `coord`.
    spec fn piece_at(&self, coord: Coord) -> PieceCode;

    /// The invariant of the representation.
    spec fn wf(&self) -> bool;

    /// Reset the board to the starting position.
    fn reset(&mut self)
        ensures
            final(self).wf(),
            forall|c: Coord| c.wf() ==> #[trigger] final(self).piece_at(c) == start_piece(c),
    ;

    /// Return the piece code of the corresponding square.
    fn get_square(&self, coord: Coord) -> (piece_code: PieceCode)
        requires
            coord.wf(),
        ensures
            piece_code == self.piece_at(coord),
    ;

    /// Overwrites a square with a piece code. Every other square keeps its
    /// piece. The square shows the new piece code if it was empty, or if the
    /// board was well formed and the square is being emptied.
    fn set_square(&mut self, piece_code: PieceCode, coord: Coord)
        requires
            coord.wf(),
        ensures
            forall|c: Coord|
                c.wf() && c != coord ==> #[trigger] final(self).piece_at(c) == old(self).piece_at(
                    c,
                ),
            old(self).piece_at(coord) == PieceCode::ES || (piece_code == PieceCode::ES && old(
                self,
            ).wf()) ==> final(self).piece_at(coord) == piece_code,
            old(self).wf() && (piece_code == PieceCode::ES || old(self).piece_at(coord)
                == PieceCode::ES) ==> final(self).wf(),
    ;

    /// Return an ASCII (Unicode) representation of the board.
    fn ascii(&self) -> (text: String)
        ensures
            text@ == ascii_board(|c: Coord| self.piece_at(c)),
    {
        let ghost pieces = |c: Coord| self.piece_at(c);
        let mut board_string: String = String::new();

        // Iterate over ranks in reverse order
        let mut rank: u8 = 8;
        while rank > 0
            invariant
                rank <= 8,
                pieces == |c: Coord| self.piece_at(c),
                board_string@ == ascii_ranks_above(pieces, rank - 1),
            decreases rank,
        {
            rank -= 1;
            // Print the rank number
            board_string.push((rank + 49) as char);
            board_string.push(' ');

            // Iterate over files
            let mut file: u8 = 0;
            while file < 8
                invariant
                    rank < 8,
                    file <= 8,
                    pieces == |c: Coord| self.piece_at(c),
                    board_string@ == ascii_ranks_above(pieces, rank as int) + ascii_rank(
                        pieces,
                        rank as int,
                        file as int,
                    ),
                decreases 8 - file,
            {
                board_string.push(' ');
                let piece_symbol: char = get_unicode_piece(self.get_square(Coord::new(file, rank)));
                board_string.push(piece_symbol);
                file += 1;
            }
            board_string.push('\n');
        }
        board_string.append("   a b c d e f g h\n");
        board_string
    }
}

impl StaticBoard for BitBoard {
    /// The first piece, in the order of the piece codes, whose board holds
    /// the square.
    open spec fn piece_at(&self, coord: Coord) -> PieceCode {
        let first = first_holder(self.main_boards@, coord.index(), 0);
        if first < 12 {
            PieceCode::of_code(first + 1)
        } else {
            PieceCode::ES
        }
    }

    /// No square is held by the boards of two different pieces.
    open spec fn wf(&self) -> bool {
        self.disjoint()
    }

    fn reset(&mut self)
        ensures
            final(self).is_start(),
    {
        let fresh = BitBoard::default();
        self.main_boards = fresh.main_boards;
        self.en_passant_board = fresh.en_passant_board;
    }

    fn get_square(&self, coord: Coord) -> (piece_code: PieceCode) {
        let mask: u64 = get_square_bitboard(coord);
        let mut i: usize = 0;
        while i < 12
            invariant
                i <= 12,
                mask == square_mask(coord.index()),
                forall|j: int|
                    0 <= j < i ==> !holds(#[trigger] self.main_boards@[j], coord.index()),
            decreases 12 - i,
        {
            let piece: u64 = self.main_boards[i] & mask;
            if piece != 0 {
                proof {
                    lemma_first_holder_is(self.main_boards@, coord.index(), 0, i as int);
                }
                return PieceCode::from_usize(i + 1);
            }
            i += 1;
        }
        proof {
            lemma_first_holder_is(self.main_boards@, coord.index(), 0, 12);
        }
        PieceCode::ES
    }

    fn set_square(&mut self, piece_code: PieceCode, coord: Coord)
        ensures
            final(self).is_set_of(old(self), piece_code, coord),
    {
        let mask: u64 = get_square_bitboard(coord);
        if piece_code != PieceCode::ES {
            let own: usize = (piece_code.to_u8() - 1) as usize;
            self.main_boards[own] |= mask;
        } else {
            // We're emptying a square, this is a special case, as we will need to find
            // the piece board we will be overwriting
            let mut i: usize = 0;
            while i < 12
                invariant
                    i <= 12,
                    coord.wf(),
                    piece_code == PieceCode::ES,
                    mask == square_mask(coord.index()),
                    *self == *old(self),
                    forall|j: int|
                        0 <= j < i ==> !holds(#[trigger] self.main_boards@[j], coord.index()),
                decreases 12 - i,
            {
                let piece: u64 = self.main_boards[i] & mask;
                if piece != 0 {
                    // We found the correct piece board
                    proof {
                        lemma_first_holder_is(self.main_boards@, coord.index(), 0, i as int);
                    }
                    self.main_boards[i] &= !mask;
                    proof {
                        old(self).lemma_set_square(self, piece_code, coord);
                    }
                    return ;
                }
                i += 1;
            }
            proof {
                lemma_first_holder_is(self.main_boards@, coord.index(), 0, 12);
            }
        }
        proof {
            old(self).lemma_set_square(self, piece_code, coord);
        }
    }
}

impl BitBoard {
    /// What setting a square does to the pieces that a bitboard shows.
    pub proof fn lemma_set_square(&self, after: &BitBoard, piece_code: PieceCode, coord: Coord)
        requires
            coord.wf(),
            after.is_set_of(self, piece_code, coord),
        ensures
            forall|c: Coord|
                c.wf() && c != coord ==> #[trigger] after.piece_at(c) == self.piece_at(c),
            forall|c: Coord|
                c.wf() ==> (#[trigger] after.en_passant_at(c) <==> self.en_passant_at(c)),
            self.piece_at(coord) == PieceCode::ES || (piece_code == PieceCode::ES && self.wf())
                ==> after.piece_at(coord) == piece_code,
            self.wf() && (piece_code == PieceCode::ES || self.piece_at(coord) == PieceCode::ES
                || self.piece_at(coord) == piece_code) ==> after.wf(),
    {
        let before = self.main_boards@;
        let now = after.main_boards@;
        let sq = coord.index();
        let mask = square_mask(sq);
        let first = first_holder(before, sq, 0);
        lemma_first_holder(before, sq, 0);
        lemma_holds_mask(sq);
        assert forall|k: int, c: Coord| 0 <= k < 12 && c.wf() implies #[trigger] holds(
            now[k],
            c.index(),
        ) == if piece_code != PieceCode::ES {
            holds(before[k], c.index()) || (k == piece_code.code() - 1 && c == coord)
        } else {
            holds(before[k], c.index()) && !(k == first && c == coord)
        } by {
            lemma_holds_or(before[k], mask);
            lemma_holds_and_not(before[k], mask);
        }
        assert forall|c: Coord| c.wf() && c != coord implies #[trigger] after.piece_at(c)
            == self.piece_at(c) by {
            lemma_first_holder(before, c.index(), 0);
            lemma_first_holder_is(now, c.index(), 0, first_holder(before, c.index(), 0));
        }
        if self.piece_at(coord) == PieceCode::ES {
            if piece_code != PieceCode::ES {
                lemma_first_holder_is(now, sq, 0, piece_code.code() - 1);
            } else {
                lemma_first_holder_is(now, sq, 0, 12);
            }
        } else if piece_code == PieceCode::ES && self.wf() {
            assert forall|j: int| 0 <= j < 12 implies !holds(#[trigger] now[j], sq) by {
                if j != first {
                    assert(holds(before[first], coord.index()));
                    assert(!holds(before[j], coord.index()));
                }
            }
            lemma_first_holder_is(now, sq, 0, 12);
        }
        if self.wf() && (piece_code == PieceCode::ES || self.piece_at(coord) == PieceCode::ES
            || self.piece_at(coord) == piece_code) {
            assert forall|i: int, j: int, c: Coord|
                #![trigger holds(now[i], c.index()), holds(now[j], c.index())]
                0 <= i < j < 12 && c.wf() implies !(holds(now[i], c.index()) && holds(
                now[j],
                c.index(),
            )) by {
                assert(!(holds(before[i], c.index()) && holds(before[j], c.index())));
                if c == coord && piece_code != PieceCode::ES && first < 12 {
                    assert(holds(before[first], c.index()));
                    if i != first {
                        assert(!(holds(before[i], c.index()) && holds(before[first], c.index())));
                    }
                    if j != first {
                        assert(!(holds(before[j], c.index()) && holds(before[first], c.index())));
                    }
                }
            }
        }
    }
}

impl BitBoard {
    /// Setting on a square the piece that it already shows changes nothing.
    pub proof fn lemma_set_same_piece(&self, after: &BitBoard, piece_code: PieceCode, coord: Coord)
        requires
            coord.wf(),
            piece_code != PieceCode::ES,
            self.piece_at(coord) == piece_code,
            after.is_set_of(self, piece_code, coord),
        ensures
            after.piece_at(coord) == piece_code,
    {
        let before = self.main_boards@;
        let now = after.main_boards@;
        let sq = coord.index();
        lemma_first_holder(before, sq, 0);
        let first = first_holder(before, sq, 0);
        assert forall|k: int| 0 <= k < 12 implies #[trigger] holds(now[k], sq) == holds(
            before[k],
            sq,
        ) by {
            lemma_holds_or(before[k], square_mask(sq));
        }
        lemma_first_holder_is(now, sq, 0, first);
    }
}

impl Position {
    /// What setting a square does to a position: every other square keeps
    /// its piece on both boards, and a well-formed position stays so when
    /// the square was empty or is being emptied.
    pub proof fn lemma_set_square(&self, after: &Position, piece_code: PieceCode, coord: Coord)
        requires
            coord.wf(),
            after.is_set_of(self, piece_code, coord),
        ensures
            forall|c: Coord|
                c.wf() && c != coord ==> #[trigger] after.piece_at(c) == self.piece_at(c),
            forall|c: Coord|
                c.wf() ==> (#[trigger] after.en_passant_at(c) <==> self.en_passant_at(c)),
            after.piece_at(coord) == piece_code,
            self.wf() && (piece_code == PieceCode::ES || self.piece_at(coord) == PieceCode::ES
                || self.piece_at(coord) == piece_code) ==> after.wf(),
    {
        self.piece_centric_board.lemma_set_square(&after.piece_centric_board, piece_code, coord);
        let before = self.square_centric_board;
        let now = after.square_centric_board;
        assert forall|c: Coord| c.wf() && c != coord implies #[trigger] after.piece_at(c)
            == self.piece_at(c) by {
            assert(c.slot() != coord.slot());
        }
        if self.wf() && (piece_code == PieceCode::ES || self.piece_at(coord) == PieceCode::ES
            || self.piece_at(coord) == piece_code) {
            assert(self.piece_centric_board.piece_at(coord) == self.square_centric_board.piece_at(
                coord,
            ));
            assert forall|c: Coord| c.wf() implies #[trigger] now.main_board@[c.padding_slot()]
                == PieceCode::ES by {
                assert(c.padding_slot() != coord.slot());
                assert(before.main_board@[c.padding_slot()] == PieceCode::ES);
            }
            assert forall|c: Coord| c.wf() implies #[trigger] after.piece_centric_board.piece_at(c)
                == after.square_centric_board.piece_at(c) by {
                assert(self.piece_centric_board.piece_at(c) == self.square_centric_board.piece_at(
                    c,
                ));
                if c != coord {
                    assert(c.slot() != coord.slot());
                } else {
                    if self.piece_at(coord) == piece_code && piece_code != PieceCode::ES {
                        self.piece_centric_board.lemma_set_same_piece(
                            &after.piece_centric_board,
                            piece_code,
                            coord,
                        );
                    }
                }
            }
        }
    }
}

impl Position {
    /// Put a piece code on a square of a well-formed position, in place of
    /// whatever stands there. Unlike `set_square`, this keeps the position
    /// well formed whatever the square held.
    pub fn replace_square(&mut self, piece_code: PieceCode, coord: Coord)
        requires
            old(self).wf(),
            coord.wf(),
        ensures
            final(self).is_replaced_of(old(self), piece_code, coord),
    {
        self.set_square(PieceCode::ES, coord);
        let ghost emptied = *self;
        proof {
            old(self).lemma_set_square(&emptied, PieceCode::ES, coord);
        }
        if piece_code != PieceCode::ES {
            self.set_square(piece_code, coord);
            proof {
                emptied.lemma_set_square(self, piece_code, coord);
            }
        }
        assert(self.square_centric_board.en_passant_board =~= old(
            self,
        ).square_centric_board.en_passant_board);
    }
}

impl StaticBoard for Zerox88Board {
    open spec fn piece_at(&self, coord: Coord) -> PieceCode {
        self.main_board@[coord.slot()]
    }

    /// The slots that belong to no square are empty.
    open spec fn wf(&self) -> bool {
        self.padding_is_empty()
    }

    fn reset(&mut self)
        ensures
            final(self).is_start(),
    {
        let fresh = Zerox88Board::default();
        self.main_board = fresh.main_board;
        self.en_passant_board = fresh.en_passant_board;
    }

    fn get_square(&self, coord: Coord) -> (piece_code: PieceCode) {
        self.main_board[zerox88_index(coord)]
    }

    fn set_square(&mut self, piece_code: PieceCode, coord: Coord)
        ensures
            final(self).is_set_of(old(self), piece_code, coord),
    {
        self.main_board[zerox88_index(coord)] = piece_code;
    }
}

impl StaticBoard for Position {
    /// The piece that the square-centric board shows.
    open spec fn piece_at(&self, coord: Coord) -> PieceCode {
        self.square_centric_board.piece_at(coord)
    }

    /// The boards are in sync, no square holds two pieces and the padding of
    /// the square-centric board is empty.
    open spec fn wf(&self) -> bool {
        &&& self.piece_centric_board.wf()
        &&& self.square_centric_board.wf()
        &&& self.in_sync()
    }

    fn reset(&mut self)
        ensures
            final(self).is_start(),
    {
        // Reset the two boards
        self.piece_centric_board.reset();
        self.square_centric_board.reset();

        // Reset the position "metadata"
        self.current_turn = Player::White;
        self.can_castle_kingside = [true, true];
        self.can_castle_queenside = [true, true];
        self.plys_without_capture = 0;
    }

    fn get_square(&self, coord: Coord) -> (piece_code: PieceCode) {
        // More efficient in square centric representation
        self.square_centric_board.get_square(coord)
    }

    fn set_square(&mut self, piece_code: PieceCode, coord: Coord)
        ensures
            final(self).is_set_of(old(self), piece_code, coord),
    {
        self.piece_centric_board.set_square(piece_code, coord);
        self.square_centric_board.set_square(piece_code, coord);
        proof {
            old(self).lemma_set_square(self, piece_code, coord);
        }
    }

    fn ascii(&self) -> (text: String) {
        // More efficient in square centric representation
        let text = self.square_centric_board.ascii();
        proof {
            lemma_same_picture(
                |c: Coord| self.square_centric_board.piece_at(c),
                |c: Coord| self.piece_at(c),
            );
        }
        text
    }
}

/// Two boards that show the same pieces have the same picture.
pub proof fn lemma_same_picture(a: spec_fn(Coord) -> PieceCode, b: spec_fn(Coord) -> PieceCode)
    requires
        forall|c: Coord| c.wf() ==> #[trigger] a(c) == b(c),
    ensures
        ascii_board(a) == ascii_board(b),
{
    lemma_same_ranks_above(a, b, -1);
}

proof fn lemma_same_rank(
    a: spec_fn(Coord) -> PieceCode,
    b: spec_fn(Coord) -> PieceCode,
    rank: int,
    files: int,
)
    requires
        0 <= rank < 8,
        files <= 8,
        forall|c: Coord| c.wf() ==> #[trigger] a(c) == b(c),
    ensures
        ascii_rank(a, rank, files) == ascii_rank(b, rank, files),
    decreases files,
{
    if files > 0 {
        lemma_same_rank(a, b, rank, files - 1);
        assert(Coord::at(files - 1, rank).wf());
    }
}

proof fn lemma_same_ranks_above(
    a: spec_fn(Coord) -> PieceCode,
    b: spec_fn(Coord) -> PieceCode,
    rank: int,
)
    requires
        -1 <= rank,
        forall|c: Coord| c.wf() ==> #[trigger] a(c) == b(c),
    ensures
        ascii_ranks_above(a, rank) == ascii_ranks_above(b, rank),
    decreases 8 - rank,
{
    if rank < 7 {
        lemma_same_ranks_above(a, b, rank + 1);
        lemma_same_rank(a, b, rank + 1, 8);
    }
}

} // verus!
