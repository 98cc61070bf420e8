//! Making a move on a Position, and taking it back.
use super::misc::{
    decode_move, get_move_arrival_coords, get_move_arrival_square, get_move_capture,
    get_move_double_pawn_push, get_move_en_passant_capture, get_move_kingside_castling,
    get_move_piece_code, get_move_promotion, get_move_promotion_piece_code,
    get_move_queenside_castling, get_move_start_coords, move_codes_valid, move_fields, MoveFields,
};
use crate::bits::{holds, lemma_holds_mask, lemma_holds_zero};
use crate::board_representation::{
    empty_array, get_square_bitboard, invert_player, zerox88_index, BitBoard, Coord, PieceCode,
    PieceKind, Player, Position, StaticBoard, Zerox88Board,
};
use vstd::prelude::*;

verus! {

/// What a move wipes out of a position, kept so that the move can be taken
/// back: the castling rights, the counter of the fifty-move rule and the en
/// passant targets.
#[derive(Copy, Clone, Debug)]
pub struct MoveUndo {
    pub can_castle_kingside: [bool; 2],
    pub can_castle_queenside: [bool; 2],
    pub plys_without_capture: u8,
    pub en_passant_board: u64,
}

impl MoveFields {
    /// Whether the move is a castling move, on either side.
    pub open spec fn castling(self) -> bool {
        self.kingside_castling || self.queenside_castling
    }

    /// The piece that stands on the arrival square once the move is made.
    pub open spec fn placed(self) -> PieceCode {
        if self.promotion {
            self.promotion_piece
        } else {
            self.piece
        }
    }

    /// The square of the pawn that an en passant capture takes: on the file
    /// of arrival, on the rank of departure.
    pub open spec fn victim(self) -> Coord {
        Coord { f: self.arrival.f, r: self.start.r }
    }

    /// The corner that the rook leaves when the move is a castling move.
    pub open spec fn rook_start(self) -> Coord {
        Coord { f: if self.kingside_castling { 7u8 } else { 0u8 }, r: self.start.r }
    }

    /// The square beside the king that the rook reaches when the move is a
    /// castling move.
    pub open spec fn rook_arrival(self) -> Coord {
        Coord { f: if self.kingside_castling { 5u8 } else { 3u8 }, r: self.start.r }
    }

    /// The square that a double pawn push passes over.
    pub open spec fn passed_square(self) -> Coord {
        Coord { f: self.start.f, r: ((self.start.r + self.arrival.r) / 2) as u8 }
    }

    /// Whether the fields agree with each other as those of a move of
    /// `mover`: the squares differ, the moved piece is the mover's and what
    /// it takes is not, and each flag goes with the piece and the squares
    /// that it is for.
    pub open spec fn coherent(self, mover: Player) -> bool {
        &&& self.start.wf() && self.arrival.wf() && self.start != self.arrival
        &&& self.piece.owner() == Some(mover)
        &&& self.arrival_square.owner() != Some(mover)
        &&& (self.capture <==> self.arrival_square != PieceCode::ES || self.en_passant_capture)
        &&& !(self.kingside_castling && self.queenside_castling)
        &&& (self.en_passant_capture ==> {
            &&& self.piece.kind() == Some(PieceKind::Pawn)
            &&& self.arrival_square == PieceCode::ES
            &&& !self.castling()
            &&& self.arrival.f != self.start.f
            &&& self.arrival.r != self.start.r
        })
        &&& (self.castling() ==> {
            &&& self.piece.kind() == Some(PieceKind::King)
            &&& self.arrival_square == PieceCode::ES
            &&& !self.promotion
            &&& self.start.f == 4
            &&& self.arrival.r == self.start.r
            &&& self.arrival.f == if self.kingside_castling { 6int } else { 2int }
        })
        &&& (self.promotion ==> self.piece.kind() == Some(PieceKind::Pawn)
            && self.promotion_piece.owner() == Some(mover))
        &&& (self.double_pawn_push ==> {
            &&& self.piece.kind() == Some(PieceKind::Pawn)
            &&& self.arrival.f == self.start.f
            &&& (self.arrival.r == self.start.r + 2 || self.arrival.r + 2 == self.start.r)
        })
    }

    /// The piece on `c` once the move is made on `before`.
    pub open spec fn piece_after(self, before: &Position, c: Coord) -> PieceCode {
        if c == self.start {
            PieceCode::ES
        } else if c == self.arrival {
            self.placed()
        } else if self.en_passant_capture && c == self.victim() {
            PieceCode::ES
        } else if self.castling() && c == self.rook_start() {
            PieceCode::ES
        } else if self.castling() && c == self.rook_arrival() {
            before.piece_at(self.rook_start())
        } else {
            before.piece_at(c)
        }
    }

    /// The piece on `c` once the move is taken back from `made`.
    pub open spec fn piece_before(self, made: &Position, c: Coord) -> PieceCode {
        if c == self.start {
            self.piece
        } else if c == self.arrival {
            self.arrival_square
        } else if self.en_passant_capture && c == self.victim() {
            PieceCode::of(made.current_turn, PieceKind::Pawn)
        } else if self.castling() && c == self.rook_start() {
            made.piece_at(self.rook_arrival())
        } else if self.castling() && c == self.rook_arrival() {
            PieceCode::ES
        } else {
            made.piece_at(c)
        }
    }

    /// Whether the move ends the right of `player` to castle on the given
    /// side: the player's king moves or is taken, or a piece leaves or
    /// reaches the corner of the rook.
    pub open spec fn forfeits(self, player: Player, kingside: bool) -> bool {
        let king = PieceCode::of(player, PieceKind::King);
        let corner = Coord { f: if kingside { 7u8 } else { 0u8 }, r: player.home_rank() };
        self.piece == king || self.arrival_square == king || self.start == corner || self.arrival
            == corner
    }

    /// Whether the move sets the counter of the fifty-move rule back to
    /// zero: it is a capture or a pawn move.
    pub open spec fn resets_counter(self) -> bool {
        self.capture || self.piece.kind() == Some(PieceKind::Pawn)
    }
}

impl Position {
    /// What has to be kept of the position to take a move back.
    pub open spec fn undo_record(&self) -> MoveUndo {
        MoveUndo {
            can_castle_kingside: self.can_castle_kingside,
            can_castle_queenside: self.can_castle_queenside,
            plys_without_capture: self.plys_without_capture,
            en_passant_board: self.piece_centric_board.en_passant_board,
        }
    }

    /// Whether the move can be made on the position: its fields are
    /// coherent for the player to move, and the squares that it names hold
    /// what it says.
    pub open spec fn fits(&self, m: MoveFields) -> bool {
        let mover = self.current_turn;
        &&& m.coherent(mover)
        &&& self.piece_at(m.start) == m.piece
        &&& self.piece_at(m.arrival) == m.arrival_square
        &&& (m.en_passant_capture ==> self.piece_at(m.victim()) == PieceCode::of(
            mover.opponent(),
            PieceKind::Pawn,
        ))
        &&& (m.castling() ==> self.piece_at(m.rook_start()) == PieceCode::of(
            mover,
            PieceKind::Rook,
        ) && self.piece_at(m.rook_arrival()) == PieceCode::ES)
    }

    /// Whether the move can be taken back from the position: its fields are
    /// coherent for the player who has just moved, and the squares that it
    /// names hold what the move left there.
    pub open spec fn fits_undo(&self, m: MoveFields) -> bool {
        let mover = self.current_turn.opponent();
        &&& m.coherent(mover)
        &&& self.piece_at(m.start) == PieceCode::ES
        &&& self.piece_at(m.arrival) == m.placed()
        &&& (m.en_passant_capture ==> self.piece_at(m.victim()) == PieceCode::ES)
        &&& (m.castling() ==> self.piece_at(m.rook_start()) == PieceCode::ES && self.piece_at(
            m.rook_arrival(),
        ) == PieceCode::of(mover, PieceKind::Rook))
    }

    /// Whether the position is `before` with the move made on it: the
    /// pieces stand as the move puts them, the only en passant target is the
    /// square that a double pawn push passed over, the turn has changed
    /// hands, the castling rights that the move forfeits are gone and the
    /// others are as they were, and the counter of the fifty-move rule is
    /// back to zero or one higher (it stays at 255 once there).
    pub open spec fn is_made_from(&self, before: &Position, m: MoveFields) -> bool {
        &&& self.wf()
        &&& forall|c: Coord| c.wf() ==> #[trigger] self.piece_at(c) == m.piece_after(before, c)
        &&& forall|c: Coord|
            c.wf() ==> #[trigger] self.square_centric_board.en_passant_board@[c.slot()]
                == if m.double_pawn_push && c == m.passed_square() {
                PieceCode::WP
            } else {
                PieceCode::ES
            }
        &&& self.current_turn == before.current_turn.opponent()
        &&& forall|i: int|
            0 <= i < 2 ==> #[trigger] self.can_castle_kingside@[i] == (
            before.can_castle_kingside@[i] && !m.forfeits(Player::of_index(i), true))
        &&& forall|i: int|
            0 <= i < 2 ==> #[trigger] self.can_castle_queenside@[i] == (
            before.can_castle_queenside@[i] && !m.forfeits(Player::of_index(i), false))
        &&& self.plys_without_capture == if m.resets_counter() {
            0int
        } else if before.plys_without_capture < 255 {
            before.plys_without_capture + 1
        } else {
            255int
        }
    }

    /// Whether the position is `made` with the move taken back: the pieces
    /// stand as they did before the move, the turn has changed hands, and
    /// the en passant targets, the castling rights and the counter of the
    /// fifty-move rule are those of `undo`.
    pub open spec fn is_unmade_from(&self, made: &Position, m: MoveFields, undo: MoveUndo) -> bool {
        &&& self.wf()
        &&& forall|c: Coord| c.wf() ==> #[trigger] self.piece_at(c) == m.piece_before(made, c)
        &&& forall|c: Coord|
            c.wf() ==> #[trigger] self.square_centric_board.en_passant_board@[c.slot()] == if holds(
                undo.en_passant_board,
                c.index(),
            ) {
                PieceCode::WP
            } else {
                PieceCode::ES
            }
        &&& self.piece_centric_board.en_passant_board == undo.en_passant_board
        &&& self.current_turn == made.current_turn.opponent()
        &&& self.can_castle_kingside@ == undo.can_castle_kingside@
        &&& self.can_castle_queenside@ == undo.can_castle_queenside@
        &&& self.plys_without_capture == undo.plys_without_capture
    }

    /// Replace the en passant targets of both boards by the squares of
    /// `targets`. The pieces and the state of the game stay as they are.
    pub fn set_en_passant_board(&mut self, targets: u64)
        ensures
            final(self).piece_centric_board.main_boards == old(
                self,
            ).piece_centric_board.main_boards,
            final(self).square_centric_board.main_board == old(
                self,
            ).square_centric_board.main_board,
            final(self).piece_centric_board.en_passant_board == targets,
            forall|c: Coord|
                c.wf() ==> #[trigger] final(self).square_centric_board.en_passant_board@[c.slot()]
                    == if holds(targets, c.index()) {
                    PieceCode::WP
                } else {
                    PieceCode::ES
                },
            forall|c: Coord|
                #![trigger final(self).square_centric_board.en_passant_board@[c.padding_slot()]]
                c.wf() ==> final(self).square_centric_board.en_passant_board@[c.padding_slot()]
                    == PieceCode::ES,
            final(self).same_state_as(old(self)),
            old(self).wf() ==> final(self).wf(),
    {
        let mut marks: [PieceCode; 128] = empty_array();
        let mut rank: u8 = 0;
        while rank < 8
            invariant
                rank <= 8,
                forall|c: Coord|
                    c.wf() ==> #[trigger] marks@[c.slot()] == if c.r < rank && holds(
                        targets,
                        c.index(),
                    ) {
                        PieceCode::WP
                    } else {
                        PieceCode::ES
                    },
                forall|c: Coord| c.wf() ==> #[trigger] marks@[c.padding_slot()] == PieceCode::ES,
            decreases 8 - rank,
        {
            let mut file: u8 = 0;
            while file < 8
                invariant
                    rank < 8,
                    file <= 8,
                    forall|c: Coord|
                        c.wf() ==> #[trigger] marks@[c.slot()] == if (c.r < rank || (c.r == rank
                            && c.f < file)) && holds(targets, c.index()) {
                            PieceCode::WP
                        } else {
                            PieceCode::ES
                        },
                    forall|c: Coord|
                        c.wf() ==> #[trigger] marks@[c.padding_slot()] == PieceCode::ES,
                decreases 8 - file,
            {
                let coord = Coord::new(file, rank);
                let slot: usize = zerox88_index(coord);
                assert(forall|c: Coord| c.wf() ==> #[trigger] c.padding_slot() != slot);
                assert(forall|c: Coord| c.wf() && c != coord ==> #[trigger] c.slot() != slot);
                if targets & get_square_bitboard(coord) != 0 {
                    marks[slot] = PieceCode::WP;
                }
                file += 1;
            }
            rank += 1;
        }
        self.piece_centric_board.en_passant_board = targets;
        self.square_centric_board.en_passant_board = marks;
        proof {
            if old(self).wf() {
                assert(self.piece_centric_board.main_boards@ == old(
                    self,
                ).piece_centric_board.main_boards@);
                assert(self.square_centric_board.main_board@ == old(
                    self,
                ).square_centric_board.main_board@);
                assert forall|c: Coord| c.wf() implies #[trigger] self.piece_centric_board.piece_at(
                    c,
                ) == self.square_centric_board.piece_at(c) by {
                    assert(old(self).piece_centric_board.piece_at(c) == old(
                        self,
                    ).square_centric_board.piece_at(c));
                }
                assert forall|c: Coord| c.wf() implies (
                #[trigger] self.piece_centric_board.en_passant_at(c)
                    <==> self.square_centric_board.en_passant_at(c)) by {
                    assert(self.square_centric_board.en_passant_board@[c.slot()] == if holds(
                        targets,
                        c.index(),
                    ) {
                        PieceCode::WP
                    } else {
                        PieceCode::ES
                    });
                }
                assert(self.piece_centric_board.disjoint());
                let board = self.square_centric_board.main_board@;
                assert forall|c: Coord| c.wf() implies #[trigger] board[c.padding_slot()]
                    == PieceCode::ES by {
                    assert(old(self).square_centric_board.main_board@[c.padding_slot()]
                        == PieceCode::ES);
                }
            }
        }
    }
}

/// Whether a move ends the right of `player` to castle on the given side.
fn forfeits_castling(
    piece: PieceCode,
    arrival_square: PieceCode,
    start: Coord,
    arrival: Coord,
    player: Player,
    kingside: bool,
) -> (forfeits: bool)
    ensures
        forfeits == (MoveFields {
            start,
            arrival,
            piece,
            arrival_square,
            capture: false,
            en_passant_capture: false,
            double_pawn_push: false,
            promotion: false,
            kingside_castling: false,
            queenside_castling: false,
            check: false,
            checkmate: false,
            promotion_piece: PieceCode::ES,
        }).forfeits(player, kingside),
{
    let king = PieceCode::of(player, PieceKind::King);
    let corner_file: u8 = if kingside { 7 } else { 0 };
    let home: u8 = player.home_rank();
    piece == king || arrival_square == king || (start.f == corner_file && start.r == home) || (
    arrival.f == corner_file && arrival.r == home)
}

impl Position {
    /// Move the pieces of both boards as an encoded move says. The en
    /// passant targets and the state of the game stay as they are.
    pub fn apply_move_to_boards(&mut self, mov: u32)
        requires
            old(self).wf(),
            move_codes_valid(mov),
            old(self).fits(move_fields(mov)),
        ensures
            final(self).wf(),
            forall|c: Coord|
                c.wf() ==> #[trigger] final(self).piece_at(c) == move_fields(mov).piece_after(
                    old(self),
                    c,
                ),
            final(self).piece_centric_board.en_passant_board == old(
                self,
            ).piece_centric_board.en_passant_board,
            final(self).square_centric_board.en_passant_board == old(
                self,
            ).square_centric_board.en_passant_board,
            final(self).same_state_as(old(self)),
    {
        let ghost m = move_fields(mov);
        let start = get_move_start_coords(mov);
        let arrival = get_move_arrival_coords(mov);
        let piece = get_move_piece_code(mov);
        let kingside: bool = get_move_kingside_castling(mov);
        let queenside: bool = get_move_queenside_castling(mov);

        self.replace_square(PieceCode::ES, start);
        if get_move_en_passant_capture(mov) {
            self.replace_square(PieceCode::ES, Coord::new(arrival.f, start.r));
        }
        let placed = if get_move_promotion(mov) {
            get_move_promotion_piece_code(mov)
        } else {
            piece
        };
        self.replace_square(placed, arrival);
        if kingside || queenside {
            let rook_start = Coord::new(if kingside { 7 } else { 0 }, start.r);
            let rook_arrival = Coord::new(if kingside { 5 } else { 3 }, start.r);
            let rook = self.get_square(rook_start);
            self.replace_square(PieceCode::ES, rook_start);
            self.replace_square(rook, rook_arrival);
        }
    }

    /// Apply an encoded move to the position: both boards, the en passant
    /// target, the castling rights, the counter of the fifty-move rule and
    /// the turn. Returns what is needed to take the move back.
    ///
    /// The counter never goes down but to zero, on a capture or a pawn move,
    /// and no castling right comes back.
    pub fn make_move(&mut self, mov: u32) -> (undo: MoveUndo)
        requires
            old(self).wf(),
            move_codes_valid(mov),
            old(self).fits(move_fields(mov)),
        ensures
            final(self).is_made_from(old(self), move_fields(mov)),
            undo == old(self).undo_record(),
            final(self).piece_centric_board.single_en_passant_target(),
            final(self).plys_without_capture >= old(self).plys_without_capture || (final(
                self).plys_without_capture == 0 && move_fields(mov).resets_counter()),
            forall|i: int|
                0 <= i < 2 && #[trigger] final(self).can_castle_kingside@[i] ==> old(
                    self,
                ).can_castle_kingside@[i],
            forall|i: int|
                0 <= i < 2 && #[trigger] final(self).can_castle_queenside@[i] ==> old(
                    self,
                ).can_castle_queenside@[i],
    {
        let ghost m = move_fields(mov);
        let start = get_move_start_coords(mov);
        let arrival = get_move_arrival_coords(mov);
        let piece = get_move_piece_code(mov);
        let arrival_square = get_move_arrival_square(mov);
        let undo = MoveUndo {
            can_castle_kingside: self.can_castle_kingside,
            can_castle_queenside: self.can_castle_queenside,
            plys_without_capture: self.plys_without_capture,
            en_passant_board: self.piece_centric_board.en_passant_board,
        };

        self.apply_move_to_boards(mov);
        let ghost applied = *self;

        // Only a double pawn push leaves an en passant target
        if get_move_double_pawn_push(mov) {
            let passed = Coord::new(start.f, (start.r + arrival.r) / 2);
            proof {
                lemma_holds_mask(passed.index());
            }
            self.set_en_passant_board(get_square_bitboard(passed));
        } else {
            proof {
                lemma_holds_zero();
            }
            self.set_en_passant_board(0);
        }
        let ghost moved = *self;

        // A castling right that is gone never comes back
        if forfeits_castling(piece, arrival_square, start, arrival, Player::White, true) {
            self.can_castle_kingside[0] = false;
        }
        if forfeits_castling(piece, arrival_square, start, arrival, Player::Black, true) {
            self.can_castle_kingside[1] = false;
        }
        if forfeits_castling(piece, arrival_square, start, arrival, Player::White, false) {
            self.can_castle_queenside[0] = false;
        }
        if forfeits_castling(piece, arrival_square, start, arrival, Player::Black, false) {
            self.can_castle_queenside[1] = false;
        }

        // Fifty-move rule
        if get_move_capture(mov) || piece == PieceCode::WP || piece == PieceCode::BP {
            self.plys_without_capture = 0;
        } else if self.plys_without_capture < 255 {
            self.plys_without_capture += 1;
        }
        self.current_turn = invert_player(&self.current_turn);
        proof {
            assert(self.piece_centric_board == moved.piece_centric_board);
            assert(self.square_centric_board == moved.square_centric_board);
            moved.lemma_same_boards(self);
            assert(self.piece_centric_board.single_en_passant_target()) by {
                lemma_holds_mask(m.passed_square().index());
                lemma_holds_zero();
            }
            assert forall|c: Coord| c.wf() implies #[trigger] self.piece_at(c) == m.piece_after(
                old(self),
                c,
            ) by {
                assert(self.piece_at(c) == moved.piece_at(c));
                assert(moved.square_centric_board.main_board@
                    == applied.square_centric_board.main_board@);
                assert(moved.piece_at(c) == applied.piece_at(c));
            }
            assert(forall|c: Coord|
                c.wf() ==> #[trigger] self.square_centric_board.en_passant_board@[c.slot()]
                    == if m.double_pawn_push && c == m.passed_square() {
                    PieceCode::WP
                } else {
                    PieceCode::ES
                });
            assert(self.current_turn == old(self).current_turn.opponent());
        }
        undo
    }

    /// A position with the boards of a well-formed one is well formed, and
    /// shows the same pieces.
    pub proof fn lemma_same_boards(&self, other: &Position)
        requires
            self.wf(),
            other.piece_centric_board == self.piece_centric_board,
            other.square_centric_board == self.square_centric_board,
        ensures
            other.wf(),
            forall|c: Coord| c.wf() ==> #[trigger] other.piece_at(c) == self.piece_at(c),
    {
        assert forall|c: Coord| c.wf() implies #[trigger] other.piece_centric_board.piece_at(c)
            == other.square_centric_board.piece_at(c) by {
            assert(self.piece_centric_board.piece_at(c) == self.square_centric_board.piece_at(c));
        }
        assert forall|c: Coord| c.wf() implies (
        #[trigger] other.piece_centric_board.en_passant_at(c)
            <==> other.square_centric_board.en_passant_at(c)) by {
            assert(self.piece_centric_board.en_passant_at(c)
                <==> self.square_centric_board.en_passant_at(c));
        }
    }
}

impl Position {
    /// Take an encoded move back from the position on which it was made:
    /// both boards, the turn, and from `undo` the en passant targets, the
    /// castling rights and the counter of the fifty-move rule.
    pub fn unmake_move(&mut self, mov: u32, undo: MoveUndo)
        requires
            old(self).wf(),
            move_codes_valid(mov),
            old(self).fits_undo(move_fields(mov)),
        ensures
            final(self).is_unmade_from(old(self), move_fields(mov), undo),
    {
        let ghost m = move_fields(mov);
        let start = get_move_start_coords(mov);
        let arrival = get_move_arrival_coords(mov);
        let piece = get_move_piece_code(mov);
        let arrival_square = get_move_arrival_square(mov);
        let kingside: bool = get_move_kingside_castling(mov);
        let queenside: bool = get_move_queenside_castling(mov);
        let waiting: Player = self.current_turn;

        // Move the pieces back
        if kingside || queenside {
            let rook_start = Coord::new(if kingside { 7 } else { 0 }, start.r);
            let rook_arrival = Coord::new(if kingside { 5 } else { 3 }, start.r);
            let rook = self.get_square(rook_arrival);
            self.replace_square(PieceCode::ES, rook_arrival);
            self.replace_square(rook, rook_start);
        }
        self.replace_square(arrival_square, arrival);
        self.replace_square(piece, start);
        if get_move_en_passant_capture(mov) {
            self.replace_square(
                PieceCode::of(waiting, PieceKind::Pawn),
                Coord::new(arrival.f, start.r),
            );
        }
        let ghost replaced = *self;
        assert(forall|c: Coord|
            c.wf() ==> #[trigger] replaced.piece_at(c) == m.piece_before(old(self), c));

        self.set_en_passant_board(undo.en_passant_board);
        let ghost marked = *self;
        self.can_castle_kingside = undo.can_castle_kingside;
        self.can_castle_queenside = undo.can_castle_queenside;
        self.plys_without_capture = undo.plys_without_capture;
        self.current_turn = invert_player(&waiting);
        proof {
            assert(self.piece_centric_board == marked.piece_centric_board);
            assert(self.square_centric_board == marked.square_centric_board);
            marked.lemma_same_boards(self);
            assert forall|c: Coord| c.wf() implies #[trigger] self.piece_at(c) == m.piece_before(
                old(self),
                c,
            ) by {
                assert(self.piece_at(c) == marked.piece_at(c));
                assert(marked.square_centric_board.main_board@
                    == replaced.square_centric_board.main_board@);
                assert(marked.piece_at(c) == replaced.piece_at(c));
            }
        }
    }

    /// A copy of the position.
    pub fn duplicate(&self) -> (copy: Position)
        ensures
            copy == *self,
    {
        Position {
            piece_centric_board: BitBoard {
                main_boards: self.piece_centric_board.main_boards,
                en_passant_board: self.piece_centric_board.en_passant_board,
            },
            square_centric_board: Zerox88Board {
                main_board: self.square_centric_board.main_board,
                en_passant_board: self.square_centric_board.en_passant_board,
            },
            current_turn: self.current_turn,
            can_castle_kingside: self.can_castle_kingside,
            can_castle_queenside: self.can_castle_queenside,
            plys_without_capture: self.plys_without_capture,
        }
    }
}

/// Taking back a move that was made on a position gives the position back:
/// the same piece on every square, the same en passant targets, the same
/// turn, castling rights and counter of the fifty-move rule. The position on
/// which a move was made is always one from which it can be taken back.
pub proof fn lemma_unmake_restores(before: Position, made: Position, back: Position, m: MoveFields)
    requires
        before.wf(),
        before.fits(m),
        made.is_made_from(&before, m),
        back.is_unmade_from(&made, m, before.undo_record()),
    ensures
        made.fits_undo(m),
        forall|c: Coord| c.wf() ==> #[trigger] back.piece_at(c) == before.piece_at(c),
        forall|c: Coord| c.wf() ==> (#[trigger] back.en_passant_at(c) <==> before.en_passant_at(c)),
        back.piece_centric_board == before.piece_centric_board,
        back.square_centric_board.main_board == before.square_centric_board.main_board,
        back.current_turn == before.current_turn,
        back.same_state_as(&before),
{
    lemma_made_fits_undo(before, made, m);
    lemma_unmake_restores_pieces(before, made, back, m);
    back.piece_centric_board.lemma_same_pieces(&before.piece_centric_board);
    assert forall|c: Coord| c.wf() implies #[trigger] back.square_centric_board.piece_at(c)
        == before.square_centric_board.piece_at(c) by {
        assert(back.piece_at(c) == before.piece_at(c));
    }
    back.square_centric_board.lemma_same_pieces(&before.square_centric_board);
}

/// Taking back a move that was made on a position puts every piece back
/// and marks the same en passant targets on both boards.
proof fn lemma_unmake_restores_pieces(
    before: Position,
    made: Position,
    back: Position,
    m: MoveFields,
)
    requires
        before.wf(),
        before.fits(m),
        made.is_made_from(&before, m),
        back.is_unmade_from(&made, m, before.undo_record()),
    ensures
        forall|c: Coord| c.wf() ==> #[trigger] back.piece_at(c) == before.piece_at(c),
        forall|c: Coord| c.wf() ==> (#[trigger] back.en_passant_at(c) <==> before.en_passant_at(c)),
        forall|c: Coord|
            c.wf() ==> #[trigger] back.piece_centric_board.piece_at(c)
                == before.piece_centric_board.piece_at(c),
        forall|c: Coord|
            c.wf() ==> (#[trigger] back.piece_centric_board.en_passant_at(c)
                <==> before.piece_centric_board.en_passant_at(c)),
{
    assert forall|c: Coord| c.wf() implies #[trigger] back.piece_at(c) == before.piece_at(c) by {
        assert(back.piece_at(c) == m.piece_before(&made, c));
        assert(made.piece_at(c) == m.piece_after(&before, c));
        assert(made.piece_at(m.rook_arrival()) == m.piece_after(&before, m.rook_arrival()));
    }
    assert forall|c: Coord| c.wf() implies (#[trigger] back.en_passant_at(c)
        <==> before.en_passant_at(c)) by {
        assert(before.piece_centric_board.en_passant_at(c)
            <==> before.square_centric_board.en_passant_at(c));
        assert(back.square_centric_board.en_passant_board@[c.slot()] == if holds(
            before.piece_centric_board.en_passant_board,
            c.index(),
        ) {
            PieceCode::WP
        } else {
            PieceCode::ES
        });
    }
    assert forall|c: Coord| c.wf() implies #[trigger] back.piece_centric_board.piece_at(c)
        == before.piece_centric_board.piece_at(c) by {
        assert(back.piece_centric_board.piece_at(c) == back.square_centric_board.piece_at(c));
        assert(before.piece_centric_board.piece_at(c) == before.square_centric_board.piece_at(
            c,
        ));
        assert(back.piece_at(c) == before.piece_at(c));
    }
}

/// Making a move never lowers the counter of the fifty-move rule but to
/// zero, which it does on a capture or a pawn move and only then; it never
/// gives a castling right back; and it leaves one en passant target at most.
pub proof fn lemma_make_move_monotone(before: Position, made: Position, m: MoveFields)
    requires
        made.is_made_from(&before, m),
    ensures
        made.plys_without_capture >= before.plys_without_capture || made.plys_without_capture == 0,
        made.plys_without_capture < before.plys_without_capture ==> m.resets_counter(),
        m.resets_counter() ==> made.plys_without_capture == 0,
        forall|i: int|
            0 <= i < 2 && #[trigger] made.can_castle_kingside@[i]
                ==> before.can_castle_kingside@[i],
        forall|i: int|
            0 <= i < 2 && #[trigger] made.can_castle_queenside@[i]
                ==> before.can_castle_queenside@[i],
        made.piece_centric_board.single_en_passant_target(),
{
    assert forall|a: Coord, b: Coord|
        a.wf() && b.wf() && #[trigger] made.piece_centric_board.en_passant_at(a)
            && #[trigger] made.piece_centric_board.en_passant_at(b) implies a == b by {
        assert(made.square_centric_board.en_passant_at(a));
        assert(made.square_centric_board.en_passant_at(b));
        assert(made.square_centric_board.en_passant_board@[a.slot()] != PieceCode::ES);
        assert(made.square_centric_board.en_passant_board@[b.slot()] != PieceCode::ES);
    }
}

/// The position on which a move was made is one from which it can be taken
/// back.
pub proof fn lemma_made_fits_undo(before: Position, made: Position, m: MoveFields)
    requires
        before.wf(),
        before.fits(m),
        made.is_made_from(&before, m),
    ensures
        made.fits_undo(m),
{
    assert(made.piece_at(m.start) == m.piece_after(&before, m.start));
    assert(made.piece_at(m.arrival) == m.piece_after(&before, m.arrival));
    if m.en_passant_capture {
        assert(m.victim().wf());
        assert(made.piece_at(m.victim()) == m.piece_after(&before, m.victim()));
    }
    if m.castling() {
        assert(m.rook_start().wf() && m.rook_arrival().wf());
        assert(made.piece_at(m.rook_start()) == m.piece_after(&before, m.rook_start()));
        assert(made.piece_at(m.rook_arrival()) == m.piece_after(&before, m.rook_arrival()));
    }
}

/// Whether the fields of a move agree with each other as those of a move of
/// `mover`.
fn is_coherent(fields: &MoveFields, mover: Player) -> (coherent: bool)
    requires
        fields.start.wf(),
        fields.arrival.wf(),
    ensures
        coherent == fields.coherent(mover),
{
    let start = fields.start;
    let arrival = fields.arrival;
    let pawn: bool = fields.piece.kind() == Some(PieceKind::Pawn);
    let castling: bool = fields.kingside_castling || fields.queenside_castling;
    if start.f == arrival.f && start.r == arrival.r {
        return false;
    }
    if fields.piece.owner() != Some(mover) || fields.arrival_square.owner() == Some(mover) {
        return false;
    }
    if fields.capture != (fields.arrival_square != PieceCode::ES || fields.en_passant_capture) {
        return false;
    }
    if fields.kingside_castling && fields.queenside_castling {
        return false;
    }
    if fields.en_passant_capture && !(pawn && fields.arrival_square == PieceCode::ES && !castling
        && arrival.f != start.f && arrival.r != start.r) {
        return false;
    }
    if castling && !(fields.piece.kind() == Some(PieceKind::King) && fields.arrival_square
        == PieceCode::ES && !fields.promotion && start.f == 4 && arrival.r == start.r && arrival.f
        == (if fields.kingside_castling { 6 } else { 2 })) {
        return false;
    }
    if fields.promotion && !(pawn && fields.promotion_piece.owner() == Some(mover)) {
        return false;
    }
    if fields.double_pawn_push && !(pawn && arrival.f == start.f && (arrival.r == start.r + 2
        || arrival.r + 2 == start.r)) {
        return false;
    }
    true
}

impl Position {
    /// Whether the encoded move can be made on the position: its piece
    /// codes are piece codes, its fields are coherent for the player to
    /// move, and the squares that it names hold what it says.
    pub fn fits_move(&self, mov: u32) -> (fits: bool)
        ensures
            fits == (move_codes_valid(mov) && self.fits(move_fields(mov))),
    {
        let fields: MoveFields = match decode_move(mov) {
            Some(fields) => fields,
            None => {
                return false;
            },
        };
        let mover: Player = self.current_turn;
        let start = fields.start;
        let arrival = fields.arrival;
        let kingside: bool = fields.kingside_castling;
        let queenside: bool = fields.queenside_castling;
        if !is_coherent(&fields, mover) {
            return false;
        }
        if self.get_square(start) != fields.piece || self.get_square(arrival)
            != fields.arrival_square {
            return false;
        }
        if fields.en_passant_capture && self.get_square(Coord::new(arrival.f, start.r))
            != PieceCode::of(invert_player(&mover), PieceKind::Pawn) {
            return false;
        }
        if kingside || queenside {
            let rook_start = Coord::new(if kingside { 7 } else { 0 }, start.r);
            let rook_arrival = Coord::new(if kingside { 5 } else { 3 }, start.r);
            if self.get_square(rook_start) != PieceCode::of(mover, PieceKind::Rook)
                || self.get_square(rook_arrival) != PieceCode::ES {
                return false;
            }
        }
        true
    }
}

impl Position {
    /// Whether the encoded move can be taken back from the position: its
    /// piece codes are piece codes, its fields are coherent for the player
    /// who has just moved, and the squares that it names hold what the move
    /// left there.
    pub fn fits_undo_move(&self, mov: u32) -> (fits: bool)
        ensures
            fits == (move_codes_valid(mov) && self.fits_undo(move_fields(mov))),
    {
        let fields: MoveFields = match decode_move(mov) {
            Some(fields) => fields,
            None => {
                return false;
            },
        };
        let mover: Player = invert_player(&self.current_turn);
        let start = fields.start;
        let arrival = fields.arrival;
        let kingside: bool = fields.kingside_castling;
        let queenside: bool = fields.queenside_castling;
        if !is_coherent(&fields, mover) {
            return false;
        }
        let placed: PieceCode = if fields.promotion {
            fields.promotion_piece
        } else {
            fields.piece
        };
        if self.get_square(start) != PieceCode::ES || self.get_square(arrival) != placed {
            return false;
        }
        if fields.en_passant_capture && self.get_square(Coord::new(arrival.f, start.r))
            != PieceCode::ES {
            return false;
        }
        if kingside || queenside {
            let rook_start = Coord::new(if kingside { 7 } else { 0 }, start.r);
            let rook_arrival = Coord::new(if kingside { 5 } else { 3 }, start.r);
            if self.get_square(rook_start) != PieceCode::ES || self.get_square(rook_arrival)
                != PieceCode::of(mover, PieceKind::Rook) {
                return false;
            }
        }
        true
    }
}

} // verus!
