//! The fundamental datatypes: players, piece codes, coordinates, the two
//! board representations and the position that owns both.
use super::misc::zerox88_index;
use super::static_board::StaticBoard;
use crate::bits::{holds, lemma_holds_zero, lemma_same_squares, square_mask, square_of};
use vstd::prelude::*;

verus! {

/// Represents either the black or white player.
#[derive(Copy, Clone, Debug, PartialEq, Eq, Structural)]
pub enum Player {
    White,
    Black,
}

/// Represents any piece, or the empty square.
#[derive(Copy, Clone, Debug, PartialEq, Eq, Structural)]
pub enum PieceCode {
    /// Empty square
    ES,
    /// White pawn
    WP,
    /// White knight
    WN,
    /// White bishop
    WB,
    /// White rook
    WR,
    /// White queen
    WQ,
    /// White king
    WK,
    /// Black pawn
    BP,
    /// Black knight
    BN,
    /// Black bishop
    BB,
    /// Black rook
    BR,
    /// Black queen
    BQ,
    /// Black king
    BK,
}

/// Represents what a piece is, whoever owns it.
#[derive(Copy, Clone, Debug, PartialEq, Eq, Structural)]
pub enum PieceKind {
    Pawn,
    Knight,
    Bishop,
    Rook,
    Queen,
    King,
}

/// Piece-centric bitboard representation. One `u64` describes the squares
/// that one kind of piece occupies, in row-major order starting from a1.
#[derive(Debug)]
pub struct BitBoard {
    /// One board per piece kind, in the order of the piece codes: the board
    /// of the piece with code `c` stands at index `c - 1`.
    pub main_boards: [u64; 12],
    /// Only one en passant board is needed, as it changes every ply.
    pub en_passant_board: u64,
}

/// Square-centric 0x88 board representation: 16 slots per rank, of which
/// the first 8 are the squares of the rank and the other 8 are padding.
#[derive(Debug)]
pub struct Zerox88Board {
    pub main_board: [PieceCode; 128],
    /// A slot marks an en passant target when it holds anything but `ES`.
    pub en_passant_board: [PieceCode; 128],
}

/// Everything that describes a chess position: where the pieces stand (in
/// both representations) and the state of the game around them.
#[derive(Debug)]
pub struct Position {
    /// Piece-centric bitboard representation
    pub piece_centric_board: BitBoard,
    /// Square-centric 0x88 representation
    pub square_centric_board: Zerox88Board,
    pub current_turn: Player,
    /// Whether each player may still castle on the king's side
    /// (index 0: White, index 1: Black).
    pub can_castle_kingside: [bool; 2],
    /// Whether each player may still castle on the queen's side.
    pub can_castle_queenside: [bool; 2],
    /// Plies played since the last capture or pawn move (fifty-move rule).
    pub plys_without_capture: u8,
}

/// A square in algebraic notation, with the files numbered 0 to 7 in place
/// of a to h.
#[derive(Copy, Clone, Debug, PartialEq, Eq, Structural)]
pub struct Coord {
    pub f: u8,
    pub r: u8,
}

impl Player {
    /// The index of the player in the castling-rights arrays.
    pub open spec fn spec_index(self) -> usize {
        match self {
            Player::White => 0,
            Player::Black => 1,
        }
    }

    /// The index of the player in the castling-rights arrays.
    #[verifier::when_used_as_spec(spec_index)]
    pub fn index(self) -> (index: usize)
        ensures
            index == self.spec_index(),
    {
        match self {
            Player::White => 0,
            Player::Black => 1,
        }
    }

    /// The player whose castling rights stand at `index`.
    pub open spec fn of_index(index: int) -> Player {
        if index == 0 {
            Player::White
        } else {
            Player::Black
        }
    }

    /// The rank on which the pieces of the player start.
    pub open spec fn spec_home_rank(self) -> u8 {
        match self {
            Player::White => 0,
            Player::Black => 7,
        }
    }

    /// The rank on which the pieces of the player start.
    #[verifier::when_used_as_spec(spec_home_rank)]
    pub fn home_rank(self) -> (rank: u8)
        ensures
            rank == self.spec_home_rank(),
    {
        match self {
            Player::White => 0,
            Player::Black => 7,
        }
    }

    /// The other player.
    pub open spec fn opponent(self) -> Player {
        match self {
            Player::White => Player::Black,
            Player::Black => Player::White,
        }
    }
}

impl PieceCode {
    /// The number of the piece code: 0 for the empty square, 1 to 6 for the
    /// white pieces, 7 to 12 for the black ones.
    pub open spec fn code(self) -> int {
        match self {
            PieceCode::ES => 0,
            PieceCode::WP => 1,
            PieceCode::WN => 2,
            PieceCode::WB => 3,
            PieceCode::WR => 4,
            PieceCode::WQ => 5,
            PieceCode::WK => 6,
            PieceCode::BP => 7,
            PieceCode::BN => 8,
            PieceCode::BB => 9,
            PieceCode::BR => 10,
            PieceCode::BQ => 11,
            PieceCode::BK => 12,
        }
    }

    /// The piece code with the given number; the empty square for a number
    /// that belongs to no piece.
    pub open spec fn of_code(code: int) -> PieceCode {
        if code == 1 {
            PieceCode::WP
        } else if code == 2 {
            PieceCode::WN
        } else if code == 3 {
            PieceCode::WB
        } else if code == 4 {
            PieceCode::WR
        } else if code == 5 {
            PieceCode::WQ
        } else if code == 6 {
            PieceCode::WK
        } else if code == 7 {
            PieceCode::BP
        } else if code == 8 {
            PieceCode::BN
        } else if code == 9 {
            PieceCode::BB
        } else if code == 10 {
            PieceCode::BR
        } else if code == 11 {
            PieceCode::BQ
        } else if code == 12 {
            PieceCode::BK
        } else {
            PieceCode::ES
        }
    }

    /// The player who owns the piece, if it is one.
    pub open spec fn spec_owner(self) -> Option<Player> {
        if self.code() == 0 {
            None
        } else if self.code() <= 6 {
            Some(Player::White)
        } else {
            Some(Player::Black)
        }
    }

    /// The player who owns the piece, if it is one.
    #[verifier::when_used_as_spec(spec_owner)]
    pub fn owner(self) -> (player: Option<Player>)
        ensures
            player == self.spec_owner(),
    {
        let code: u8 = self.to_u8();
        if code == 0 {
            None
        } else if code <= 6 {
            Some(Player::White)
        } else {
            Some(Player::Black)
        }
    }

    /// What the piece is, if it is one.
    pub open spec fn spec_kind(self) -> Option<PieceKind> {
        match self {
            PieceCode::ES => None,
            PieceCode::WP | PieceCode::BP => Some(PieceKind::Pawn),
            PieceCode::WN | PieceCode::BN => Some(PieceKind::Knight),
            PieceCode::WB | PieceCode::BB => Some(PieceKind::Bishop),
            PieceCode::WR | PieceCode::BR => Some(PieceKind::Rook),
            PieceCode::WQ | PieceCode::BQ => Some(PieceKind::Queen),
            PieceCode::WK | PieceCode::BK => Some(PieceKind::King),
        }
    }

    /// What the piece is, if it is one.
    #[verifier::when_used_as_spec(spec_kind)]
    pub fn kind(self) -> (kind: Option<PieceKind>)
        ensures
            kind == self.spec_kind(),
    {
        match self {
            PieceCode::ES => None,
            PieceCode::WP | PieceCode::BP => Some(PieceKind::Pawn),
            PieceCode::WN | PieceCode::BN => Some(PieceKind::Knight),
            PieceCode::WB | PieceCode::BB => Some(PieceKind::Bishop),
            PieceCode::WR | PieceCode::BR => Some(PieceKind::Rook),
            PieceCode::WQ | PieceCode::BQ => Some(PieceKind::Queen),
            PieceCode::WK | PieceCode::BK => Some(PieceKind::King),
        }
    }

    /// The piece of the given kind that the player owns.
    pub open spec fn spec_of(player: Player, kind: PieceKind) -> PieceCode {
        match (player, kind) {
            (Player::White, PieceKind::Pawn) => PieceCode::WP,
            (Player::White, PieceKind::Knight) => PieceCode::WN,
            (Player::White, PieceKind::Bishop) => PieceCode::WB,
            (Player::White, PieceKind::Rook) => PieceCode::WR,
            (Player::White, PieceKind::Queen) => PieceCode::WQ,
            (Player::White, PieceKind::King) => PieceCode::WK,
            (Player::Black, PieceKind::Pawn) => PieceCode::BP,
            (Player::Black, PieceKind::Knight) => PieceCode::BN,
            (Player::Black, PieceKind::Bishop) => PieceCode::BB,
            (Player::Black, PieceKind::Rook) => PieceCode::BR,
            (Player::Black, PieceKind::Queen) => PieceCode::BQ,
            (Player::Black, PieceKind::King) => PieceCode::BK,
        }
    }

    /// The piece of the given kind that the player owns.
    #[verifier::when_used_as_spec(spec_of)]
    pub fn of(player: Player, kind: PieceKind) -> (piece: PieceCode)
        ensures
            piece == PieceCode::spec_of(player, kind),
            piece.spec_owner() == Some(player),
            piece.spec_kind() == Some(kind),
    {
        match (player, kind) {
            (Player::White, PieceKind::Pawn) => PieceCode::WP,
            (Player::White, PieceKind::Knight) => PieceCode::WN,
            (Player::White, PieceKind::Bishop) => PieceCode::WB,
            (Player::White, PieceKind::Rook) => PieceCode::WR,
            (Player::White, PieceKind::Queen) => PieceCode::WQ,
            (Player::White, PieceKind::King) => PieceCode::WK,
            (Player::Black, PieceKind::Pawn) => PieceCode::BP,
            (Player::Black, PieceKind::Knight) => PieceCode::BN,
            (Player::Black, PieceKind::Bishop) => PieceCode::BB,
            (Player::Black, PieceKind::Rook) => PieceCode::BR,
            (Player::Black, PieceKind::Queen) => PieceCode::BQ,
            (Player::Black, PieceKind::King) => PieceCode::BK,
        }
    }

    /// The number of the piece code.
    pub fn to_u8(self) -> (code: u8)
        ensures
            code == self.code(),
    {
        match self {
            PieceCode::ES => 0,
            PieceCode::WP => 1,
            PieceCode::WN => 2,
            PieceCode::WB => 3,
            PieceCode::WR => 4,
            PieceCode::WQ => 5,
            PieceCode::WK => 6,
            PieceCode::BP => 7,
            PieceCode::BN => 8,
            PieceCode::BB => 9,
            PieceCode::BR => 10,
            PieceCode::BQ => 11,
            PieceCode::BK => 12,
        }
    }
}

/// Numbering the piece codes loses nothing.
pub proof fn lemma_piece_code_numbering(piece: PieceCode)
    ensures
        0 <= piece.code() <= 12,
        PieceCode::of_code(piece.code()) == piece,
{
}

impl Coord {
    /// Both coordinates lie on the board.
    pub open spec fn wf(self) -> bool {
        self.f < 8 && self.r < 8
    }

    /// The number of the square in row-major order from a1.
    pub open spec fn index(self) -> int {
        square_of(self.f as int, self.r as int)
    }

    /// The slot of the square in a 0x88 array.
    pub open spec fn slot(self) -> int {
        self.r * 16 + self.f
    }

    /// The padding slot that stands eight places after the slot of the
    /// square in a 0x88 array. Every padding slot belongs to one square.
    pub open spec fn padding_slot(self) -> int {
        self.r * 16 + self.f + 8
    }

    /// The square on the given file and rank.
    pub open spec fn at(file: int, rank: int) -> Coord {
        Coord { f: file as u8, r: rank as u8 }
    }

    /// Builds a coordinate from a file and a rank that lie on the board.
    pub fn new(file: u8, rank: u8) -> (coord: Coord)
        requires
            file < 8,
            rank < 8,
        ensures
            coord.f == file,
            coord.r == rank,
            coord.wf(),
    {
        Coord { f: file, r: rank }
    }

    /// Builds a coordinate, or nothing when the file or the rank lies off
    /// the board.
    pub fn try_new(file: u8, rank: u8) -> (coord: Option<Coord>)
        ensures
            coord.is_some() <==> file < 8 && rank < 8,
            coord matches Some(c) ==> c.f == file && c.r == rank,
    {
        if file < 8 && rank < 8 {
            Some(Coord { f: file, r: rank })
        } else {
            None
        }
    }
}

/// Default trait for Coord is the a1 square.
impl Default for Coord {
    fn default() -> (coord: Coord)
        ensures
            coord.f == 0,
            coord.r == 0,
    {
        Coord { f: 0, r: 0 }
    }
}

/// The piece that stands on `coord` when a game starts.
pub open spec fn start_piece(coord: Coord) -> PieceCode {
    if coord.r == 0 {
        back_rank_piece(coord.f as int, Player::White)
    } else if coord.r == 1 {
        PieceCode::WP
    } else if coord.r == 6 {
        PieceCode::BP
    } else if coord.r == 7 {
        back_rank_piece(coord.f as int, Player::Black)
    } else {
        PieceCode::ES
    }
}

/// The piece that a player has on the given file of the home rank when a
/// game starts.
pub open spec fn back_rank_piece(file: int, player: Player) -> PieceCode {
    let white = player == Player::White;
    if file == 0 || file == 7 {
        if white { PieceCode::WR } else { PieceCode::BR }
    } else if file == 1 || file == 6 {
        if white { PieceCode::WN } else { PieceCode::BN }
    } else if file == 2 || file == 5 {
        if white { PieceCode::WB } else { PieceCode::BB }
    } else if file == 3 {
        if white { PieceCode::WQ } else { PieceCode::BQ }
    } else if file == 4 {
        if white { PieceCode::WK } else { PieceCode::BK }
    } else {
        PieceCode::ES
    }
}

/// The index of the first board, at or after `from`, that holds the square
/// `sq`; the number of boards when none does.
pub open spec fn first_holder(boards: Seq<u64>, sq: int, from: int) -> int
    decreases boards.len() - from,
{
    if from >= boards.len() {
        boards.len() as int
    } else if holds(boards[from], sq) {
        from
    } else {
        first_holder(boards, sq, from + 1)
    }
}

/// The index of the last board, before `until`, that holds the square `sq`;
/// -1 when none does.
pub open spec fn last_holder(boards: Seq<u64>, sq: int, until: int) -> int
    decreases until,
{
    if until <= 0 {
        -1
    } else if holds(boards[until - 1], sq) {
        until - 1
    } else {
        last_holder(boards, sq, until - 1)
    }
}

impl BitBoard {
    /// The last piece, in the order of the piece codes, whose board holds the
    /// square. It is the piece on the square whenever the boards are disjoint.
    pub open spec fn last_piece_at(&self, coord: Coord) -> PieceCode {
        PieceCode::of_code(last_holder(self.main_boards@, coord.index(), 12) + 1)
    }

    /// Whether `coord` is marked as an en passant target.
    pub open spec fn en_passant_at(&self, coord: Coord) -> bool {
        holds(self.en_passant_board, coord.index())
    }

    /// At most one square is marked as an en passant target, as after a
    /// double pawn push.
    pub open spec fn single_en_passant_target(&self) -> bool {
        forall|a: Coord, b: Coord|
            a.wf() && b.wf() && #[trigger] self.en_passant_at(a) && #[trigger] self.en_passant_at(b)
                ==> a == b
    }

    /// No square is held by the boards of two different pieces.
    pub open spec fn disjoint(&self) -> bool {
        forall|i: int, j: int, c: Coord|
            #![trigger holds(self.main_boards@[i], c.index()), holds(
                self.main_boards@[j],
                c.index(),
            )]
            0 <= i < j < 12 && c.wf() ==> !(holds(self.main_boards@[i], c.index()) && holds(
                self.main_boards@[j],
                c.index(),
            ))
    }

    /// Whether the board is `before` after `piece_code` was set on `coord`:
    /// a piece is added to its own board, whatever the other boards hold;
    /// the empty square takes the square away from the first board that
    /// holds it.
    pub open spec fn is_set_of(
        &self,
        before: &BitBoard,
        piece_code: PieceCode,
        coord: Coord,
    ) -> bool {
        let boards = before.main_boards@;
        let own = piece_code.code() - 1;
        let first = first_holder(boards, coord.index(), 0);
        &&& self.en_passant_board == before.en_passant_board
        &&& self.main_boards@ == if piece_code != PieceCode::ES {
            boards.update(own, boards[own] | square_mask(coord.index()))
        } else if first < 12 {
            boards.update(first, boards[first] & !square_mask(coord.index()))
        } else {
            boards
        }
    }

    /// The board of each piece holds exactly the squares on which `board`
    /// shows that piece, and the en passant board exactly the squares that
    /// `board` marks as en passant targets.
    pub open spec fn is_copy_of_0x88(&self, board: &Zerox88Board) -> bool {
        &&& forall|i: int, c: Coord|
            0 <= i < 12 && c.wf() ==> (#[trigger] holds(self.main_boards@[i], c.index())
                <==> board.piece_at(c).code() == i + 1)
        &&& forall|c: Coord|
            c.wf() ==> (#[trigger] self.en_passant_at(c) <==> board.en_passant_at(c))
    }

    /// The board shows the position in which a game starts, with no en
    /// passant target.
    pub open spec fn is_start(&self) -> bool {
        &&& forall|c: Coord| c.wf() ==> #[trigger] self.piece_at(c) == start_piece(c)
        &&& forall|c: Coord| c.wf() ==> !#[trigger] self.en_passant_at(c)
        &&& self.disjoint()
    }
}

impl Zerox88Board {
    /// Whether `coord` is marked as an en passant target.
    pub open spec fn en_passant_at(&self, coord: Coord) -> bool {
        self.en_passant_board@[coord.slot()] != PieceCode::ES
    }

    /// The slots that belong to no square are empty in both arrays.
    pub open spec fn padding_is_empty(&self) -> bool {
        &&& forall|c: Coord|
            c.wf() ==> #[trigger] self.main_board@[c.padding_slot()] == PieceCode::ES
        &&& forall|c: Coord|
            c.wf() ==> #[trigger] self.en_passant_board@[c.padding_slot()] == PieceCode::ES
    }

    /// Whether the board is `before` after `piece_code` was set on `coord`.
    pub open spec fn is_set_of(
        &self,
        before: &Zerox88Board,
        piece_code: PieceCode,
        coord: Coord,
    ) -> bool {
        &&& self.main_board@ == before.main_board@.update(coord.slot(), piece_code)
        &&& self.en_passant_board@ == before.en_passant_board@
    }

    /// Every square shows the last piece of `bitboard` on it, every en
    /// passant target of `bitboard` is marked with a white pawn and no other
    /// square is marked, and the padding is empty.
    pub open spec fn is_copy_of_bitboard(&self, bitboard: &BitBoard) -> bool {
        &&& forall|c: Coord| c.wf() ==> #[trigger] self.piece_at(c) == bitboard.last_piece_at(c)
        &&& forall|c: Coord|
            c.wf() ==> #[trigger] self.en_passant_board@[c.slot()] == if bitboard.en_passant_at(c) {
                PieceCode::WP
            } else {
                PieceCode::ES
            }
        &&& self.padding_is_empty()
    }

    /// The board shows the position in which a game starts, with no en
    /// passant target.
    pub open spec fn is_start(&self) -> bool {
        &&& forall|c: Coord| c.wf() ==> #[trigger] self.piece_at(c) == start_piece(c)
        &&& forall|c: Coord| c.wf() ==> !#[trigger] self.en_passant_at(c)
        &&& self.padding_is_empty()
    }
}

impl Position {
    /// Whether `coord` is marked as an en passant target.
    pub open spec fn en_passant_at(&self, coord: Coord) -> bool {
        self.square_centric_board.en_passant_at(coord)
    }

    /// The two boards show the same pieces and the same en passant targets
    /// on every square.
    pub open spec fn in_sync(&self) -> bool {
        &&& forall|c: Coord|
            c.wf() ==> #[trigger] self.piece_centric_board.piece_at(c)
                == self.square_centric_board.piece_at(c)
        &&& forall|c: Coord|
            c.wf() ==> (#[trigger] self.piece_centric_board.en_passant_at(c)
                <==> self.square_centric_board.en_passant_at(c))
    }

    /// Whether the position is `before` after `piece_code` was set on
    /// `coord` of both boards.
    pub open spec fn is_set_of(
        &self,
        before: &Position,
        piece_code: PieceCode,
        coord: Coord,
    ) -> bool {
        &&& self.piece_centric_board.is_set_of(&before.piece_centric_board, piece_code, coord)
        &&& self.square_centric_board.is_set_of(&before.square_centric_board, piece_code, coord)
        &&& self.same_state_as(before)
    }

    /// The piece on each square of the board.
    pub open spec fn placement(&self) -> Map<Coord, PieceCode> {
        Map::new(|c: Coord| c.wf(), |c: Coord| self.piece_at(c))
    }

    /// Whether the position is `before` with `piece_code` on `coord` in
    /// place of what stood there: a well-formed position in which every
    /// other square, the en passant targets and the state of the game are
    /// as they were.
    pub open spec fn is_replaced_of(
        &self,
        before: &Position,
        piece_code: PieceCode,
        coord: Coord,
    ) -> bool {
        &&& self.wf()
        &&& forall|c: Coord|
            c.wf() ==> #[trigger] self.piece_at(c) == if c == coord {
                piece_code
            } else {
                before.piece_at(c)
            }
        &&& self.piece_centric_board.en_passant_board == before.piece_centric_board.en_passant_board
        &&& self.square_centric_board.en_passant_board
            == before.square_centric_board.en_passant_board
        &&& self.same_state_as(before)
    }

    /// The turn, the castling rights and the counter of the fifty-move rule
    /// are those of `other`.
    pub open spec fn same_state_as(&self, other: &Position) -> bool {
        &&& self.current_turn == other.current_turn
        &&& self.can_castle_kingside@ == other.can_castle_kingside@
        &&& self.can_castle_queenside@ == other.can_castle_queenside@
        &&& self.plys_without_capture == other.plys_without_capture
    }

    /// The position in which a game starts: White to move, every castling
    /// right intact, the counter of the fifty-move rule at zero.
    pub open spec fn is_start(&self) -> bool {
        &&& self.piece_centric_board.is_start()
        &&& self.square_centric_board.is_start()
        &&& self.current_turn == Player::White
        &&& self.can_castle_kingside@ == seq![true, true]
        &&& self.can_castle_queenside@ == seq![true, true]
        &&& self.plys_without_capture == 0
    }
}

/// What `first_holder` returns is the first board from `from` on that holds
/// the square, and nothing else is.
pub proof fn lemma_first_holder(boards: Seq<u64>, sq: int, from: int)
    requires
        0 <= from <= boards.len(),
    ensures
        from <= first_holder(boards, sq, from) <= boards.len(),
        first_holder(boards, sq, from) < boards.len() ==> holds(
            boards[first_holder(boards, sq, from)],
            sq,
        ),
        forall|j: int|
            from <= j < first_holder(boards, sq, from) ==> !holds(#[trigger] boards[j], sq),
    decreases boards.len() - from,
{
    if from < boards.len() && !holds(boards[from], sq) {
        lemma_first_holder(boards, sq, from + 1);
    }
}

/// A board that holds the square, with none before it that does, is the
/// first holder.
pub proof fn lemma_first_holder_is(boards: Seq<u64>, sq: int, from: int, at: int)
    requires
        0 <= from <= at <= boards.len(),
        at < boards.len() ==> holds(boards[at], sq),
        forall|j: int| from <= j < at ==> !holds(#[trigger] boards[j], sq),
    ensures
        first_holder(boards, sq, from) == at,
    decreases at - from,
{
    if from < at {
        lemma_first_holder_is(boards, sq, from + 1, at);
    }
}

/// What `last_holder` returns is the last board before `until` that holds
/// the square, and nothing else is.
pub proof fn lemma_last_holder(boards: Seq<u64>, sq: int, until: int)
    requires
        0 <= until <= boards.len(),
    ensures
        -1 <= last_holder(boards, sq, until) < until,
        last_holder(boards, sq, until) >= 0 ==> holds(boards[last_holder(boards, sq, until)], sq),
        forall|j: int|
            last_holder(boards, sq, until) < j < until ==> !holds(#[trigger] boards[j], sq),
    decreases until,
{
    if until > 0 && !holds(boards[until - 1], sq) {
        lemma_last_holder(boards, sq, until - 1);
    }
}

impl BitBoard {
    /// On disjoint boards a square has one holder at most, so the first and
    /// the last piece on it are the same.
    pub proof fn lemma_disjoint_single_holder(&self, coord: Coord)
        requires
            self.disjoint(),
            coord.wf(),
        ensures
            self.last_piece_at(coord) == self.piece_at(coord),
            forall|i: int|
                0 <= i < 12 ==> (#[trigger] holds(self.main_boards@[i], coord.index())
                    <==> self.piece_at(coord).code() == i + 1),
    {
        let boards = self.main_boards@;
        let sq = coord.index();
        lemma_first_holder(boards, sq, 0);
        lemma_last_holder(boards, sq, 12);
        let first = first_holder(boards, sq, 0);
        let last = last_holder(boards, sq, 12);
        if first < 12 {
            assert(holds(boards[first], coord.index()));
            if last != first {
                assert(holds(boards[last], coord.index()));
            }
        }
        assert forall|i: int| 0 <= i < 12 implies (#[trigger] holds(boards[i], coord.index())
            <==> self.piece_at(coord).code() == i + 1) by {
            if holds(boards[i], coord.index()) && first < 12 && i != first {
                assert(holds(boards[first], coord.index()));
            }
        }
    }

    /// A copy of a square-centric board shows the same piece on every
    /// square, and its boards are disjoint.
    pub proof fn lemma_copy_of_0x88(&self, board: &Zerox88Board)
        requires
            self.is_copy_of_0x88(board),
        ensures
            self.disjoint(),
            forall|c: Coord| c.wf() ==> #[trigger] self.piece_at(c) == board.piece_at(c),
    {
        assert forall|c: Coord| c.wf() implies #[trigger] self.piece_at(c) == board.piece_at(c) by {
            let boards = self.main_boards@;
            let code = board.piece_at(c).code();
            lemma_piece_code_numbering(board.piece_at(c));
            if code == 0 {
                assert forall|j: int| 0 <= j < 12 implies !holds(
                    #[trigger] boards[j],
                    c.index(),
                ) by {}
                lemma_first_holder_is(boards, c.index(), 0, 12);
            } else {
                assert(holds(boards[code - 1], c.index()));
                assert forall|j: int| 0 <= j < code - 1 implies !holds(
                    #[trigger] boards[j],
                    c.index(),
                ) by {}
                lemma_first_holder_is(boards, c.index(), 0, code - 1);
            }
        }
    }
}

/// The boards of the twelve pieces when a game starts. Each byte can be
/// seen as a rank, the first rank in the most significant byte.
fn start_boards() -> (boards: [u64; 12])
    ensures
        forall|i: int, c: Coord|
            0 <= i < 12 && c.wf() ==> (#[trigger] holds(boards@[i], c.index()) <==> start_piece(
                c,
            ).code() == i + 1),
{
    let boards: [u64; 12] = [
        0x00_ff_00_00_00_00_00_00,  // White pawns
        0x42_00_00_00_00_00_00_00,  // White knights
        0x24_00_00_00_00_00_00_00,  // White bishops
        0x81_00_00_00_00_00_00_00,  // White rooks
        0x10_00_00_00_00_00_00_00,  // White queen
        0x08_00_00_00_00_00_00_00,  // White king
        0x00_00_00_00_00_00_ff_00,  // Black pawns
        0x00_00_00_00_00_00_00_42,  // Black knights
        0x00_00_00_00_00_00_00_24,  // Black bishops
        0x00_00_00_00_00_00_00_81,  // Black rooks
        0x00_00_00_00_00_00_00_10,  // Black queen
        0x00_00_00_00_00_00_00_08,  // Black king
    ];
    proof {
        assert forall|i: int, c: Coord| 0 <= i < 12 && c.wf() implies (#[trigger] holds(
            boards@[i],
            c.index(),
        ) <==> start_piece(c).code() == i + 1) by {
            let f = c.f as u64;
            let r = c.r as u64;
            let at: u64 = 0x8000_0000_0000_0000u64 >> (r * 8 + f);
            assert(f < 8 && r < 8 && at == 0x8000_0000_0000_0000u64 >> (r * 8 + f) ==> {
                &&& ((0x00_ff_00_00_00_00_00_00u64 & at != 0) == (r == 1))
                &&& ((0x42_00_00_00_00_00_00_00u64 & at != 0) == (r == 0 && (f == 1 || f == 6)))
                &&& ((0x24_00_00_00_00_00_00_00u64 & at != 0) == (r == 0 && (f == 2 || f == 5)))
                &&& ((0x81_00_00_00_00_00_00_00u64 & at != 0) == (r == 0 && (f == 0 || f == 7)))
                &&& ((0x10_00_00_00_00_00_00_00u64 & at != 0) == (r == 0 && f == 3))
                &&& ((0x08_00_00_00_00_00_00_00u64 & at != 0) == (r == 0 && f == 4))
                &&& ((0x00_00_00_00_00_00_ff_00u64 & at != 0) == (r == 6))
                &&& ((0x00_00_00_00_00_00_00_42u64 & at != 0) == (r == 7 && (f == 1 || f == 6)))
                &&& ((0x00_00_00_00_00_00_00_24u64 & at != 0) == (r == 7 && (f == 2 || f == 5)))
                &&& ((0x00_00_00_00_00_00_00_81u64 & at != 0) == (r == 7 && (f == 0 || f == 7)))
                &&& ((0x00_00_00_00_00_00_00_10u64 & at != 0) == (r == 7 && f == 3))
                &&& ((0x00_00_00_00_00_00_00_08u64 & at != 0) == (r == 7 && f == 4))
            }) by (bit_vector);
        }
    }
    boards
}

/// The piece that stands on `coord` when a game starts.
fn starting_piece(coord: Coord) -> (piece: PieceCode)
    ensures
        piece == start_piece(coord),
{
    let white: bool = coord.r < 4;
    if coord.r == 1 {
        PieceCode::WP
    } else if coord.r == 6 {
        PieceCode::BP
    } else if coord.r == 0 || coord.r == 7 {
        if coord.f == 0 || coord.f == 7 {
            if white { PieceCode::WR } else { PieceCode::BR }
        } else if coord.f == 1 || coord.f == 6 {
            if white { PieceCode::WN } else { PieceCode::BN }
        } else if coord.f == 2 || coord.f == 5 {
            if white { PieceCode::WB } else { PieceCode::BB }
        } else if coord.f == 3 {
            if white { PieceCode::WQ } else { PieceCode::BQ }
        } else if coord.f == 4 {
            if white { PieceCode::WK } else { PieceCode::BK }
        } else {
            PieceCode::ES
        }
    } else {
        PieceCode::ES
    }
}

/// Default trait for bitboard is the normal starting position.
impl Default for BitBoard {
    fn default() -> (board: BitBoard)
        ensures
            board.is_start(),
    {
        let board = BitBoard { main_boards: start_boards(), en_passant_board: 0 };
        proof {
            lemma_holds_zero();
            let boards = board.main_boards@;
            assert forall|c: Coord| c.wf() implies #[trigger] board.piece_at(c) == start_piece(
                c,
            ) by {
                let code = start_piece(c).code();
                if code == 0 {
                    assert forall|j: int| 0 <= j < 12 implies !holds(
                        #[trigger] boards[j],
                        c.index(),
                    ) by {}
                    lemma_first_holder_is(boards, c.index(), 0, 12);
                } else {
                    assert(holds(boards[code - 1], c.index()));
                    assert forall|j: int| 0 <= j < code - 1 implies !holds(
                        #[trigger] boards[j],
                        c.index(),
                    ) by {}
                    lemma_first_holder_is(boards, c.index(), 0, code - 1);
                }
            }
        }
        board
    }
}

impl BitBoard {
    /// Shorthand for default.
    pub fn new() -> (board: BitBoard)
        ensures
            board.is_start(),
    {
        BitBoard::default()
    }
}

/// A square-centric array in which every slot is empty.
pub fn empty_array() -> (array: [PieceCode; 128])
    ensures
        forall|slot: int| 0 <= slot < 128 ==> #[trigger] array@[slot] == PieceCode::ES,
{
    let mut slots: [PieceCode; 128] = [PieceCode::ES;128];
    let mut slot: usize = 0;
    while slot < 128
        invariant
            slot <= 128,
            forall|k: int| 0 <= k < slot ==> #[trigger] slots@[k] == PieceCode::ES,
        decreases 128 - slot,
    {
        slots[slot] = PieceCode::ES;
        slot += 1;
    }
    slots
}

/// The square-centric array of the position in which a game starts.
fn start_array() -> (array: [PieceCode; 128])
    ensures
        forall|c: Coord| c.wf() ==> #[trigger] array@[c.slot()] == start_piece(c),
        forall|c: Coord| c.wf() ==> #[trigger] array@[c.padding_slot()] == PieceCode::ES,
{
    let mut main_board: [PieceCode; 128] = empty_array();
    let mut rank: u8 = 0;
    while rank < 8
        invariant
            rank <= 8,
            forall|c: Coord|
                c.wf() && c.r < rank ==> #[trigger] main_board@[c.slot()] == start_piece(c),
            forall|c: Coord| c.wf() ==> #[trigger] main_board@[c.padding_slot()] == PieceCode::ES,
        decreases 8 - rank,
    {
        let mut file: u8 = 0;
        while file < 8
            invariant
                rank < 8,
                file <= 8,
                forall|c: Coord|
                    c.wf() && (c.r < rank || (c.r == rank && c.f < file))
                        ==> #[trigger] main_board@[c.slot()] == start_piece(c),
                forall|c: Coord|
                    c.wf() ==> #[trigger] main_board@[c.padding_slot()] == PieceCode::ES,
            decreases 8 - file,
        {
            let coord = Coord::new(file, rank);
            let slot: usize = zerox88_index(coord);
            main_board[slot] = starting_piece(coord);
            file += 1;
        }
        rank += 1;
    }
    main_board
}

/// Default trait for Zerox88Board is the normal starting position.
impl Default for Zerox88Board {
    fn default() -> (board: Zerox88Board)
        ensures
            board.is_start(),
    {
        Zerox88Board { main_board: start_array(), en_passant_board: empty_array() }
    }
}

impl Zerox88Board {
    /// Shorthand for default.
    pub fn new() -> (board: Zerox88Board)
        ensures
            board.is_start(),
    {
        Zerox88Board::default()
    }
}

/// Default trait for Position is the normal starting position.
/// Both piece and square centric boards are initialized.
impl Default for Position {
    fn default() -> (position: Position)
        ensures
            position.is_start(),
            position.wf(),
    {
        Position {
            piece_centric_board: BitBoard::default(),
            square_centric_board: Zerox88Board::default(),
            current_turn: Player::White,
            can_castle_kingside: [true, true],
            can_castle_queenside: [true, true],
            plys_without_capture: 0,
        }
    }
}

impl Position {
    /// Shorthand for default.
    pub fn new() -> (position: Position)
        ensures
            position.is_start(),
            position.wf(),
    {
        Position::default()
    }
}

/// Two boards that hold the same squares of the chessboard are the same
/// board.
pub proof fn lemma_same_board(x: u64, y: u64)
    requires
        forall|c: Coord| c.wf() ==> holds(x, #[trigger] c.index()) == holds(y, c.index()),
    ensures
        x == y,
{
    assert forall|sq: int| 0 <= sq < 64 implies holds(x, sq) == holds(y, sq) by {
        let c = Coord { f: (sq % 8) as u8, r: (sq / 8) as u8 };
        assert(c.wf() && c.index() == sq);
    }
    lemma_same_squares(x, y);
}

impl BitBoard {
    /// A well-formed bitboard is known by the piece that it shows on each
    /// square and by its en passant targets.
    pub proof fn lemma_same_pieces(&self, other: &BitBoard)
        requires
            self.wf(),
            other.wf(),
            forall|c: Coord| c.wf() ==> #[trigger] self.piece_at(c) == other.piece_at(c),
            forall|c: Coord|
                c.wf() ==> (#[trigger] self.en_passant_at(c) <==> other.en_passant_at(c)),
        ensures
            *self == *other,
    {
        assert forall|i: int| 0 <= i < 12 implies self.main_boards@[i] == other.main_boards@[i] by {
            assert forall|c: Coord| c.wf() implies holds(
                self.main_boards@[i],
                #[trigger] c.index(),
            ) == holds(other.main_boards@[i], c.index()) by {
                self.lemma_disjoint_single_holder(c);
                other.lemma_disjoint_single_holder(c);
            }
            lemma_same_board(self.main_boards@[i], other.main_boards@[i]);
        }
        assert(self.main_boards =~= other.main_boards);
        assert forall|c: Coord| c.wf() implies holds(
            self.en_passant_board,
            #[trigger] c.index(),
        ) == holds(other.en_passant_board, c.index()) by {
            assert(self.en_passant_at(c) <==> other.en_passant_at(c));
        }
        lemma_same_board(self.en_passant_board, other.en_passant_board);
    }
}

impl Zerox88Board {
    /// The main array of a well-formed square-centric board is known by the
    /// piece that it shows on each square.
    pub proof fn lemma_same_pieces(&self, other: &Zerox88Board)
        requires
            self.wf(),
            other.wf(),
            forall|c: Coord| c.wf() ==> #[trigger] self.piece_at(c) == other.piece_at(c),
        ensures
            self.main_board == other.main_board,
    {
        assert forall|slot: int| 0 <= slot < 128 implies self.main_board@[slot]
            == other.main_board@[slot] by {
            let c = Coord { f: (slot % 8) as u8, r: (slot / 16) as u8 };
            assert(c.wf());
            if slot % 16 < 8 {
                assert(c.slot() == slot);
                assert(self.piece_at(c) == other.piece_at(c));
            } else {
                assert(c.padding_slot() == slot);
                assert(self.main_board@[c.padding_slot()] == PieceCode::ES);
                assert(other.main_board@[c.padding_slot()] == PieceCode::ES);
            }
        }
        assert(self.main_board =~= other.main_board);
    }
}

} // verus!
