//! Legal moves: the pseudo-legal moves that do not leave the king of the
//! player who moves under attack.
use super::misc::{
    get_all_pieces_bitboard, get_move_kingside_castling, get_move_queenside_castling,
    get_move_start_coords, move_codes_valid, move_fields, MoveFields,
};
use super::pseudolegal_generator::{attack_board, attacks, PLMoveLUT};
use super::pseudolegal_moves::{generate_moves, lists, pseudo_legal};
use crate::bits::{holds, square_mask};
use crate::board_representation::{
    get_square_bitboard, invert_player, Coord, PieceCode, PieceKind, Player, Position,
    StaticBoard,
};
use vstd::prelude::*;

verus! {

/// Whether a piece of the player `by` attacks the square `target`.
pub open spec fn attacked(board: Map<Coord, PieceCode>, target: Coord, by: Player) -> bool {
    exists|from: Coord|
        from.wf() && (#[trigger] board[from]).owner() == Some(by) && attacks(board, from, target)
}

/// Whether no king of `player` stands on a square that the other player
/// attacks.
pub open spec fn king_safe(board: Map<Coord, PieceCode>, player: Player) -> bool {
    forall|c: Coord|
        c.wf() && #[trigger] board[c] == PieceCode::of(player, PieceKind::King) ==> !attacked(
            board,
            c,
            player.opponent(),
        )
}

impl MoveFields {
    /// The piece on each square once the move is made on `before`.
    pub open spec fn placement_after(self, before: &Position) -> Map<Coord, PieceCode> {
        Map::new(|c: Coord| c.wf(), |c: Coord| self.piece_after(before, c))
    }
}

/// Whether a move that fits the position is legal: once it is made, no king
/// of the player who moved is attacked; and a castling king neither stands
/// on an attacked square before it moves nor crosses one.
pub open spec fn legal_move(position: &Position, m: MoveFields) -> bool {
    let mover = position.current_turn;
    &&& king_safe(m.placement_after(position), mover)
    &&& (m.castling() ==> !attacked(position.placement(), m.start, mover.opponent()) && !attacked(
        position.placement(),
        m.rook_arrival(),
        mover.opponent(),
    ))
}

/// Whether a piece of the player `by` attacks the square `target` in the
/// position.
pub fn is_attacked(position: &Position, lut: &PLMoveLUT, target: Coord, by: Player) -> (found: bool)
    requires
        position.wf(),
        lut.wf(),
        target.wf(),
    ensures
        found == attacked(position.placement(), target, by),
{
    let occupied: u64 = get_all_pieces_bitboard(&position.piece_centric_board);
    let mark: u64 = get_square_bitboard(target);
    let ghost board = position.placement();
    assert forall|c: Coord| c.wf() implies (#[trigger] holds(occupied, c.index())
        <==> position.piece_at(c) != PieceCode::ES) by {
        assert(position.piece_centric_board.piece_at(c) == position.square_centric_board.piece_at(
            c,
        ));
    }
    let mut rank: u8 = 0;
    while rank < 8
        invariant
            rank <= 8,
            position.wf(),
            lut.wf(),
            target.wf(),
            board == position.placement(),
            mark == square_mask(target.index()),
            forall|c: Coord|
                c.wf() ==> (#[trigger] holds(occupied, c.index()) <==> position.piece_at(c)
                    != PieceCode::ES),
            forall|from: Coord|
                from.wf() && from.r < rank ==> !((#[trigger] board[from]).owner() == Some(by)
                    && attacks(board, from, target)),
        decreases 8 - rank,
    {
        let mut file: u8 = 0;
        while file < 8
            invariant
                rank < 8,
                file <= 8,
                position.wf(),
                lut.wf(),
                target.wf(),
                board == position.placement(),
                mark == square_mask(target.index()),
                forall|c: Coord|
                    c.wf() ==> (#[trigger] holds(occupied, c.index()) <==> position.piece_at(c)
                        != PieceCode::ES),
                forall|from: Coord|
                    from.wf() && (from.r < rank || (from.r == rank && from.f < file)) ==> !((
                    #[trigger] board[from]).owner() == Some(by) && attacks(board, from, target)),
            decreases 8 - file,
        {
            let from = Coord::new(file, rank);
            let piece: PieceCode = position.get_square(from);
            assert(board[from] == piece);
            if piece.owner() == Some(by) {
                let reach: u64 = attack_board(position, lut, from, occupied);
                if reach & mark != 0 {
                    assert(holds(reach, target.index()));
                    assert(attacks(board, from, target));
                    return true;
                }
                assert(!holds(reach, target.index()));
            }
            file += 1;
        }
        rank += 1;
    }
    false
}

/// Whether no king of `player` stands on a square that the other player
/// attacks in the position.
pub fn is_king_safe(position: &Position, lut: &PLMoveLUT, player: Player) -> (safe: bool)
    requires
        position.wf(),
        lut.wf(),
    ensures
        safe == king_safe(position.placement(), player),
{
    let king: PieceCode = PieceCode::of(player, PieceKind::King);
    let opponent: Player = invert_player(&player);
    let ghost board = position.placement();
    let mut rank: u8 = 0;
    while rank < 8
        invariant
            rank <= 8,
            position.wf(),
            lut.wf(),
            board == position.placement(),
            king == PieceCode::of(player, PieceKind::King),
            opponent == player.opponent(),
            forall|c: Coord|
                c.wf() && c.r < rank && #[trigger] board[c] == king ==> !attacked(
                    board,
                    c,
                    opponent,
                ),
        decreases 8 - rank,
    {
        let mut file: u8 = 0;
        while file < 8
            invariant
                rank < 8,
                file <= 8,
                position.wf(),
                lut.wf(),
                board == position.placement(),
                king == PieceCode::of(player, PieceKind::King),
                opponent == player.opponent(),
                forall|c: Coord|
                    c.wf() && (c.r < rank || (c.r == rank && c.f < file)) && #[trigger] board[c]
                        == king ==> !attacked(board, c, opponent),
            decreases 8 - file,
        {
            let square = Coord::new(file, rank);
            assert(board[square] == position.piece_at(square));
            if position.get_square(square) == king && is_attacked(
                position,
                lut,
                square,
                opponent,
            ) {
                return false;
            }
            file += 1;
        }
        rank += 1;
    }
    true
}

/// Whether an encoded move that fits the position is legal. The move is
/// tried on a copy of the position.
pub fn is_legal(position: &Position, lut: &PLMoveLUT, mov: u32) -> (legal: bool)
    requires
        position.wf(),
        lut.wf(),
        move_codes_valid(mov),
        position.fits(move_fields(mov)),
    ensures
        legal == legal_move(position, move_fields(mov)),
{
    let ghost m = move_fields(mov);
    let mover: Player = position.current_turn;
    let opponent: Player = invert_player(&mover);
    let kingside: bool = get_move_kingside_castling(mov);
    let queenside: bool = get_move_queenside_castling(mov);
    if kingside || queenside {
        // A king castles neither out of check nor through it
        let start = get_move_start_coords(mov);
        let crossed = Coord::new(if kingside { 5 } else { 3 }, start.r);
        if is_attacked(position, lut, start, opponent) || is_attacked(
            position,
            lut,
            crossed,
            opponent,
        ) {
            return false;
        }
    }
    let mut scratch: Position = position.duplicate();
    scratch.apply_move_to_boards(mov);
    assert(scratch.placement() =~= m.placement_after(position));
    is_king_safe(&scratch, lut, mover)
}

/// Whether `mov` is one of the first `count` moves of the list.
pub open spec fn is_among(moves: Seq<u32>, count: int, mov: u32) -> bool {
    exists|i: int| 0 <= i < count && #[trigger] moves[i] == mov
}

/// The legal moves of the position, encoded, in no particular order: the
/// pseudo-legal moves that are legal, all of them and no others. No move of
/// the list leaves a king of the player who moves on an attacked square.
pub fn generate_legal_moves(position: &Position, lut: &PLMoveLUT) -> (moves: Vec<u32>)
    requires
        position.wf(),
        lut.wf(),
    ensures
        forall|i: int|
            0 <= i < moves@.len() ==> move_codes_valid(#[trigger] moves@[i]) && pseudo_legal(
                position,
                move_fields(moves@[i]),
            ) && legal_move(position, move_fields(moves@[i])),
        forall|i: int|
            0 <= i < moves@.len() ==> king_safe(
                move_fields(#[trigger] moves@[i]).placement_after(position),
                position.current_turn,
            ),
        forall|m: MoveFields|
            pseudo_legal(position, m) && legal_move(position, m) ==> #[trigger] lists(moves@, m),
        moves@.no_duplicates(),
{
    let candidates: Vec<u32> = generate_moves(position, lut);
    let mut moves: Vec<u32> = Vec::new();
    let mut next: usize = 0;
    while next < candidates.len()
        invariant
            next <= candidates@.len(),
            position.wf(),
            lut.wf(),
            forall|i: int|
                0 <= i < candidates@.len() ==> move_codes_valid(#[trigger] candidates@[i])
                    && pseudo_legal(position, move_fields(candidates@[i])),
            forall|i: int|
                0 <= i < moves@.len() ==> move_codes_valid(#[trigger] moves@[i]) && pseudo_legal(
                    position,
                    move_fields(moves@[i]),
                ) && legal_move(position, move_fields(moves@[i])),
            forall|i: int|
                0 <= i < next && legal_move(position, move_fields(#[trigger] candidates@[i]))
                    ==> lists(moves@, move_fields(candidates@[i])),
            candidates@.no_duplicates(),
            moves@.no_duplicates(),
            forall|k: int|
                0 <= k < moves@.len() ==> is_among(candidates@, next as int, #[trigger] moves@[k]),
        decreases candidates@.len() - next,
    {
        let mov: u32 = candidates[next];
        let ghost before = moves@;
        if is_legal(position, lut, mov) {
            moves.push(mov);
            proof {
                assert(move_fields(moves@[before.len() as int]) == move_fields(mov));
                assert forall|k: int| 0 <= k < before.len() implies before[k] != mov by {
                    assert(is_among(candidates@, next as int, before[k]));
                    let i = choose|i: int| 0 <= i < next && #[trigger] candidates@[i] == before[k];
                    assert(candidates@[i] != candidates@[next as int]);
                }
            }
        }
        proof {
            assert forall|k: int| 0 <= k < moves@.len() implies is_among(
                candidates@,
                next + 1,
                #[trigger] moves@[k],
            ) by {
                if k < before.len() {
                    assert(is_among(candidates@, next as int, before[k]));
                    let i = choose|i: int| 0 <= i < next && #[trigger] candidates@[i] == before[k];
                    assert(candidates@[i] == moves@[k]);
                } else {
                    assert(candidates@[next as int] == moves@[k]);
                }
            }
        }
        proof {
            assert forall|i: int|
                0 <= i < next + 1 && legal_move(
                    position,
                    move_fields(#[trigger] candidates@[i]),
                ) implies lists(moves@, move_fields(candidates@[i])) by {
                if i < next {
                    let k = choose|k: int|
                        0 <= k < before.len() && move_fields(#[trigger] before[k]) == move_fields(
                            candidates@[i],
                        );
                    assert(move_fields(moves@[k]) == move_fields(candidates@[i]));
                }
            }
        }
        next += 1;
    }
    proof {
        assert forall|m: MoveFields|
            pseudo_legal(position, m) && legal_move(position, m) implies #[trigger] lists(
            moves@,
            m,
        ) by {
            assert(lists(candidates@, m));
            let i = choose|i: int|
                0 <= i < candidates@.len() && move_fields(#[trigger] candidates@[i]) == m;
            assert(lists(moves@, move_fields(candidates@[i])));
        }
    }
    moves
}

} // verus!
