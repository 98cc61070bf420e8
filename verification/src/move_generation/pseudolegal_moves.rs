//! The pseudo-legal moves of a position: the moves that the pieces of the
//! player to move can make, whether or not they leave that player's king
//! attacked.
use super::misc::{
    encode_move, get_all_pieces_bitboard, get_player_bitboard, move_codes_valid, move_fields,
    pop_msb, MoveFields,
};
use super::pseudolegal_generator::{
    attack_board, attacks, pawn_capture, pawn_double_push, pawn_push, PLMoveLUT,
};
use crate::bits::{
    holds, lemma_file_a_rank_1, lemma_holds_and, lemma_holds_and_not, lemma_holds_mask,
    lemma_holds_not, lemma_holds_or, lemma_holds_shl, lemma_holds_shr, lemma_holds_zero, FILE_A,
};
use crate::board_representation::{
    get_square_bitboard, invert_player, lemma_piece_code_numbering, Coord, PieceCode, PieceKind,
    Player, Position, StaticBoard,
};
use vstd::prelude::*;

verus! {

/// Whether a pawn of the player to move, on `from`, takes en passant on
/// `to`: the square is empty and marked as an en passant target, and the
/// pawn of the other player that passed over it stands beside `from`.
pub open spec fn takes_en_passant(position: &Position, from: Coord, to: Coord) -> bool {
    let board = position.placement();
    &&& board[to] == PieceCode::ES
    &&& position.en_passant_at(to)
    &&& board[Coord { f: to.f, r: from.r }] == PieceCode::of(
        position.current_turn.opponent(),
        PieceKind::Pawn,
    )
}

/// Whether the piece on `from`, which belongs to the player to move, can
/// move to `to`, whatever becomes of the king. No piece moves onto a piece
/// of its own side. A pawn pushes onto an empty square, twice from its
/// starting rank if the square passed over is empty too, and moves
/// diagonally ahead only to take a piece or to take en passant; a pawn on
/// the first or the last rank does not move. Every other piece moves to the
/// squares that it attacks.
pub open spec fn reaches(position: &Position, from: Coord, to: Coord) -> bool {
    let board = position.placement();
    let piece = board[from];
    let mover = position.current_turn;
    &&& piece.owner() == Some(mover)
    &&& board[to].owner() != Some(mover)
    &&& if piece.kind() == Some(PieceKind::Pawn) {
        &&& 1 <= from.r <= 6
        &&& {
            ||| pawn_push(mover, from, to) && board[to] == PieceCode::ES
            ||| pawn_double_push(mover, from, to) && board[to] == PieceCode::ES && board[Coord {
                f: from.f,
                r: ((from.r + to.r) / 2) as u8,
            }] == PieceCode::ES
            ||| pawn_capture(mover, from, to) && (board[to] != PieceCode::ES || takes_en_passant(
                position,
                from,
                to,
            ))
        }
    } else {
        attacks(board, from, to)
    }
}

/// Whether the player to move may castle as the move says, the king being
/// attacked or not: the right is still there, the king stands on its home
/// square, and the squares between the king and the rook are empty.
pub open spec fn castling_allowed(position: &Position, m: MoveFields) -> bool {
    let board = position.placement();
    let mover = position.current_turn;
    let home = mover.home_rank();
    &&& m.start == Coord { f: 4, r: home }
    &&& if m.kingside_castling {
        &&& position.can_castle_kingside@[mover.index() as int]
        &&& board[Coord { f: 5, r: home }] == PieceCode::ES
        &&& board[Coord { f: 6, r: home }] == PieceCode::ES
    } else {
        &&& position.can_castle_queenside@[mover.index() as int]
        &&& board[Coord { f: 1, r: home }] == PieceCode::ES
        &&& board[Coord { f: 2, r: home }] == PieceCode::ES
        &&& board[Coord { f: 3, r: home }] == PieceCode::ES
    }
}

/// Whether `m` is a pseudo-legal move of the position: it fits the
/// position; either it is a castling move that is allowed, or its piece
/// reaches the arrival square and each flag says what the move is (an en
/// passant capture is a diagonal pawn move onto an empty square, a double
/// pawn push a pawn move of two ranks, a promotion a pawn move onto the last
/// rank); the promotion piece is a knight, a bishop, a rook or a queen of a
/// promotion and empty otherwise; the check and checkmate flags are clear.
pub open spec fn pseudo_legal(position: &Position, m: MoveFields) -> bool {
    let mover = position.current_turn;
    let pawn = m.piece.kind() == Some(PieceKind::Pawn);
    &&& position.fits(m)
    &&& !m.check
    &&& !m.checkmate
    &&& if m.castling() {
        castling_allowed(position, m) && m.promotion_piece == PieceCode::ES
    } else {
        &&& reaches(position, m.start, m.arrival)
        &&& (m.en_passant_capture <==> pawn && m.arrival.f != m.start.f && m.arrival_square
            == PieceCode::ES)
        &&& (m.double_pawn_push <==> pawn && (m.arrival.r == m.start.r + 2 || m.arrival.r + 2
            == m.start.r))
        &&& (m.promotion <==> pawn && m.arrival.r == mover.opponent().home_rank())
        &&& if m.promotion {
            m.promotion_piece.kind() != Some(PieceKind::Pawn) && m.promotion_piece.kind() != Some(
                PieceKind::King,
            )
        } else {
            m.promotion_piece == PieceCode::ES
        }
    }
}

/// Whether one of the encoded moves says `m`.
pub open spec fn lists(moves: Seq<u32>, m: MoveFields) -> bool {
    exists|i: int| 0 <= i < moves.len() && move_fields(#[trigger] moves[i]) == m
}

/// Whether the three boards say of the position what their names say:
/// `occupied` holds the squares with a piece, `own` those with a piece of
/// the player to move, and `opponent_pawns` those with a pawn of the other
/// player.
pub open spec fn boards_of(
    position: &Position,
    occupied: u64,
    own: u64,
    opponent_pawns: u64,
) -> bool {
    &&& forall|c: Coord|
        c.wf() ==> (#[trigger] holds(occupied, c.index()) <==> position.piece_at(c)
            != PieceCode::ES)
    &&& forall|c: Coord|
        c.wf() ==> (#[trigger] holds(own, c.index()) <==> position.piece_at(c).owner() == Some(
            position.current_turn,
        ))
    &&& forall|c: Coord|
        c.wf() ==> (#[trigger] holds(opponent_pawns, c.index()) <==> position.piece_at(c)
            == PieceCode::of(position.current_turn.opponent(), PieceKind::Pawn))
}

/// The squares to which the pawn on `from`, which belongs to the player to
/// move, can move.
fn pawn_destination_board(
    position: &Position,
    lut: &PLMoveLUT,
    from: Coord,
    occupied: u64,
    own: u64,
    opponent_pawns: u64,
) -> (dest: u64)
    requires
        position.wf(),
        lut.wf(),
        from.wf(),
        position.piece_at(from) == PieceCode::of(position.current_turn, PieceKind::Pawn),
        boards_of(position, occupied, own, opponent_pawns),
    ensures
        forall|to: Coord|
            to.wf() ==> (#[trigger] holds(dest, to.index()) <==> reaches(position, from, to)),
{
    let ghost board = position.placement();
    let mover: Player = position.current_turn;
    if from.r == 0 || from.r == 7 {
        proof {
            lemma_holds_zero();
        }
        return 0;
    }
    let index: usize = from.r as usize * 8 + from.f as usize;
    assert(index == from.index());
    let pawn: u64 = get_square_bitboard(from);
    let free: u64 = !occupied;
    let targets: u64 = position.piece_centric_board.en_passant_board;
    let file: u64 = FILE_A >> from.f;
    let enemy: u64 = occupied & !own;
    proof {
        lemma_holds_zero();
        lemma_holds_mask(from.index());
        lemma_holds_not(occupied);
        lemma_file_a_rank_1();
        lemma_holds_shr(FILE_A, from.f as u64);
        lemma_holds_and_not(occupied, own);
        assert forall|c: Coord| c.wf() implies (#[trigger] holds(targets, c.index())
            <==> position.en_passant_at(c)) by {
            assert(position.piece_centric_board.en_passant_at(c)
                <==> position.square_centric_board.en_passant_at(c));
        }
    }
    let ahead: u64 = if mover == Player::White { pawn >> 8 } else { pawn << 8 };
    let single: u64 = ahead & free;
    let further: u64 = if mover == Player::White { single >> 8 } else { single << 8 };
    let double: u64 = if from.r == (if mover == Player::White { 1 } else { 6 }) {
        further & free
    } else {
        0
    };
    let victims: u64 = if mover == Player::White {
        opponent_pawns >> 8
    } else {
        opponent_pawns << 8
    };
    let en_passant: u64 = targets & free & victims;
    let entry: u64 = if mover == Player::White {
        lut.white_p_lut[index]
    } else {
        lut.black_p_lut[index]
    };
    let captures: u64 = entry & !file & (enemy | en_passant);
    let dest: u64 = single | double | captures;
    proof {
        lemma_holds_shr(pawn, 8);
        lemma_holds_shl(pawn, 8);
        lemma_holds_and(ahead, free);
        lemma_holds_shr(single, 8);
        lemma_holds_shl(single, 8);
        lemma_holds_and(further, free);
        lemma_holds_shr(opponent_pawns, 8);
        lemma_holds_shl(opponent_pawns, 8);
        lemma_holds_and(targets, free);
        lemma_holds_and(targets & free, victims);
        lemma_holds_and_not(entry, file);
        lemma_holds_or(enemy, en_passant);
        lemma_holds_and(entry & !file, enemy | en_passant);
        lemma_holds_or(single, double);
        lemma_holds_or(single | double, captures);
        assert forall|to: Coord| to.wf() implies (#[trigger] holds(dest, to.index()) <==> reaches(
            position,
            from,
            to,
        )) by {
            let passed = Coord { f: from.f, r: ((from.r + to.r) / 2) as u8 };
            let beside = Coord { f: to.f, r: from.r };
            assert(board[to] == position.piece_at(to));
            assert(board[from] == position.piece_at(from));
            assert(holds(single, to.index()) <==> pawn_push(mover, from, to) && board[to]
                == PieceCode::ES);
            if pawn_double_push(mover, from, to) {
                assert(passed.wf());
                assert(board[passed] == position.piece_at(passed));
                assert(if mover == Player::White {
                    passed.index() == to.index() - 8
                } else {
                    passed.index() == to.index() + 8
                });
                assert(holds(single, passed.index()) <==> board[passed] == PieceCode::ES);
            }
            assert(holds(double, to.index()) <==> pawn_double_push(mover, from, to) && board[to]
                == PieceCode::ES && board[passed] == PieceCode::ES);
            if pawn_capture(mover, from, to) {
                assert(beside.wf());
                assert(board[beside] == position.piece_at(beside));
                assert(if mover == Player::White {
                    beside.index() == to.index() - 8
                } else {
                    beside.index() == to.index() + 8
                });
                assert(holds(victims, to.index()) <==> holds(opponent_pawns, beside.index()));
                assert(holds(en_passant, to.index()) <==> takes_en_passant(position, from, to));
            }
            assert(holds(captures, to.index()) <==> pawn_capture(mover, from, to) && (holds(
                enemy,
                to.index(),
            ) || takes_en_passant(position, from, to)));
        }
    }
    dest
}

/// The squares to which the piece on `from`, which belongs to the player to
/// move, can move.
pub fn destination_board(
    position: &Position,
    lut: &PLMoveLUT,
    from: Coord,
    occupied: u64,
    own: u64,
    opponent_pawns: u64,
) -> (dest: u64)
    requires
        position.wf(),
        lut.wf(),
        from.wf(),
        position.piece_at(from).owner() == Some(position.current_turn),
        boards_of(position, occupied, own, opponent_pawns),
    ensures
        forall|to: Coord|
            to.wf() ==> (#[trigger] holds(dest, to.index()) <==> reaches(position, from, to)),
{
    let piece: PieceCode = position.get_square(from);
    let ghost board = position.placement();
    assert(board[from] == piece);
    if piece == PieceCode::WP || piece == PieceCode::BP {
        pawn_destination_board(position, lut, from, occupied, own, opponent_pawns)
    } else {
        let attack: u64 = attack_board(position, lut, from, occupied);
        proof {
            lemma_holds_and_not(attack, own);
            assert forall|to: Coord| to.wf() implies (#[trigger] holds(attack & !own, to.index())
                <==> reaches(position, from, to)) by {
                assert(board[to] == position.piece_at(to));
            }
        }
        attack & !own
    }
}

/// The move of the piece on `from` to `to` that is no castling move, with
/// the given promotion piece: each flag says what the move is, and the
/// check and checkmate flags are clear.
pub open spec fn plain_move(
    position: &Position,
    from: Coord,
    to: Coord,
    promotion_piece: PieceCode,
) -> MoveFields {
    let piece = position.piece_at(from);
    let arrival_square = position.piece_at(to);
    let pawn = piece.kind() == Some(PieceKind::Pawn);
    let en_passant_capture = pawn && to.f != from.f && arrival_square == PieceCode::ES;
    MoveFields {
        start: from,
        arrival: to,
        piece,
        arrival_square,
        capture: arrival_square != PieceCode::ES || en_passant_capture,
        en_passant_capture,
        double_pawn_push: pawn && (to.r == from.r + 2 || to.r + 2 == from.r),
        promotion: pawn && to.r == position.current_turn.opponent().home_rank(),
        kingside_castling: false,
        queenside_castling: false,
        check: false,
        checkmate: false,
        promotion_piece,
    }
}

/// Whether `promotion_piece` is what a move of the piece on `from` to `to`
/// needs: a knight, a bishop, a rook or a queen of the player to move when
/// the move promotes a pawn, the empty square when it does not.
pub open spec fn promotion_piece_fits(
    position: &Position,
    from: Coord,
    to: Coord,
    promotion_piece: PieceCode,
) -> bool {
    if plain_move(position, from, to, promotion_piece).promotion {
        &&& promotion_piece.owner() == Some(position.current_turn)
        &&& promotion_piece.kind() != Some(PieceKind::Pawn)
        &&& promotion_piece.kind() != Some(PieceKind::King)
    } else {
        promotion_piece == PieceCode::ES
    }
}

/// The pseudo-legal moves that are no castling moves are the plain moves
/// of a piece to a square that it reaches, with a promotion piece that
/// fits.
pub proof fn lemma_plain_moves(position: &Position, m: MoveFields)
    requires
        m.start.wf(),
        m.arrival.wf(),
    ensures
        pseudo_legal(position, m) && !m.castling() <==> reaches(position, m.start, m.arrival)
            && promotion_piece_fits(position, m.start, m.arrival, m.promotion_piece) && m
            == plain_move(position, m.start, m.arrival, m.promotion_piece),
{
    let board = position.placement();
    assert(board[m.start] == position.piece_at(m.start));
    assert(board[m.arrival] == position.piece_at(m.arrival));
    let beside = Coord { f: m.arrival.f, r: m.start.r };
    assert(beside.wf());
    assert(board[beside] == position.piece_at(beside));
    if reaches(position, m.start, m.arrival) {
        assert(m.start != m.arrival);
    }
}

/// The move of the piece on `from` to `to` that is no castling move, with
/// the given promotion piece.
fn build_move(position: &Position, from: Coord, to: Coord, promotion_piece: PieceCode) -> (fields:
    MoveFields)
    requires
        from.wf(),
        to.wf(),
    ensures
        fields == plain_move(position, from, to, promotion_piece),
{
    let piece: PieceCode = position.get_square(from);
    let arrival_square: PieceCode = position.get_square(to);
    let pawn: bool = piece == PieceCode::WP || piece == PieceCode::BP;
    let en_passant_capture: bool = pawn && to.f != from.f && arrival_square == PieceCode::ES;
    let last_rank: u8 = invert_player(&position.current_turn).home_rank();
    MoveFields {
        start: from,
        arrival: to,
        piece,
        arrival_square,
        capture: arrival_square != PieceCode::ES || en_passant_capture,
        en_passant_capture,
        double_pawn_push: pawn && (to.r == from.r + 2 || to.r + 2 == from.r),
        promotion: pawn && to.r == last_rank,
        kingside_castling: false,
        queenside_castling: false,
        check: false,
        checkmate: false,
        promotion_piece,
    }
}

/// Whether `after` is `before` with moves added at its end.
pub open spec fn extends(after: Seq<u32>, before: Seq<u32>) -> bool {
    before.len() <= after.len() && forall|i: int| 0 <= i < before.len() ==> after[i] == before[i]
}

/// What a list says, every longer list says too.
pub proof fn lemma_extends_lists(after: Seq<u32>, before: Seq<u32>)
    requires
        extends(after, before),
    ensures
        forall|m: MoveFields| lists(before, m) ==> #[trigger] lists(after, m),
{
    assert forall|m: MoveFields| lists(before, m) implies #[trigger] lists(after, m) by {
        let i = choose|i: int| 0 <= i < before.len() && move_fields(#[trigger] before[i]) == m;
        assert(move_fields(after[i]) == m);
    }
}

/// Add to `moves` the plain move of the piece on `from` to `to` with the
/// given promotion piece.
fn push_move(
    position: &Position,
    from: Coord,
    to: Coord,
    promotion_piece: PieceCode,
    moves: &mut Vec<u32>,
)
    requires
        from.wf(),
        to.wf(),
    ensures
        final(moves)@.len() == old(moves)@.len() + 1,
        extends(final(moves)@, old(moves)@),
        move_codes_valid(final(moves)@[old(moves)@.len() as int]),
        move_fields(final(moves)@[old(moves)@.len() as int]) == plain_move(
            position,
            from,
            to,
            promotion_piece,
        ),
{
    let fields = build_move(position, from, to, promotion_piece);
    let mov: u32 = encode_move(&fields);
    moves.push(mov);
}

/// Add to `moves` the pseudo-legal moves of the piece on `from` to the
/// square `to`, which it reaches: one move, or one for each promotion piece
/// when the move promotes a pawn.
fn push_moves_to(position: &Position, from: Coord, to: Coord, moves: &mut Vec<u32>)
    requires
        position.wf(),
        from.wf(),
        to.wf(),
        reaches(position, from, to),
    ensures
        extends(final(moves)@, old(moves)@),
        forall|i: int|
            old(moves)@.len() <= i < final(moves)@.len() ==> move_codes_valid(
                #[trigger] final(moves)@[i],
            ) && pseudo_legal(position, move_fields(final(moves)@[i])) && move_fields(
                final(moves)@[i],
            ) == plain_move(position, from, to, move_fields(final(moves)@[i]).promotion_piece),
        forall|i: int, j: int|
            old(moves)@.len() <= i < j < final(moves)@.len() ==> final(moves)@[i] != final(
                moves
            )@[j],
        forall|m: MoveFields|
            pseudo_legal(position, m) && !m.castling() && m.start == from && m.arrival == to
                ==> #[trigger] lists(final(moves)@, m),
{
    let mover: Player = position.current_turn;
    let base = build_move(position, from, to, PieceCode::ES);
    let ghost first = moves@.len() as int;
    if base.promotion {
        push_move(position, from, to, PieceCode::of(mover, PieceKind::Knight), moves);
        push_move(position, from, to, PieceCode::of(mover, PieceKind::Bishop), moves);
        push_move(position, from, to, PieceCode::of(mover, PieceKind::Rook), moves);
        push_move(position, from, to, PieceCode::of(mover, PieceKind::Queen), moves);
        proof {
            assert forall|i: int| first <= i < moves@.len() implies move_codes_valid(
                #[trigger] moves@[i],
            ) && pseudo_legal(position, move_fields(moves@[i])) && move_fields(moves@[i])
                == plain_move(position, from, to, move_fields(moves@[i]).promotion_piece) by {
                lemma_plain_moves(position, move_fields(moves@[i]));
            }
            assert(move_fields(moves@[first]).promotion_piece == PieceCode::of(
                mover,
                PieceKind::Knight,
            ));
            assert(move_fields(moves@[first + 1]).promotion_piece == PieceCode::of(
                mover,
                PieceKind::Bishop,
            ));
            assert(move_fields(moves@[first + 2]).promotion_piece == PieceCode::of(
                mover,
                PieceKind::Rook,
            ));
            assert(move_fields(moves@[first + 3]).promotion_piece == PieceCode::of(
                mover,
                PieceKind::Queen,
            ));
            assert forall|m: MoveFields|
                pseudo_legal(position, m) && !m.castling() && m.start == from && m.arrival
                    == to implies #[trigger] lists(moves@, m) by {
                lemma_plain_moves(position, m);
                let kind = m.promotion_piece.kind();
                let i = if kind == Some(PieceKind::Knight) {
                    first
                } else if kind == Some(PieceKind::Bishop) {
                    first + 1
                } else if kind == Some(PieceKind::Rook) {
                    first + 2
                } else {
                    first + 3
                };
                assert(move_fields(moves@[i]) == m);
            }
        }
    } else {
        push_move(position, from, to, PieceCode::ES, moves);
        proof {
            lemma_plain_moves(position, move_fields(moves@[first]));
            assert forall|m: MoveFields|
                pseudo_legal(position, m) && !m.castling() && m.start == from && m.arrival
                    == to implies #[trigger] lists(moves@, m) by {
                lemma_plain_moves(position, m);
                assert(move_fields(moves@[first]) == m);
            }
        }
    }
}

/// The square with the given number, counting in row-major order from a1.
fn square_at(index: u8) -> (coord: Coord)
    requires
        index < 64,
    ensures
        coord.wf(),
        coord.index() == index,
{
    Coord::new(index % 8, index / 8)
}

/// Add to `moves` the pseudo-legal moves of the piece on `from`, which
/// reaches the squares of `dest` and no others.
fn push_piece_moves(position: &Position, from: Coord, dest: u64, moves: &mut Vec<u32>)
    requires
        position.wf(),
        from.wf(),
        forall|to: Coord|
            to.wf() ==> (#[trigger] holds(dest, to.index()) <==> reaches(position, from, to)),
    ensures
        extends(final(moves)@, old(moves)@),
        forall|i: int|
            old(moves)@.len() <= i < final(moves)@.len() ==> move_codes_valid(
                #[trigger] final(moves)@[i],
            ) && pseudo_legal(position, move_fields(final(moves)@[i])) && move_fields(
                final(moves)@[i],
            ).start == from && !move_fields(final(moves)@[i]).castling(),
        forall|i: int, j: int|
            old(moves)@.len() <= i < j < final(moves)@.len() ==> final(moves)@[i] != final(
                moves
            )@[j],
        forall|m: MoveFields|
            pseudo_legal(position, m) && !m.castling() && m.start == from ==> #[trigger] lists(
                final(moves)@,
                m,
            ),
{
    let mut left: u64 = dest;
    proof {
        lemma_holds_zero();
    }
    while left != 0
        invariant
            position.wf(),
            from.wf(),
            forall|to: Coord|
                to.wf() ==> (#[trigger] holds(dest, to.index()) <==> reaches(position, from, to)),
            forall|to: Coord|
                to.wf() && #[trigger] holds(left, to.index()) ==> holds(dest, to.index()),
            extends(moves@, old(moves)@),
            forall|i: int|
                old(moves)@.len() <= i < moves@.len() ==> move_codes_valid(#[trigger] moves@[i])
                    && pseudo_legal(position, move_fields(moves@[i])) && move_fields(
                    moves@[i],
                ).start == from && !move_fields(moves@[i]).castling() && !holds(
                    left,
                    move_fields(moves@[i]).arrival.index(),
                ),
            forall|i: int, j: int|
                old(moves)@.len() <= i < j < moves@.len() ==> moves@[i] != moves@[j],
            forall|m: MoveFields|
                pseudo_legal(position, m) && !m.castling() && m.start == from && !holds(
                    left,
                    m.arrival.index(),
                ) ==> #[trigger] lists(moves@, m),
        decreases left,
    {
        let ghost before = moves@;
        let ghost left_before = left;
        let to = square_at(pop_msb(&mut left));
        push_moves_to(position, from, to, moves);
        proof {
            lemma_extends_lists(moves@, before);
            assert forall|m: MoveFields|
                pseudo_legal(position, m) && !m.castling() && m.start == from && !holds(
                    left,
                    m.arrival.index(),
                ) implies #[trigger] lists(moves@, m) by {
                if holds(left_before, m.arrival.index()) {
                    assert(m.arrival.index() == to.index());
                    assert(m.arrival == to);
                } else {
                    assert(lists(before, m));
                }
            }
        }
    }
    proof {
        assert forall|m: MoveFields|
            pseudo_legal(position, m) && !m.castling() && m.start == from implies #[trigger] lists(
            moves@,
            m,
        ) by {
            assert(!holds(left, m.arrival.index()));
        }
    }
}

/// The castling move of `mover` on the given side: the king goes two files
/// from its home square towards the rook.
pub open spec fn castling_move(mover: Player, kingside: bool) -> MoveFields {
    MoveFields {
        start: Coord { f: 4, r: mover.home_rank() },
        arrival: Coord { f: if kingside { 6u8 } else { 2u8 }, r: mover.home_rank() },
        piece: PieceCode::of(mover, PieceKind::King),
        arrival_square: PieceCode::ES,
        capture: false,
        en_passant_capture: false,
        double_pawn_push: false,
        promotion: false,
        kingside_castling: kingside,
        queenside_castling: !kingside,
        check: false,
        checkmate: false,
        promotion_piece: PieceCode::ES,
    }
}

/// Whether the player to move can castle on the given side, the king being
/// attacked or not: the right is still there, the king and the rook stand on
/// their home squares, and the squares between them are empty.
pub open spec fn castling_ready(position: &Position, kingside: bool) -> bool {
    let mover = position.current_turn;
    let home = mover.home_rank();
    &&& position.piece_at(Coord { f: 4, r: home }) == PieceCode::of(mover, PieceKind::King)
    &&& if kingside {
        &&& position.can_castle_kingside@[mover.index() as int]
        &&& position.piece_at(Coord { f: 7, r: home }) == PieceCode::of(mover, PieceKind::Rook)
        &&& position.piece_at(Coord { f: 5, r: home }) == PieceCode::ES
        &&& position.piece_at(Coord { f: 6, r: home }) == PieceCode::ES
    } else {
        &&& position.can_castle_queenside@[mover.index() as int]
        &&& position.piece_at(Coord { f: 0, r: home }) == PieceCode::of(mover, PieceKind::Rook)
        &&& position.piece_at(Coord { f: 1, r: home }) == PieceCode::ES
        &&& position.piece_at(Coord { f: 2, r: home }) == PieceCode::ES
        &&& position.piece_at(Coord { f: 3, r: home }) == PieceCode::ES
    }
}

/// The pseudo-legal castling moves are the castling moves of the player to
/// move on the sides on which castling is ready.
pub proof fn lemma_castling_moves(position: &Position, m: MoveFields)
    ensures
        pseudo_legal(position, m) && m.castling() <==> castling_ready(
            position,
            m.kingside_castling,
        ) && m == castling_move(position.current_turn, m.kingside_castling),
{
    let board = position.placement();
    let home = position.current_turn.home_rank();
    assert(board[Coord { f: 0, r: home }] == position.piece_at(Coord { f: 0, r: home }));
    assert(board[Coord { f: 1, r: home }] == position.piece_at(Coord { f: 1, r: home }));
    assert(board[Coord { f: 2, r: home }] == position.piece_at(Coord { f: 2, r: home }));
    assert(board[Coord { f: 3, r: home }] == position.piece_at(Coord { f: 3, r: home }));
    assert(board[Coord { f: 4, r: home }] == position.piece_at(Coord { f: 4, r: home }));
    assert(board[Coord { f: 5, r: home }] == position.piece_at(Coord { f: 5, r: home }));
    assert(board[Coord { f: 6, r: home }] == position.piece_at(Coord { f: 6, r: home }));
    assert(board[Coord { f: 7, r: home }] == position.piece_at(Coord { f: 7, r: home }));
}

/// Add to `moves` the castling move of the player to move on the given
/// side, if castling is ready there.
fn push_castling_move(position: &Position, kingside: bool, moves: &mut Vec<u32>)
    ensures
        extends(final(moves)@, old(moves)@),
        final(moves)@.len() <= old(moves)@.len() + 1,
        forall|i: int|
            old(moves)@.len() <= i < final(moves)@.len() ==> move_codes_valid(
                #[trigger] final(moves)@[i],
            ) && pseudo_legal(position, move_fields(final(moves)@[i])) && move_fields(
                final(moves)@[i],
            ).castling() && move_fields(final(moves)@[i]).kingside_castling == kingside,
        forall|m: MoveFields|
            pseudo_legal(position, m) && m.castling() && m.kingside_castling == kingside
                ==> #[trigger] lists(final(moves)@, m),
{
    let mover: Player = position.current_turn;
    let home: u8 = mover.home_rank();
    let rook: PieceCode = PieceCode::of(mover, PieceKind::Rook);
    let ghost first = moves@.len() as int;
    let ready: bool = position.get_square(Coord::new(4, home)) == PieceCode::of(
        mover,
        PieceKind::King,
    ) && if kingside {
        position.can_castle_kingside[mover.index()] && position.get_square(Coord::new(7, home))
            == rook && position.get_square(Coord::new(5, home)) == PieceCode::ES
            && position.get_square(Coord::new(6, home)) == PieceCode::ES
    } else {
        position.can_castle_queenside[mover.index()] && position.get_square(Coord::new(0, home))
            == rook && position.get_square(Coord::new(1, home)) == PieceCode::ES
            && position.get_square(Coord::new(2, home)) == PieceCode::ES && position.get_square(
            Coord::new(3, home),
        ) == PieceCode::ES
    };
    assert(ready == castling_ready(position, kingside));
    if ready {
        let fields = MoveFields {
            start: Coord::new(4, home),
            arrival: Coord::new(if kingside { 6 } else { 2 }, home),
            piece: PieceCode::of(mover, PieceKind::King),
            arrival_square: PieceCode::ES,
            capture: false,
            en_passant_capture: false,
            double_pawn_push: false,
            promotion: false,
            kingside_castling: kingside,
            queenside_castling: !kingside,
            check: false,
            checkmate: false,
            promotion_piece: PieceCode::ES,
        };
        let mov: u32 = encode_move(&fields);
        moves.push(mov);
        proof {
            lemma_castling_moves(position, fields);
            assert(move_fields(moves@[first]) == fields);
        }
    }
    proof {
        assert forall|m: MoveFields|
            pseudo_legal(position, m) && m.castling() && m.kingside_castling
                == kingside implies #[trigger] lists(moves@, m) by {
            lemma_castling_moves(position, m);
            assert(move_fields(moves@[first]) == m);
        }
    }
}

/// The pseudo-legal moves of the position, encoded, in no particular
/// order: every move of the list is pseudo-legal, and every pseudo-legal
/// move is in the list. The check and checkmate flags of the moves are
/// clear.
pub fn generate_moves(position: &Position, lut: &PLMoveLUT) -> (moves: Vec<u32>)
    requires
        position.wf(),
        lut.wf(),
    ensures
        forall|i: int|
            0 <= i < moves@.len() ==> move_codes_valid(#[trigger] moves@[i]) && pseudo_legal(
                position,
                move_fields(moves@[i]),
            ),
        forall|m: MoveFields| pseudo_legal(position, m) ==> #[trigger] lists(moves@, m),
        moves@.no_duplicates(),
{
    let mut moves: Vec<u32> = Vec::new();
    let mover: Player = position.current_turn;
    let bitboard = &position.piece_centric_board;
    let occupied: u64 = get_all_pieces_bitboard(bitboard);
    let own: u64 = get_player_bitboard(bitboard, mover);
    let opponent_pawn: PieceCode = PieceCode::of(invert_player(&mover), PieceKind::Pawn);
    let opponent_pawns: u64 = bitboard.main_boards[(opponent_pawn.to_u8() - 1) as usize];
    proof {
        lemma_holds_zero();
        assert forall|c: Coord| c.wf() implies (#[trigger] holds(opponent_pawns, c.index())
            <==> position.piece_at(c) == opponent_pawn) by {
            bitboard.lemma_disjoint_single_holder(c);
            assert(bitboard.piece_at(c) == position.square_centric_board.piece_at(c));
            lemma_piece_code_numbering(position.piece_at(c));
        }
        assert forall|c: Coord| c.wf() implies (#[trigger] holds(occupied, c.index())
            <==> position.piece_at(c) != PieceCode::ES) by {
            assert(bitboard.piece_at(c) == position.square_centric_board.piece_at(c));
        }
        assert forall|c: Coord| c.wf() implies (#[trigger] holds(own, c.index())
            <==> position.piece_at(c).owner() == Some(mover)) by {
            assert(bitboard.piece_at(c) == position.square_centric_board.piece_at(c));
        }
        assert(boards_of(position, occupied, own, opponent_pawns));
    }
    let mut left: u64 = own;
    while left != 0
        invariant
            position.wf(),
            lut.wf(),
            mover == position.current_turn,
            boards_of(position, occupied, own, opponent_pawns),
            forall|c: Coord| c.wf() && #[trigger] holds(left, c.index()) ==> holds(own, c.index()),
            forall|i: int|
                0 <= i < moves@.len() ==> move_codes_valid(#[trigger] moves@[i]) && pseudo_legal(
                    position,
                    move_fields(moves@[i]),
                ) && !move_fields(moves@[i]).castling() && !holds(
                    left,
                    move_fields(moves@[i]).start.index(),
                ),
            forall|i: int, j: int| 0 <= i < j < moves@.len() ==> moves@[i] != moves@[j],
            forall|m: MoveFields|
                pseudo_legal(position, m) && !m.castling() && !holds(left, m.start.index())
                    ==> #[trigger] lists(moves@, m),
        decreases left,
    {
        let ghost before = moves@;
        let ghost left_before = left;
        let from = square_at(pop_msb(&mut left));
        assert(holds(own, from.index()));
        let dest: u64 = destination_board(position, lut, from, occupied, own, opponent_pawns);
        push_piece_moves(position, from, dest, &mut moves);
        proof {
            lemma_extends_lists(moves@, before);
            assert forall|m: MoveFields|
                pseudo_legal(position, m) && !m.castling() && !holds(
                    left,
                    m.start.index(),
                ) implies #[trigger] lists(moves@, m) by {
                if holds(left_before, m.start.index()) {
                    assert(m.start.index() == from.index());
                    assert(m.start == from);
                } else {
                    assert(lists(before, m));
                }
            }
        }
    }
    let ghost plain = moves@;
    push_castling_move(position, true, &mut moves);
    let ghost with_kingside = moves@;
    push_castling_move(position, false, &mut moves);
    proof {
        lemma_extends_lists(with_kingside, plain);
        lemma_extends_lists(moves@, with_kingside);
        assert forall|m: MoveFields| pseudo_legal(position, m) implies #[trigger] lists(
            moves@,
            m,
        ) by {
            if m.castling() {
                if m.kingside_castling {
                    assert(lists(with_kingside, m));
                }
            } else {
                assert(!holds(left, m.start.index()));
                assert(lists(plain, m));
                assert(lists(with_kingside, m));
            }
        }
    }
    moves
}

} // verus!
