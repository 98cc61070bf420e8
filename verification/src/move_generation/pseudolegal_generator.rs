//! Pseudo-legal destinations of each kind of piece.
//!
//! Pawns, knights and kings go to squares that do not depend on the other
//! pieces: their destinations are computed from the square alone and kept
//! in lookup tables. Rooks, bishops and queens slide along lines: their
//! destinations on an empty board are whole lines, and among other pieces
//! each line stops at the first occupied square.
use crate::bits::{
    holds, lemma_file_a_rank_1, lemma_holds_and_not, lemma_holds_mask, lemma_holds_or,
    lemma_holds_shr, lemma_holds_zero, lemma_union_shl, lemma_union_shr, square_mask,
    square_of, FILE_A,
    RANK_1,
};
use crate::board_representation::{
    get_square_bitboard, Coord, PieceCode, PieceKind, Player, Position, StaticBoard,
};
use vstd::prelude::*;

verus! {

/// Whether a knight on `from` reaches `to`: one file and two ranks away, or
/// two files and one rank away.
pub open spec fn knight_step(from: Coord, to: Coord) -> bool {
    let df = to.f - from.f;
    let dr = to.r - from.r;
    ((df == 1 || df == -1) && (dr == 2 || dr == -2)) || ((df == 2 || df == -2) && (dr == 1 || dr
        == -1))
}

/// Whether `board` holds exactly the squares that a knight on `from` reaches.
pub open spec fn is_knight_board(board: u64, from: Coord) -> bool {
    forall|to: Coord| to.wf() ==> (#[trigger] holds(board, to.index()) <==> knight_step(from, to))
}

/// Generate a bitboard of all pseudo-legal moves for a knight located on the
/// coord square: the squares a knight's step away that lie on the board.
pub fn gen_pl_n_moves(coord: Coord) -> (moves: u64)
    requires
        coord.wf(),
    ensures
        is_knight_board(moves, coord),
{
    let mut moves: u64 = 0;
    let knight: u64 = get_square_bitboard(coord);
    proof {
        lemma_holds_zero();
        lemma_holds_mask(coord.index());
    }

    // Two ranks down
    if coord.r >= 2 {
        if coord.f >= 1 {
            proof { lemma_union_shl(moves, knight, 17); }
            moves |= knight << 17;
        }
        if coord.f <= 6 {
            proof { lemma_union_shl(moves, knight, 15); }
            moves |= knight << 15;
        }
    }
    // One rank down
    if coord.r >= 1 {
        if coord.f >= 2 {
            proof { lemma_union_shl(moves, knight, 10); }
            moves |= knight << 10;
        }
        if coord.f <= 5 {
            proof { lemma_union_shl(moves, knight, 6); }
            moves |= knight << 6;
        }
    }
    // One rank up
    if coord.r <= 6 {
        if coord.f >= 2 {
            proof { lemma_union_shr(moves, knight, 6); }
            moves |= knight >> 6;
        }
        if coord.f <= 5 {
            proof { lemma_union_shr(moves, knight, 10); }
            moves |= knight >> 10;
        }
    }
    // Two ranks up
    if coord.r <= 5 {
        if coord.f >= 1 {
            proof { lemma_union_shr(moves, knight, 15); }
            moves |= knight >> 15;
        }
        if coord.f <= 6 {
            proof { lemma_union_shr(moves, knight, 17); }
            moves |= knight >> 17;
        }
    }
    moves
}

/// Whether a king on `from` reaches `to`: an adjacent square, along a file,
/// a rank or a diagonal.
pub open spec fn king_step(from: Coord, to: Coord) -> bool {
    let df = to.f - from.f;
    let dr = to.r - from.r;
    -1 <= df <= 1 && -1 <= dr <= 1 && !(df == 0 && dr == 0)
}

/// The direction in which the pawns of a player advance: up the ranks for
/// White, down for Black.
pub open spec fn pawn_direction(player: Player) -> int {
    match player {
        Player::White => 1,
        Player::Black => -1,
    }
}

/// The rank on which the pawns of a player start.
pub open spec fn pawn_start_rank(player: Player) -> int {
    match player {
        Player::White => 1,
        Player::Black => 6,
    }
}

/// Whether `to` is the square straight ahead of a pawn on `from`.
pub open spec fn pawn_push(player: Player, from: Coord, to: Coord) -> bool {
    to.f == from.f && to.r == from.r + pawn_direction(player)
}

/// Whether `to` is two squares straight ahead of a pawn that still stands on
/// its starting rank.
pub open spec fn pawn_double_push(player: Player, from: Coord, to: Coord) -> bool {
    from.r == pawn_start_rank(player) && to.f == from.f && to.r == from.r + 2 * pawn_direction(
        player,
    )
}

/// Whether `to` is one of the two squares diagonally ahead of a pawn on
/// `from`.
pub open spec fn pawn_capture(player: Player, from: Coord, to: Coord) -> bool {
    (to.f == from.f + 1 || to.f == from.f - 1) && to.r == from.r + pawn_direction(player)
}

/// Whether a pawn on `from` reaches `to` by a push, a double push or a
/// capture.
pub open spec fn pawn_step(player: Player, from: Coord, to: Coord) -> bool {
    pawn_push(player, from, to) || pawn_double_push(player, from, to) || pawn_capture(
        player,
        from,
        to,
    )
}

/// Whether `board` holds exactly the squares that a king on `from` reaches.
pub open spec fn is_king_board(board: u64, from: Coord) -> bool {
    forall|to: Coord| to.wf() ==> (#[trigger] holds(board, to.index()) <==> king_step(from, to))
}

/// Whether `board` holds exactly the squares that a pawn of `player` on
/// `from` reaches.
pub open spec fn is_pawn_board(board: u64, player: Player, from: Coord) -> bool {
    forall|to: Coord|
        to.wf() ==> (#[trigger] holds(board, to.index()) <==> pawn_step(player, from, to))
}

/// Whether `to` lies on the file or the rank of `from` and differs from it.
pub open spec fn rook_line(from: Coord, to: Coord) -> bool {
    (to.f == from.f) != (to.r == from.r)
}

/// Whether `to` lies on one of the two diagonals through `from` and differs
/// from it.
pub open spec fn bishop_line(from: Coord, to: Coord) -> bool {
    (to.f - to.r == from.f - from.r) != (to.f + to.r == from.f + from.r)
}

/// Generate a bitboard of all pseudo-legal moves for a pawn located on the
/// coord square (and controlled by the specified player): the single push,
/// the double push from the starting rank, and the two captures. A pawn never
/// stands on the first or the last rank.
pub fn gen_pl_p_moves(player: Player, coord: Coord) -> (moves: u64)
    requires
        coord.wf(),
        coord.r != 0,
        coord.r != 7,
    ensures
        is_pawn_board(moves, player, coord),
{
    let mut moves: u64 = 0;
    let pawn: u64 = get_square_bitboard(coord);
    proof {
        lemma_holds_zero();
        lemma_holds_mask(coord.index());
    }

    if player == Player::White {
        // Single push, and double push from the starting rank
        proof {
            lemma_union_shr(moves, pawn, 8);
        }
        moves |= pawn >> 8;
        if coord.r == 1 {
            proof {
                lemma_union_shr(moves, pawn, 16);
            }
            moves |= pawn >> 16;
        }
        // We can capture on the left everywhere but on the a-file
        if coord.f != 0 {
            proof {
                lemma_union_shr(moves, pawn, 7);
            }
            moves |= pawn >> 7;
        }
        // We can capture on the right everywhere but on the h-file
        if coord.f != 7 {
            proof {
                lemma_union_shr(moves, pawn, 9);
            }
            moves |= pawn >> 9;
        }
    } else {
        // Move gen for black player is the same, but moves are in the other direction
        proof {
            lemma_union_shl(moves, pawn, 8);
        }
        moves |= pawn << 8;
        if coord.r == 6 {
            proof {
                lemma_union_shl(moves, pawn, 16);
            }
            moves |= pawn << 16;
        }
        if coord.f != 0 {
            proof {
                lemma_union_shl(moves, pawn, 9);
            }
            moves |= pawn << 9;
        }
        if coord.f != 7 {
            proof {
                lemma_union_shl(moves, pawn, 7);
            }
            moves |= pawn << 7;
        }
    }
    moves
}

/// Generate a bitboard of all pseudo-legal moves for a king located on the
/// coord square: the adjacent squares that lie on the board. Castling is no
/// part of it.
pub fn gen_pl_k_moves(coord: Coord) -> (moves: u64)
    requires
        coord.wf(),
    ensures
        is_king_board(moves, coord),
{
    let mut moves: u64 = 0;
    let king: u64 = get_square_bitboard(coord);
    proof {
        lemma_holds_zero();
        lemma_holds_mask(coord.index());
    }

    // Generate the 3 moves to the left
    if coord.f != 0 {
        proof {
            lemma_union_shl(moves, king, 1);
        }
        moves |= king << 1;
        if coord.r != 7 {
            proof {
                lemma_union_shr(moves, king, 7);
            }
            moves |= king >> 7;
        }
        if coord.r != 0 {
            proof {
                lemma_union_shl(moves, king, 9);
            }
            moves |= king << 9;
        }
    }
    // Generate the 3 moves to the right
    if coord.f != 7 {
        proof {
            lemma_union_shr(moves, king, 1);
        }
        moves |= king >> 1;
        if coord.r != 7 {
            proof {
                lemma_union_shr(moves, king, 9);
            }
            moves |= king >> 9;
        }
        if coord.r != 0 {
            proof {
                lemma_union_shl(moves, king, 7);
            }
            moves |= king << 7;
        }
    }
    // Move up
    if coord.r != 7 {
        proof {
            lemma_union_shr(moves, king, 8);
        }
        moves |= king >> 8;
    }
    // Move down
    if coord.r != 0 {
        proof {
            lemma_union_shl(moves, king, 8);
        }
        moves |= king << 8;
    }
    moves
}

/// The squares that a rook on the coord square sees on an empty board: its
/// file and its rank, without the square itself. Pieces in the way are not
/// looked at; `gen_pl_r_attacks` stops at them.
pub fn gen_pl_r_moves(coord: Coord) -> (moves: u64)
    requires
        coord.wf(),
    ensures
        forall|to: Coord|
            to.wf() ==> (#[trigger] holds(moves, to.index()) <==> rook_line(coord, to)),
{
    let own: u64 = get_square_bitboard(coord);
    let file: u64 = FILE_A >> coord.f;
    let rank: u64 = RANK_1 >> (8 * coord.r);
    proof {
        lemma_file_a_rank_1();
        lemma_holds_mask(coord.index());
        lemma_holds_shr(FILE_A, coord.f as u64);
        lemma_holds_shr(RANK_1, (8 * coord.r) as u64);
        lemma_holds_or(file, rank);
        lemma_holds_and_not(file | rank, own);
    }
    (file | rank) & !own
}

/// The 15 diagonals that run from south-west to north-east, from the one
/// through a8 to the one through h1: diagonal `i` holds the squares whose
/// file exceeds their rank by `i - 7`.
fn sw_ne_diagonals() -> (diags: [u64; 15])
    ensures
        forall|i: int, f: int, r: int|
            0 <= i < 15 && 0 <= f < 8 && 0 <= r < 8 ==> (#[trigger] holds(
                diags@[i],
                square_of(f, r),
            ) <==> f - r == i - 7),
{
    let diags: [u64; 15] = [
        0x00_00_00_00_00_00_00_80,  // a8
        0x00_00_00_00_00_00_80_40,  // a7-b8
        0x00_00_00_00_00_80_40_20,  // a6-c8
        0x00_00_00_00_80_40_20_10,  // a5-d8
        0x00_00_00_80_40_20_10_08,  // a4-e8
        0x00_00_80_40_20_10_08_04,  // a3-f8
        0x00_80_40_20_10_08_04_02,  // a2-g8
        0x80_40_20_10_08_04_02_01,  // a1-h8 (long one)
        0x40_20_10_08_04_02_01_00,  // b1-h7
        0x20_10_08_04_02_01_00_00,  // c1-h6
        0x10_08_04_02_01_00_00_00,  // d1-h5
        0x08_04_02_01_00_00_00_00,  // e1-h4
        0x04_02_01_00_00_00_00_00,  // f1-h3
        0x02_01_00_00_00_00_00_00,  // g1-h2
        0x01_00_00_00_00_00_00_00,  // h1
    ];
    proof {
        assert forall|i: int, f: int, r: int|
            0 <= i < 15 && 0 <= f < 8 && 0 <= r < 8 implies (#[trigger] holds(
            diags@[i],
            square_of(f, r),
        ) <==> f - r == i - 7) by {
            let f = f as u64;
            let r = r as u64;
            let at: u64 = 0x8000_0000_0000_0000u64 >> (r * 8 + f);
            assert(f < 8 && r < 8 && at == 0x8000_0000_0000_0000u64 >> (r * 8 + f) ==> {
                &&& ((0x00_00_00_00_00_00_00_80u64 & at != 0) == (f + 7 == r + 0))
                &&& ((0x00_00_00_00_00_00_80_40u64 & at != 0) == (f + 7 == r + 1))
                &&& ((0x00_00_00_00_00_80_40_20u64 & at != 0) == (f + 7 == r + 2))
                &&& ((0x00_00_00_00_80_40_20_10u64 & at != 0) == (f + 7 == r + 3))
                &&& ((0x00_00_00_80_40_20_10_08u64 & at != 0) == (f + 7 == r + 4))
                &&& ((0x00_00_80_40_20_10_08_04u64 & at != 0) == (f + 7 == r + 5))
                &&& ((0x00_80_40_20_10_08_04_02u64 & at != 0) == (f + 7 == r + 6))
                &&& ((0x80_40_20_10_08_04_02_01u64 & at != 0) == (f + 7 == r + 7))
                &&& ((0x40_20_10_08_04_02_01_00u64 & at != 0) == (f + 7 == r + 8))
                &&& ((0x20_10_08_04_02_01_00_00u64 & at != 0) == (f + 7 == r + 9))
                &&& ((0x10_08_04_02_01_00_00_00u64 & at != 0) == (f + 7 == r + 10))
                &&& ((0x08_04_02_01_00_00_00_00u64 & at != 0) == (f + 7 == r + 11))
                &&& ((0x04_02_01_00_00_00_00_00u64 & at != 0) == (f + 7 == r + 12))
                &&& ((0x02_01_00_00_00_00_00_00u64 & at != 0) == (f + 7 == r + 13))
                &&& ((0x01_00_00_00_00_00_00_00u64 & at != 0) == (f + 7 == r + 14))
            }) by (bit_vector);
        }
    }
    diags
}

/// The 15 diagonals that run from north-west to south-east, from the one
/// through h8 to the one through a1: diagonal `i` holds the squares whose
/// file and rank add up to `14 - i`.
fn nw_se_diagonals() -> (diags: [u64; 15])
    ensures
        forall|i: int, f: int, r: int|
            0 <= i < 15 && 0 <= f < 8 && 0 <= r < 8 ==> (#[trigger] holds(
                diags@[i],
                square_of(f, r),
            ) <==> f + r == 14 - i),
{
    let diags: [u64; 15] = [
        0x00_00_00_00_00_00_00_01,  // h8
        0x00_00_00_00_00_00_01_02,  // h7-g8
        0x00_00_00_00_00_01_02_04,  // h6-f8
        0x00_00_00_00_01_02_04_08,  // h5-e8
        0x00_00_00_01_02_04_08_10,  // h4-d8
        0x00_00_01_02_04_08_10_20,  // h3-c8
        0x00_01_02_04_08_10_20_40,  // h2-b8
        0x01_02_04_08_10_20_40_80,  // h1-a8 (long one)
        0x02_04_08_10_20_40_80_00,  // g1-a7
        0x04_08_10_20_40_80_00_00,  // f1-a6
        0x08_10_20_40_80_00_00_00,  // e1-a5
        0x10_20_40_80_00_00_00_00,  // d1-a4
        0x20_40_80_00_00_00_00_00,  // c1-a3
        0x40_80_00_00_00_00_00_00,  // b1-a2
        0x80_00_00_00_00_00_00_00,  // a1
    ];
    proof {
        assert forall|i: int, f: int, r: int|
            0 <= i < 15 && 0 <= f < 8 && 0 <= r < 8 implies (#[trigger] holds(
            diags@[i],
            square_of(f, r),
        ) <==> f + r == 14 - i) by {
            let f = f as u64;
            let r = r as u64;
            let at: u64 = 0x8000_0000_0000_0000u64 >> (r * 8 + f);
            assert(f < 8 && r < 8 && at == 0x8000_0000_0000_0000u64 >> (r * 8 + f) ==> {
                &&& ((0x00_00_00_00_00_00_00_01u64 & at != 0) == (f + r + 0 == 14))
                &&& ((0x00_00_00_00_00_00_01_02u64 & at != 0) == (f + r + 1 == 14))
                &&& ((0x00_00_00_00_00_01_02_04u64 & at != 0) == (f + r + 2 == 14))
                &&& ((0x00_00_00_00_01_02_04_08u64 & at != 0) == (f + r + 3 == 14))
                &&& ((0x00_00_00_01_02_04_08_10u64 & at != 0) == (f + r + 4 == 14))
                &&& ((0x00_00_01_02_04_08_10_20u64 & at != 0) == (f + r + 5 == 14))
                &&& ((0x00_01_02_04_08_10_20_40u64 & at != 0) == (f + r + 6 == 14))
                &&& ((0x01_02_04_08_10_20_40_80u64 & at != 0) == (f + r + 7 == 14))
                &&& ((0x02_04_08_10_20_40_80_00u64 & at != 0) == (f + r + 8 == 14))
                &&& ((0x04_08_10_20_40_80_00_00u64 & at != 0) == (f + r + 9 == 14))
                &&& ((0x08_10_20_40_80_00_00_00u64 & at != 0) == (f + r + 10 == 14))
                &&& ((0x10_20_40_80_00_00_00_00u64 & at != 0) == (f + r + 11 == 14))
                &&& ((0x20_40_80_00_00_00_00_00u64 & at != 0) == (f + r + 12 == 14))
                &&& ((0x40_80_00_00_00_00_00_00u64 & at != 0) == (f + r + 13 == 14))
                &&& ((0x80_00_00_00_00_00_00_00u64 & at != 0) == (f + r + 14 == 14))
            }) by (bit_vector);
        }
    }
    diags
}

/// The diagonal of `diags` that the square of `own` lies on, given that
/// diagonal `i` holds the square `sq` exactly when `i == on`.
fn find_diagonal(
    diags: &[u64; 15],
    own: u64,
    Ghost(sq): Ghost<int>,
    Ghost(on): Ghost<int>,
) -> (found: u64)
    requires
        own == square_mask(sq),
        0 <= on < 15,
        forall|i: int| 0 <= i < 15 ==> (#[trigger] holds(diags@[i], sq) <==> i == on),
    ensures
        found == diags@[on],
{
    let mut i: usize = 0;
    while i < 15
        invariant
            i <= on,
            own == square_mask(sq),
            0 <= on < 15,
            forall|k: int| 0 <= k < 15 ==> (#[trigger] holds(diags@[k], sq) <==> k == on),
        decreases 15 - i,
    {
        if diags[i] & own != 0 {
            assert(holds(diags@[i as int], sq));
            return diags[i];
        }
        assert(!holds(diags@[i as int], sq));
        i += 1;
    }
    assert(holds(diags@[on], sq));
    0
}

/// The squares that a bishop on the coord square sees on an empty board: the
/// two diagonals through the square, without the square itself. Pieces in
/// the way are not looked at; `gen_pl_b_attacks` stops at them.
pub fn gen_pl_b_moves(coord: Coord) -> (moves: u64)
    requires
        coord.wf(),
    ensures
        forall|to: Coord|
            to.wf() ==> (#[trigger] holds(moves, to.index()) <==> bishop_line(coord, to)),
{
    let bishop: u64 = get_square_bitboard(coord);

    // See on which SW-NE diagonal the piece is located
    let sw_ne_diags = sw_ne_diagonals();
    let sw_ne: u64 = find_diagonal(
        &sw_ne_diags,
        bishop,
        Ghost(coord.index()),
        Ghost(coord.f - coord.r + 7),
    );

    // Same for NW-SE diagonals
    let nw_se_diags = nw_se_diagonals();
    let nw_se: u64 = find_diagonal(
        &nw_se_diags,
        bishop,
        Ghost(coord.index()),
        Ghost(14 - coord.f - coord.r),
    );

    proof {
        lemma_holds_mask(coord.index());
        lemma_holds_or(sw_ne, nw_se);
        lemma_holds_and_not(sw_ne | nw_se, bishop);
    }
    // Substract the square on which the bishop itself is located
    (sw_ne | nw_se) & !bishop
}

/// The squares that a queen on the coord square sees on an empty board:
/// those of a rook and those of a bishop. Pieces in the way are not looked
/// at; `gen_pl_q_attacks` stops at them.
pub fn gen_pl_q_moves(coord: Coord) -> (moves: u64)
    requires
        coord.wf(),
    ensures
        forall|to: Coord|
            to.wf() ==> (#[trigger] holds(moves, to.index()) <==> rook_line(coord, to)
                || bishop_line(coord, to)),
{
    let straight: u64 = gen_pl_r_moves(coord);
    let diagonal: u64 = gen_pl_b_moves(coord);
    proof {
        lemma_holds_or(straight, diagonal);
    }
    straight | diagonal
}

/// Precompute pseudolegal pawn moves for all squares, and return them in an
/// array of bitboards of size 64, one per square in row-major order from a1.
/// The entries of the first and the last rank, where no pawn stands, are
/// empty.
pub fn precompute_pl_p_moves(player: Player) -> (table: [u64; 64])
    ensures
        forall|from: Coord|
            from.wf() ==> if 1 <= from.r <= 6 {
                is_pawn_board(#[trigger] table@[from.index()], player, from)
            } else {
                table@[from.index()] == 0
            },
{
    let mut table: [u64; 64] = [0;64];
    let mut rank: usize = 1;
    while rank < 7
        invariant
            1 <= rank <= 7,
            forall|from: Coord|
                from.wf() ==> if 1 <= from.r < rank {
                    is_pawn_board(#[trigger] table@[from.index()], player, from)
                } else {
                    table@[from.index()] == 0
                },
        decreases 7 - rank,
    {
        let mut file: usize = 0;
        while file < 8
            invariant
                1 <= rank < 7,
                file <= 8,
                forall|from: Coord|
                    from.wf() ==> if 1 <= from.r < rank || (from.r == rank && from.f < file) {
                        is_pawn_board(#[trigger] table@[from.index()], player, from)
                    } else {
                        table@[from.index()] == 0
                    },
            decreases 8 - file,
        {
            table[rank * 8 + file] = gen_pl_p_moves(player, Coord::new(file as u8, rank as u8));
            file += 1;
        }
        rank += 1;
    }
    table
}

/// Precompute pseudolegal knight moves for all squares, and return them in an
/// array of bitboards of size 64, one per square in row-major order from a1.
pub fn precompute_pl_n_moves() -> (table: [u64; 64])
    ensures
        forall|from: Coord| from.wf() ==> is_knight_board(#[trigger] table@[from.index()], from),
{
    let mut table: [u64; 64] = [0;64];
    let mut rank: usize = 0;
    while rank < 8
        invariant
            rank <= 8,
            forall|from: Coord|
                from.wf() && from.r < rank ==> is_knight_board(
                    #[trigger] table@[from.index()],
                    from,
                ),
        decreases 8 - rank,
    {
        let mut file: usize = 0;
        while file < 8
            invariant
                rank < 8,
                file <= 8,
                forall|from: Coord|
                    from.wf() && (from.r < rank || (from.r == rank && from.f < file))
                        ==> is_knight_board(#[trigger] table@[from.index()], from),
            decreases 8 - file,
        {
            table[rank * 8 + file] = gen_pl_n_moves(Coord::new(file as u8, rank as u8));
            file += 1;
        }
        rank += 1;
    }
    table
}

/// Precompute pseudolegal king moves for all squares, and return them in an
/// array of bitboards of size 64, one per square in row-major order from a1.
pub fn precompute_pl_k_moves() -> (table: [u64; 64])
    ensures
        forall|from: Coord| from.wf() ==> is_king_board(#[trigger] table@[from.index()], from),
{
    let mut table: [u64; 64] = [0;64];
    let mut rank: usize = 0;
    while rank < 8
        invariant
            rank <= 8,
            forall|from: Coord|
                from.wf() && from.r < rank ==> is_king_board(
                    #[trigger] table@[from.index()],
                    from,
                ),
        decreases 8 - rank,
    {
        let mut file: usize = 0;
        while file < 8
            invariant
                rank < 8,
                file <= 8,
                forall|from: Coord|
                    from.wf() && (from.r < rank || (from.r == rank && from.f < file))
                        ==> is_king_board(#[trigger] table@[from.index()], from),
            decreases 8 - file,
        {
            table[rank * 8 + file] = gen_pl_k_moves(Coord::new(file as u8, rank as u8));
            file += 1;
        }
        rank += 1;
    }
    table
}

/// The lookup tables of the pieces whose moves do not depend on the other
/// pieces: one entry per square, in row-major order from a1.
#[derive(Debug)]
pub struct PLMoveLUT {
    pub white_p_lut: [u64; 64],
    pub black_p_lut: [u64; 64],
    pub n_lut: [u64; 64],
    pub k_lut: [u64; 64],
}

impl PLMoveLUT {
    /// Every entry holds the destinations of its piece from its square; the
    /// pawn entries of the first and the last rank are empty.
    pub open spec fn wf(&self) -> bool {
        &&& forall|from: Coord|
            from.wf() ==> is_knight_board(#[trigger] self.n_lut@[from.index()], from)
        &&& forall|from: Coord|
            from.wf() ==> is_king_board(#[trigger] self.k_lut@[from.index()], from)
        &&& forall|from: Coord|
            from.wf() ==> if 1 <= from.r <= 6 {
                is_pawn_board(#[trigger] self.white_p_lut@[from.index()], Player::White, from)
            } else {
                self.white_p_lut@[from.index()] == 0
            }
        &&& forall|from: Coord|
            from.wf() ==> if 1 <= from.r <= 6 {
                is_pawn_board(#[trigger] self.black_p_lut@[from.index()], Player::Black, from)
            } else {
                self.black_p_lut@[from.index()] == 0
            }
    }
}

impl Default for PLMoveLUT {
    /// Computes the four tables.
    fn default() -> (lut: PLMoveLUT)
        ensures
            lut.wf(),
    {
        PLMoveLUT {
            white_p_lut: precompute_pl_p_moves(Player::White),
            black_p_lut: precompute_pl_p_moves(Player::Black),
            n_lut: precompute_pl_n_moves(),
            k_lut: precompute_pl_k_moves(),
        }
    }
}

/// `n` steps along one axis in the direction `d`: up for a positive `d`,
/// down for a negative one, none for zero.
pub open spec fn steps(n: int, d: int) -> int {
    if d > 0 {
        n
    } else if d < 0 {
        -n
    } else {
        0
    }
}

/// The direction of a difference along one axis: 1, -1 or 0.
pub open spec fn direction(difference: int) -> int {
    if difference > 0 {
        1
    } else if difference < 0 {
        -1
    } else {
        0
    }
}

/// The number of king steps between two squares.
pub open spec fn distance(from: Coord, to: Coord) -> int {
    let df = if to.f >= from.f { to.f - from.f } else { from.f - to.f };
    let dr = if to.r >= from.r { to.r - from.r } else { from.r - to.r };
    if df >= dr {
        df
    } else {
        dr
    }
}

/// The square `n` steps away from `from` on the line towards `to`.
pub open spec fn square_towards(from: Coord, to: Coord, n: int) -> Coord {
    Coord::at(
        from.f + steps(n, direction(to.f - from.f)),
        from.r + steps(n, direction(to.r - from.r)),
    )
}

/// Whether `occupied` holds none of the squares that lie strictly between
/// `from` and `to`, which stand on one line.
pub open spec fn clear_between(occupied: u64, from: Coord, to: Coord) -> bool {
    forall|n: int|
        1 <= n < distance(from, to) ==> !holds(
            occupied,
            (#[trigger] square_towards(from, to, n)).index(),
        )
}

/// Whether `to` lies on the ray that leaves `from` in the direction
/// (`df`, `dr`).
pub open spec fn on_ray(from: Coord, df: int, dr: int, to: Coord) -> bool {
    &&& to != from
    &&& direction(to.f - from.f) == df
    &&& direction(to.r - from.r) == dr
    &&& (df == 0 || dr == 0 || to.f - from.f == to.r - from.r || to.f - from.f == from.r - to.r)
}

/// Whether a rook on `from` sees `to` among the pieces of `occupied`: the
/// squares of its lines up to the first occupied one, that one included.
pub open spec fn rook_reach(occupied: u64, from: Coord, to: Coord) -> bool {
    rook_line(from, to) && clear_between(occupied, from, to)
}

/// Whether a bishop on `from` sees `to` among the pieces of `occupied`.
pub open spec fn bishop_reach(occupied: u64, from: Coord, to: Coord) -> bool {
    bishop_line(from, to) && clear_between(occupied, from, to)
}

/// Whether a queen on `from` sees `to` among the pieces of `occupied`.
pub open spec fn queen_reach(occupied: u64, from: Coord, to: Coord) -> bool {
    rook_reach(occupied, from, to) || bishop_reach(occupied, from, to)
}

/// The squares of one ray from the coord square, up to the first square
/// that `occupied` holds, that one included.
fn gen_pl_ray(coord: Coord, df: i8, dr: i8, occupied: u64) -> (moves: u64)
    requires
        coord.wf(),
        -1 <= df <= 1,
        -1 <= dr <= 1,
        df != 0 || dr != 0,
    ensures
        forall|to: Coord|
            to.wf() ==> (#[trigger] holds(moves, to.index()) <==> on_ray(
                coord,
                df as int,
                dr as int,
                to,
            ) && clear_between(occupied, coord, to)),
{
    let mut moves: u64 = 0;
    let mut file: i8 = coord.f as i8 + df;
    let mut rank: i8 = coord.r as i8 + dr;
    let mut blocked: bool = false;
    let ghost mut n: int = 1;
    proof {
        lemma_holds_zero();
    }
    while !blocked && 0 <= file && file < 8 && 0 <= rank && rank < 8
        invariant
            coord.wf(),
            -1 <= df <= 1,
            -1 <= dr <= 1,
            df != 0 || dr != 0,
            1 <= n <= 8,
            !blocked ==> file == coord.f + steps(n, df as int) && rank == coord.r + steps(
                n,
                dr as int,
            ),
            blocked ==> n >= 2 && exists|at: Coord|
                at.wf() && on_ray(coord, df as int, dr as int, at) && distance(coord, at) == n - 1
                    && holds(occupied, at.index()),
            forall|to: Coord|
                to.wf() && on_ray(coord, df as int, dr as int, to) && distance(coord, to) < n - (
                if blocked {
                    1int
                } else {
                    0int
                }) ==> !holds(occupied, #[trigger] to.index()),
            forall|to: Coord|
                to.wf() ==> (#[trigger] holds(moves, to.index()) <==> on_ray(
                    coord,
                    df as int,
                    dr as int,
                    to,
                ) && distance(coord, to) < n && clear_between(occupied, coord, to)),
        decreases 9 - n + if blocked { 0int } else { 1int },
    {
        let square = Coord::new(file as u8, rank as u8);
        let mask: u64 = get_square_bitboard(square);
        proof {
            lemma_holds_mask(square.index());
            lemma_holds_or(moves, mask);
            assert(on_ray(coord, df as int, dr as int, square));
            assert(distance(coord, square) == n);
            assert forall|m: int| 1 <= m < n implies !holds(
                occupied,
                (#[trigger] square_towards(coord, square, m)).index(),
            ) by {
                let between = square_towards(coord, square, m);
                assert(between.wf());
                assert(on_ray(coord, df as int, dr as int, between));
                assert(distance(coord, between) == m);
            }
            assert forall|to: Coord|
                to.wf() && on_ray(coord, df as int, dr as int, to) && distance(coord, to)
                    == n implies to == square by {}
        }
        moves |= mask;
        if occupied & mask != 0 {
            blocked = true;
            proof {
                assert(holds(occupied, square.index()));
            }
        } else {
            file += df;
            rank += dr;
        }
        proof {
            n = n + 1;
        }
    }
    proof {
        assert forall|to: Coord| to.wf() implies (#[trigger] holds(moves, to.index()) <==> on_ray(
            coord,
            df as int,
            dr as int,
            to,
        ) && clear_between(occupied, coord, to)) by {
            if on_ray(coord, df as int, dr as int, to) && distance(coord, to) >= n {
                if blocked {
                    let at = choose|at: Coord|
                        at.wf() && on_ray(coord, df as int, dr as int, at) && distance(coord, at)
                            == n - 1 && holds(occupied, at.index());
                    assert(square_towards(coord, to, n - 1) == at);
                }
            }
        }
    }
    moves
}

/// The squares that a rook on the coord square sees among the pieces of
/// `occupied`: along its file and its rank, up to the first occupied square
/// in each direction, that one included.
pub fn gen_pl_r_attacks(coord: Coord, occupied: u64) -> (moves: u64)
    requires
        coord.wf(),
    ensures
        forall|to: Coord|
            to.wf() ==> (#[trigger] holds(moves, to.index()) <==> rook_reach(occupied, coord, to)),
{
    let east: u64 = gen_pl_ray(coord, 1, 0, occupied);
    let west: u64 = gen_pl_ray(coord, -1, 0, occupied);
    let north: u64 = gen_pl_ray(coord, 0, 1, occupied);
    let south: u64 = gen_pl_ray(coord, 0, -1, occupied);
    proof {
        lemma_holds_or(east, west);
        lemma_holds_or(east | west, north);
        lemma_holds_or(east | west | north, south);
    }
    east | west | north | south
}

/// The squares that a bishop on the coord square sees among the pieces of
/// `occupied`: along its two diagonals, up to the first occupied square in
/// each direction, that one included.
pub fn gen_pl_b_attacks(coord: Coord, occupied: u64) -> (moves: u64)
    requires
        coord.wf(),
    ensures
        forall|to: Coord|
            to.wf() ==> (#[trigger] holds(moves, to.index()) <==> bishop_reach(
                occupied,
                coord,
                to,
            )),
{
    let north_east: u64 = gen_pl_ray(coord, 1, 1, occupied);
    let north_west: u64 = gen_pl_ray(coord, -1, 1, occupied);
    let south_east: u64 = gen_pl_ray(coord, 1, -1, occupied);
    let south_west: u64 = gen_pl_ray(coord, -1, -1, occupied);
    proof {
        lemma_holds_or(north_east, north_west);
        lemma_holds_or(north_east | north_west, south_east);
        lemma_holds_or(north_east | north_west | south_east, south_west);
    }
    north_east | north_west | south_east | south_west
}

/// The squares that a queen on the coord square sees among the pieces of
/// `occupied`: those of a rook and those of a bishop.
pub fn gen_pl_q_attacks(coord: Coord, occupied: u64) -> (moves: u64)
    requires
        coord.wf(),
    ensures
        forall|to: Coord|
            to.wf() ==> (#[trigger] holds(moves, to.index()) <==> queen_reach(occupied, coord, to)),
{
    let straight: u64 = gen_pl_r_attacks(coord, occupied);
    let diagonal: u64 = gen_pl_b_attacks(coord, occupied);
    proof {
        lemma_holds_or(straight, diagonal);
    }
    straight | diagonal
}

/// Whether every square strictly between `from` and `to`, which stand on
/// one line, is empty on `board`.
pub open spec fn path_clear(board: Map<Coord, PieceCode>, from: Coord, to: Coord) -> bool {
    forall|n: int|
        1 <= n < distance(from, to) ==> board[#[trigger] square_towards(from, to, n)]
            == PieceCode::ES
}

/// Whether the piece that stands on `from` attacks the square `to`: a pawn
/// attacks the two squares diagonally ahead (and none from the first or the
/// last rank, where no pawn stands), a knight and a king the squares a step
/// away, a rook, a bishop and a queen the squares of their lines up to the
/// first piece in the way, its square included.
pub open spec fn attacks(board: Map<Coord, PieceCode>, from: Coord, to: Coord) -> bool {
    let piece = board[from];
    match piece.kind() {
        None => false,
        Some(PieceKind::Pawn) => 1 <= from.r <= 6 && pawn_capture(piece.owner().unwrap(), from, to),
        Some(PieceKind::Knight) => knight_step(from, to),
        Some(PieceKind::King) => king_step(from, to),
        Some(PieceKind::Rook) => rook_line(from, to) && path_clear(board, from, to),
        Some(PieceKind::Bishop) => bishop_line(from, to) && path_clear(board, from, to),
        Some(PieceKind::Queen) => (rook_line(from, to) || bishop_line(from, to)) && path_clear(
            board,
            from,
            to,
        ),
    }
}

/// The squares between two squares of a line lie on the board.
pub proof fn lemma_square_towards_wf(from: Coord, to: Coord, n: int)
    requires
        from.wf(),
        to.wf(),
        rook_line(from, to) || bishop_line(from, to),
        0 <= n <= distance(from, to),
    ensures
        square_towards(from, to, n).wf(),
{
}

/// With `occupied` holding the squares on which `board` has a piece, the
/// way between two squares of a line is clear of `occupied` exactly when
/// it is clear on `board`.
pub proof fn lemma_clear_between(
    board: Map<Coord, PieceCode>,
    occupied: u64,
    from: Coord,
    to: Coord,
)
    requires
        from.wf(),
        to.wf(),
        rook_line(from, to) || bishop_line(from, to),
        forall|c: Coord|
            c.wf() ==> (#[trigger] holds(occupied, c.index()) <==> board[c] != PieceCode::ES),
    ensures
        clear_between(occupied, from, to) <==> path_clear(board, from, to),
{
    assert forall|n: int| 1 <= n < distance(from, to) implies (!holds(
        occupied,
        (#[trigger] square_towards(from, to, n)).index(),
    ) <==> board[square_towards(from, to, n)] == PieceCode::ES) by {
        lemma_square_towards_wf(from, to, n);
    }
}

/// The squares that the piece on `from` attacks in the position, given the
/// squares that any piece occupies.
pub fn attack_board(position: &Position, lut: &PLMoveLUT, from: Coord, occupied: u64) -> (board:
    u64)
    requires
        lut.wf(),
        from.wf(),
        forall|c: Coord|
            c.wf() ==> (#[trigger] holds(occupied, c.index()) <==> position.piece_at(c)
                != PieceCode::ES),
    ensures
        forall|to: Coord|
            to.wf() ==> (#[trigger] holds(board, to.index()) <==> attacks(
                position.placement(),
                from,
                to,
            )),
{
    let piece: PieceCode = position.get_square(from);
    let index: usize = from.r as usize * 8 + from.f as usize;
    let ghost placement = position.placement();
    assert(placement[from] == piece);
    match piece.kind() {
        None => {
            proof {
                lemma_holds_zero();
            }
            0
        },
        Some(PieceKind::Pawn) => {
            let entry: u64 = if piece == PieceCode::WP {
                lut.white_p_lut[index]
            } else {
                lut.black_p_lut[index]
            };
            assert(index == from.index());
            let file: u64 = FILE_A >> from.f;
            proof {
                lemma_holds_zero();
                lemma_file_a_rank_1();
                lemma_holds_shr(FILE_A, from.f as u64);
                lemma_holds_and_not(entry, file);
            }
            entry & !file
        },
        Some(PieceKind::Knight) => {
            assert(index == from.index());
            lut.n_lut[index]
        },
        Some(PieceKind::King) => {
            assert(index == from.index());
            lut.k_lut[index]
        },
        Some(PieceKind::Rook) => {
            let board: u64 = gen_pl_r_attacks(from, occupied);
            proof {
                assert forall|to: Coord| to.wf() implies (#[trigger] holds(board, to.index())
                    <==> attacks(placement, from, to)) by {
                    if rook_line(from, to) {
                        lemma_clear_between(placement, occupied, from, to);
                    }
                }
            }
            board
        },
        Some(PieceKind::Bishop) => {
            let board: u64 = gen_pl_b_attacks(from, occupied);
            proof {
                assert forall|to: Coord| to.wf() implies (#[trigger] holds(board, to.index())
                    <==> attacks(placement, from, to)) by {
                    if bishop_line(from, to) {
                        lemma_clear_between(placement, occupied, from, to);
                    }
                }
            }
            board
        },
        Some(PieceKind::Queen) => {
            let board: u64 = gen_pl_q_attacks(from, occupied);
            proof {
                assert forall|to: Coord| to.wf() implies (#[trigger] holds(board, to.index())
                    <==> attacks(placement, from, to)) by {
                    if rook_line(from, to) || bishop_line(from, to) {
                        lemma_clear_between(placement, occupied, from, to);
                    }
                }
            }
            board
        },
    }
}

} // verus!
