//! Square-indexed reading of 64-bit boards.
//!
//! A board is a `u64` in which every square of the chessboard owns one bit.
//! Squares are numbered in row-major order from a1: square `8 * rank + file`
//! owns bit `63 - (8 * rank + file)`, so a1 is the most significant bit and
//! h8 the least significant one. Everything the rest of the crate proves
//! about shifts and masks goes through the lemmas of this module.
use vstd::prelude::*;
use vstd::std_specs::bits::u64_leading_zeros;

verus! {

/// The board that holds the a1 square and nothing else.
pub const A1_BITBOARD: u64 = 0x8000_0000_0000_0000;

/// The number of the square on the given file and rank (both from 0 to 7).
pub open spec fn square_of(file: int, rank: int) -> int {
    rank * 8 + file
}

/// The board that holds exactly the square numbered `sq` (for `0 <= sq < 64`).
pub open spec fn square_mask(sq: int) -> u64 {
    A1_BITBOARD >> (sq as u64)
}

/// Whether `board` holds the square numbered `sq`.
pub open spec fn holds(board: u64, sq: int) -> bool {
    board & square_mask(sq) != 0
}

/// The empty board holds no square.
pub proof fn lemma_holds_zero()
    ensures
        forall|sq: int| !#[trigger] holds(0, sq),
{
    assert forall|sq: int| !#[trigger] holds(0, sq) by {
        let m = square_mask(sq);
        assert(0u64 & m == 0) by (bit_vector);
    }
}

/// The union of two boards holds the squares of either.
pub proof fn lemma_holds_or(x: u64, y: u64)
    ensures
        forall|sq: int| #[trigger] holds(x | y, sq) == (holds(x, sq) || holds(y, sq)),
{
    assert forall|sq: int| #[trigger] holds(x | y, sq) == (holds(x, sq) || holds(y, sq)) by {
        let m = square_mask(sq);
        assert(((x | y) & m != 0) == (x & m != 0 || y & m != 0)) by (bit_vector);
    }
}

/// The intersection of two boards holds the squares common to both.
pub proof fn lemma_holds_and(x: u64, y: u64)
    ensures
        forall|sq: int|
            0 <= sq < 64 ==> #[trigger] holds(x & y, sq) == (holds(x, sq) && holds(y, sq)),
{
    assert forall|sq: int| 0 <= sq < 64 implies #[trigger] holds(x & y, sq) == (holds(x, sq)
        && holds(y, sq)) by {
        let s = sq as u64;
        assert(s < 64 ==> (((x & y) & (0x8000_0000_0000_0000u64 >> s) != 0) == (x & (
        0x8000_0000_0000_0000u64 >> s) != 0 && y & (0x8000_0000_0000_0000u64 >> s) != 0)))
            by (bit_vector);
    }
}

/// The complement of a board holds the squares that the board does not.
pub proof fn lemma_holds_not(x: u64)
    ensures
        forall|sq: int| 0 <= sq < 64 ==> #[trigger] holds(!x, sq) == !holds(x, sq),
{
    assert forall|sq: int| 0 <= sq < 64 implies #[trigger] holds(!x, sq) == !holds(x, sq) by {
        let s = sq as u64;
        assert(s < 64 ==> (((!x) & (0x8000_0000_0000_0000u64 >> s) != 0) == !(x & (
        0x8000_0000_0000_0000u64 >> s) != 0))) by (bit_vector);
    }
}

/// A square mask holds its own square and no other.
pub proof fn lemma_holds_mask(at: int)
    requires
        0 <= at < 64,
    ensures
        forall|sq: int| 0 <= sq < 64 ==> #[trigger] holds(square_mask(at), sq) == (sq == at),
{
    assert forall|sq: int| 0 <= sq < 64 implies #[trigger] holds(square_mask(at), sq) == (sq
        == at) by {
        let s = sq as u64;
        let t = at as u64;
        assert(s < 64 && t < 64 ==> (((0x8000_0000_0000_0000u64 >> t) & (0x8000_0000_0000_0000u64
            >> s) != 0) == (s == t))) by (bit_vector);
    }
}

/// Shifting a board right by `k` moves every square `k` places away from a1;
/// squares pushed past h8 are lost.
pub proof fn lemma_holds_shr(x: u64, k: u64)
    requires
        k < 64,
    ensures
        forall|sq: int|
            0 <= sq < 64 ==> #[trigger] holds(x >> k, sq) == (sq >= k && holds(x, sq - k)),
{
    assert forall|sq: int| 0 <= sq < 64 implies #[trigger] holds(x >> k, sq) == (sq >= k && holds(
        x,
        sq - k,
    )) by {
        let s = sq as u64;
        assert(s < 64 && k < 64 ==> ((((x >> k) & (0x8000_0000_0000_0000u64 >> s)) != 0) == (s
            >= k && (x & (0x8000_0000_0000_0000u64 >> ((s - k) as u64))) != 0)))
            by (bit_vector);
    }
}

/// Shifting a board left by `k` moves every square `k` places towards a1;
/// squares pushed past a1 are lost.
pub proof fn lemma_holds_shl(x: u64, k: u64)
    requires
        k < 64,
    ensures
        forall|sq: int|
            0 <= sq < 64 ==> #[trigger] holds(x << k, sq) == (sq + k < 64 && holds(x, sq + k)),
{
    assert forall|sq: int| 0 <= sq < 64 implies #[trigger] holds(x << k, sq) == (sq + k < 64
        && holds(x, sq + k)) by {
        let s = sq as u64;
        assert(s < 64 && k < 64 ==> ((((x << k) & (0x8000_0000_0000_0000u64 >> s)) != 0) == (s + k
            < 64 && (x & (0x8000_0000_0000_0000u64 >> ((s + k) as u64))) != 0)))
            by (bit_vector);
    }
}

/// Adding to `acc` the squares of `x` moved `k` places towards a1.
pub proof fn lemma_union_shl(acc: u64, x: u64, k: u64)
    requires
        k < 64,
    ensures
        forall|sq: int|
            0 <= sq < 64 ==> #[trigger] holds(acc | (x << k), sq) == (holds(acc, sq) || (sq + k
                < 64 && holds(x, sq + k))),
{
    lemma_holds_or(acc, x << k);
    lemma_holds_shl(x, k);
}

/// Adding to `acc` the squares of `x` moved `k` places away from a1.
pub proof fn lemma_union_shr(acc: u64, x: u64, k: u64)
    requires
        k < 64,
    ensures
        forall|sq: int|
            0 <= sq < 64 ==> #[trigger] holds(acc | (x >> k), sq) == (holds(acc, sq) || (sq >= k
                && holds(x, sq - k))),
{
    lemma_holds_or(acc, x >> k);
    lemma_holds_shr(x, k);
}

/// Removing from `x` the squares of `y`.
pub proof fn lemma_holds_and_not(x: u64, y: u64)
    ensures
        forall|sq: int|
            0 <= sq < 64 ==> #[trigger] holds(x & !y, sq) == (holds(x, sq) && !holds(y, sq)),
{
    lemma_holds_and(x, !y);
    lemma_holds_not(y);
}

/// The a-file.
pub const FILE_A: u64 = 0x80_80_80_80_80_80_80_80;

/// The first rank.
pub const RANK_1: u64 = 0xff_00_00_00_00_00_00_00;

/// What `FILE_A` and `RANK_1` hold of one square.
proof fn lemma_line_masks_at(sq: int)
    requires
        0 <= sq < 64,
    ensures
        holds(FILE_A, sq) == (sq % 8 == 0),
        holds(RANK_1, sq) == (sq < 8),
{
    let s = sq as u64;
    assert(s < 64 ==> ((0x80_80_80_80_80_80_80_80u64 & (0x8000_0000_0000_0000u64 >> s) != 0) == (s
        % 8 == 0)) && ((0xff_00_00_00_00_00_00_00u64 & (0x8000_0000_0000_0000u64 >> s) != 0) == (s
        < 8))) by (bit_vector);
}

/// `FILE_A` holds the squares of the a-file and `RANK_1` those of the first
/// rank.
pub proof fn lemma_file_a_rank_1()
    ensures
        forall|sq: int| 0 <= sq < 64 ==> #[trigger] holds(FILE_A, sq) == (sq % 8 == 0),
        forall|sq: int| 0 <= sq < 64 ==> #[trigger] holds(RANK_1, sq) == (sq < 8),
{
    assert forall|sq: int| 0 <= sq < 64 implies #[trigger] holds(FILE_A, sq) == (sq % 8 == 0) by {
        lemma_line_masks_at(sq);
    }
    assert forall|sq: int| 0 <= sq < 64 implies #[trigger] holds(RANK_1, sq) == (sq < 8) by {
        lemma_line_masks_at(sq);
    }
}

/// Two boards that hold the same squares are the same board.
pub proof fn lemma_same_squares(x: u64, y: u64)
    requires
        forall|sq: int| 0 <= sq < 64 ==> holds(x, sq) == holds(y, sq),
    ensures
        x == y,
{
    if x != y {
        let differ: u64 = x ^ y;
        assert(x != y ==> x ^ y != 0) by (bit_vector);
        let first: int = u64_leading_zeros(differ);
        let z: u64 = first as u64;
        assert(z < 64 && ((x ^ y) >> ((63 - z) as u64)) & 1u64 != 0u64 ==> ((x & (
        0x8000_0000_0000_0000u64 >> z)) != 0) != ((y & (0x8000_0000_0000_0000u64 >> z)) != 0))
            by (bit_vector);
        assert(holds(x, first) != holds(y, first));
    }
}

} // verus!
