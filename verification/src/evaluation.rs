//! Static evaluation: a weighted sum of literal material, material over the
//! virtual reach sets, and positional terms, from the side to move's
//! perspective. A side without exactly one King turns the score into a
//! forced-loss or forced-win sentinel instead.
use vstd::prelude::*;

use crate::board::BitBoard;
use crate::board::Square;
use crate::board::bit64;
use crate::board::count_bits_upto;
use crate::board::lemma_count_bits_upto_le;
use crate::board::popcount;
use crate::board::spec_square_of;
use crate::position::Color;
use crate::position::Piece;
use crate::position::PlayerPieces;
use crate::position::Position;
use crate::position::spec_virtual;

verus! {

/// The greatest advantage the engine ever reports: the forced-win sentinel.
pub const SCORE_MAX: i64 = 0x3fffffffffffffff;

/// The least advantage: the forced-loss sentinel, the exact negation of
/// `SCORE_MAX` so that negamax negation never overflows.
pub const SCORE_MIN: i64 = -0x3fffffffffffffff;

pub const KNIGHT_VALUE: i64 = 3;

pub const BISHOP_VALUE: i64 = 3;

pub const ROOK_VALUE: i64 = 5;

pub const QUEEN_VALUE: i64 = 9;

/// Favourable squares per kind, denser centrally for the minor pieces,
/// edge-inclusive for the heavy pieces, the back two ranks for the King.
/// Bit `rank * 8 + file` marks a square; each mask is vertically symmetric in
/// files, and `spec_byte_swap` mirrors it for Black.
pub const PAWN_MASK: u64 = 0x0000183c7ee7e700;

pub const KNIGHT_MASK: u64 = 0x00007e7e7e7e0000;

pub const BISHOP_MASK: u64 = 0x000000ffe7e7c300;

pub const ROOK_MASK: u64 = 0xffffc3c3c3c3ffff;

pub const QUEEN_MASK: u64 = 0xffffe7c3c3e7ffff;

pub const KING_MASK: u64 = 0x000000000000ffff;

/// The mask mirrored between the two sides: the bytes — one per rank — in
/// reverse order.
pub open spec fn spec_byte_swap(m: u64) -> u64 {
    (m >> 56u64) | ((m >> 40u64) & 0xff00) | ((m >> 24u64) & 0xff0000) | ((m >> 8u64) & 0xff000000)
        | ((m << 8u64) & 0xff00000000) | ((m << 24u64) & 0xff0000000000) | ((m << 40u64)
        & 0xff000000000000) | (m << 56u64)
}

pub fn byte_swap(m: u64) -> (r: u64)
    ensures
        r == spec_byte_swap(m),
{
    (m >> 56u64) | ((m >> 40u64) & 0xff00) | ((m >> 24u64) & 0xff0000) | ((m >> 8u64) & 0xff000000)
        | ((m << 8u64) & 0xff00000000) | ((m << 24u64) & 0xff0000000000) | ((m << 40u64)
        & 0xff000000000000) | (m << 56u64)
}

/// One side's material: pawns count 1, knights and bishops 3, rooks 5,
/// queens 9; kings count nothing.
pub open spec fn spec_side_material(pp: PlayerPieces) -> int {
    popcount(pp.pawns.0) + KNIGHT_VALUE * popcount(pp.knights.0) + BISHOP_VALUE * popcount(
        pp.bishops.0,
    ) + ROOK_VALUE * popcount(pp.rooks.0) + QUEEN_VALUE * popcount(pp.queens.0)
}

fn side_material(pp: &PlayerPieces) -> (r: i64)
    ensures
        r == spec_side_material(*pp),
        0 <= r <= 1344,
{
    proof {
        lemma_count_bits_upto_le(pp.pawns.0, 64);
        lemma_count_bits_upto_le(pp.knights.0, 64);
        lemma_count_bits_upto_le(pp.bishops.0, 64);
        lemma_count_bits_upto_le(pp.rooks.0, 64);
        lemma_count_bits_upto_le(pp.queens.0, 64);
    }
    pp.pawns.size() as i64 + KNIGHT_VALUE * (pp.knights.size() as i64) + BISHOP_VALUE * (
    pp.bishops.size() as i64) + ROOK_VALUE * (pp.rooks.size() as i64) + QUEEN_VALUE * (
    pp.queens.size() as i64)
}

fn masked_count(b: u64, mask: u64) -> (r: i64)
    ensures
        r == popcount(b & mask),
        0 <= r <= 64,
{
    proof {
        lemma_count_bits_upto_le(b & mask, 64);
    }
    BitBoard(b & mask).size() as i64
}

/// The square of the lowest set bit at or above position `i`.
pub open spec fn spec_first_square_from(b: u64, i: int) -> Option<Square>
    decreases 64 - i,
    when 0 <= i <= 64
{
    if i >= 64 {
        None
    } else if bit64(b, i as u64) {
        Some(spec_square_of(i))
    } else {
        spec_first_square_from(b, i + 1)
    }
}

/// The first square of a set in ascending bit order, or `None` for the empty
/// set.
pub fn first_square(b: u64) -> (r: Option<Square>)
    ensures
        r == spec_first_square_from(b, 0),
        r is Some ==> r->Some_0.wf(),
{
    let mut i: u64 = 0;
    while i < 64
        invariant
            0 <= i <= 64,
            spec_first_square_from(b, 0) == spec_first_square_from(b, i as int),
        decreases 64 - i,
    {
        if (b >> i) & 1 == 1 {
            return Some(Square::from_bit_position(i as u8));
        }
        i = i + 1;
    }
    None
}

/// The flat activity constant of the kind that literally occupies a side's
/// King square.
pub open spec fn spec_mobility_score(piece: Piece) -> int {
    match piece {
        Piece::Queen => 10,
        Piece::Rook => 8,
        Piece::Bishop => 6,
        Piece::King => 5,
        Piece::Knight => 4,
        Piece::Pawn => -10,
    }
}

/// One side's activity term: the constant of whatever kind stands on the
/// side's first King square, or 0 when the side has no King at all.
pub open spec fn spec_activity(pp: PlayerPieces) -> int {
    match spec_first_square_from(pp.kings.0, 0) {
        None => 0,
        Some(sq) => match pp.spec_piece_at(sq) {
            None => 0,
            Some(piece) => spec_mobility_score(piece),
        },
    }
}

fn activity(pp: &PlayerPieces) -> (r: i64)
    ensures
        r == spec_activity(*pp),
        -10 <= r <= 10,
{
    match first_square(pp.kings.0) {
        None => 0,
        Some(sq) => match pp.piece_at(sq) {
            None => 0,
            Some(piece) => match piece {
                Piece::Queen => 10,
                Piece::Rook => 8,
                Piece::Bishop => 6,
                Piece::King => 5,
                Piece::Knight => 4,
                Piece::Pawn => -10,
            },
        },
    }
}

/// The positional term: per kind, the matches of the virtual reach sets —
/// literal squares for Kings — against that kind's mask, White minus Black,
/// weighted, plus the activity constants of the squares the Kings stand on.
pub open spec fn spec_happiness(pos: Position) -> int {
    let virt = spec_virtual(pos);
    1 * (popcount(virt.white.pawns.0 & PAWN_MASK) - popcount(
        virt.black.pawns.0 & spec_byte_swap(PAWN_MASK),
    )) + 2 * (popcount(virt.white.knights.0 & KNIGHT_MASK) - popcount(
        virt.black.knights.0 & spec_byte_swap(KNIGHT_MASK),
    )) + 2 * (popcount(virt.white.bishops.0 & BISHOP_MASK) - popcount(
        virt.black.bishops.0 & spec_byte_swap(BISHOP_MASK),
    )) + 5 * (popcount(virt.white.rooks.0 & ROOK_MASK) - popcount(
        virt.black.rooks.0 & spec_byte_swap(ROOK_MASK),
    )) + 5 * (popcount(virt.white.queens.0 & QUEEN_MASK) - popcount(
        virt.black.queens.0 & spec_byte_swap(QUEEN_MASK),
    )) + 20 * (popcount(pos.white.kings.0 & KING_MASK) - popcount(
        pos.black.kings.0 & spec_byte_swap(KING_MASK),
    )) + spec_activity(pos.white) - spec_activity(pos.black)
}

/// The score of `pos` for its side to move. A mover without exactly one King
/// scores `SCORE_MIN` and an opponent without exactly one King scores
/// `SCORE_MAX`, whatever the material; otherwise literal material dominates,
/// virtual-reach material breaks its ties, and the positional term breaks
/// those.
pub open spec fn spec_evaluate(pos: Position) -> int {
    if popcount(pos.spec_player(pos.turn).kings.0) != 1 {
        SCORE_MIN as int
    } else if popcount(pos.spec_player(pos.turn.spec_other()).kings.0) != 1 {
        SCORE_MAX as int
    } else {
        let sign: int = match pos.turn {
            Color::White => 1,
            Color::Black => -1,
        };
        let material = spec_side_material(pos.white) - spec_side_material(pos.black);
        let virt = spec_virtual(pos);
        let virtual_material = spec_side_material(virt.white) - spec_side_material(virt.black);
        sign * (material * 10000 + virtual_material * 1000 + spec_happiness(pos) * 100)
    }
}

/// Every score stays within the sentinels, so a score can always be negated.
pub proof fn lemma_evaluate_bounded(pos: Position)
    ensures
        SCORE_MIN <= spec_evaluate(pos) <= SCORE_MAX,
{
    lemma_count_bits_upto_le(spec_virtual(pos).white.pawns.0 & PAWN_MASK, 64);
    lemma_count_bits_upto_le(spec_virtual(pos).black.pawns.0 & spec_byte_swap(PAWN_MASK), 64);
    lemma_count_bits_upto_le(spec_virtual(pos).white.knights.0 & KNIGHT_MASK, 64);
    lemma_count_bits_upto_le(spec_virtual(pos).black.knights.0 & spec_byte_swap(KNIGHT_MASK), 64);
    lemma_count_bits_upto_le(spec_virtual(pos).white.bishops.0 & BISHOP_MASK, 64);
    lemma_count_bits_upto_le(spec_virtual(pos).black.bishops.0 & spec_byte_swap(BISHOP_MASK), 64);
    lemma_count_bits_upto_le(spec_virtual(pos).white.rooks.0 & ROOK_MASK, 64);
    lemma_count_bits_upto_le(spec_virtual(pos).black.rooks.0 & spec_byte_swap(ROOK_MASK), 64);
    lemma_count_bits_upto_le(spec_virtual(pos).white.queens.0 & QUEEN_MASK, 64);
    lemma_count_bits_upto_le(spec_virtual(pos).black.queens.0 & spec_byte_swap(QUEEN_MASK), 64);
    lemma_count_bits_upto_le(pos.white.kings.0 & KING_MASK, 64);
    lemma_count_bits_upto_le(pos.black.kings.0 & spec_byte_swap(KING_MASK), 64);
    lemma_count_bits_upto_le(pos.white.pawns.0, 64);
    lemma_count_bits_upto_le(pos.white.knights.0, 64);
    lemma_count_bits_upto_le(pos.white.bishops.0, 64);
    lemma_count_bits_upto_le(pos.white.rooks.0, 64);
    lemma_count_bits_upto_le(pos.white.queens.0, 64);
    lemma_count_bits_upto_le(pos.black.pawns.0, 64);
    lemma_count_bits_upto_le(pos.black.knights.0, 64);
    lemma_count_bits_upto_le(pos.black.bishops.0, 64);
    lemma_count_bits_upto_le(pos.black.rooks.0, 64);
    lemma_count_bits_upto_le(pos.black.queens.0, 64);
    lemma_count_bits_upto_le(spec_virtual(pos).white.pawns.0, 64);
    lemma_count_bits_upto_le(spec_virtual(pos).white.knights.0, 64);
    lemma_count_bits_upto_le(spec_virtual(pos).white.bishops.0, 64);
    lemma_count_bits_upto_le(spec_virtual(pos).white.rooks.0, 64);
    lemma_count_bits_upto_le(spec_virtual(pos).white.queens.0, 64);
    lemma_count_bits_upto_le(spec_virtual(pos).black.pawns.0, 64);
    lemma_count_bits_upto_le(spec_virtual(pos).black.knights.0, 64);
    lemma_count_bits_upto_le(spec_virtual(pos).black.bishops.0, 64);
    lemma_count_bits_upto_le(spec_virtual(pos).black.rooks.0, 64);
    lemma_count_bits_upto_le(spec_virtual(pos).black.queens.0, 64);
    assert(-10 <= spec_activity(pos.white) <= 10 && -10 <= spec_activity(pos.black) <= 10);
    if popcount(pos.spec_player(pos.turn).kings.0) == 1 && popcount(
        pos.spec_player(pos.turn.spec_other()).kings.0,
    ) == 1 {
        let material = spec_side_material(pos.white) - spec_side_material(pos.black);
        let virt = spec_virtual(pos);
        let virtual_material = spec_side_material(virt.white) - spec_side_material(virt.black);
        assert(-1344 <= material <= 1344 && -1344 <= virtual_material <= 1344);
        assert(-2260 <= spec_happiness(pos) <= 2260);
        let inner = material * 10000 + virtual_material * 1000 + spec_happiness(pos) * 100;
        assert(-15010000 <= inner <= 15010000);
        match pos.turn {
            Color::White => {
                assert(spec_evaluate(pos) == 1 * inner);
            },
            Color::Black => {
                assert(spec_evaluate(pos) == -1 * inner);
            },
        }
    }
}

/// Scores `pos` for its side to move.
pub fn evaluate(pos: &Position) -> (r: i64)
    ensures
        r == spec_evaluate(*pos),
        SCORE_MIN <= r <= SCORE_MAX,
{
    proof {
        lemma_evaluate_bounded(*pos);
    }
    if pos.player(pos.turn).kings.size() != 1 {
        return SCORE_MIN;
    }
    if pos.player(pos.turn.other()).kings.size() != 1 {
        return SCORE_MAX;
    }
    let sign: i64 = match pos.turn {
        Color::White => 1,
        Color::Black => -1,
    };
    let material = side_material(&pos.white) - side_material(&pos.black);
    let virt = pos.to_virtual_position();
    let virtual_material = side_material(&virt.white) - side_material(&virt.black);
    let happiness = 1 * (masked_count(virt.white.pawns.0, PAWN_MASK) - masked_count(
        virt.black.pawns.0,
        byte_swap(PAWN_MASK),
    )) + 2 * (masked_count(virt.white.knights.0, KNIGHT_MASK) - masked_count(
        virt.black.knights.0,
        byte_swap(KNIGHT_MASK),
    )) + 2 * (masked_count(virt.white.bishops.0, BISHOP_MASK) - masked_count(
        virt.black.bishops.0,
        byte_swap(BISHOP_MASK),
    )) + 5 * (masked_count(virt.white.rooks.0, ROOK_MASK) - masked_count(
        virt.black.rooks.0,
        byte_swap(ROOK_MASK),
    )) + 5 * (masked_count(virt.white.queens.0, QUEEN_MASK) - masked_count(
        virt.black.queens.0,
        byte_swap(QUEEN_MASK),
    )) + 20 * (masked_count(pos.white.kings.0, KING_MASK) - masked_count(
        pos.black.kings.0,
        byte_swap(KING_MASK),
    )) + activity(&pos.white) - activity(&pos.black);
    sign * (material * 10000 + virtual_material * 1000 + happiness * 100)
}

/// A side to move without exactly one King scores the forced-loss sentinel,
/// whatever either side's material is.
pub proof fn lemma_missing_king_is_loss(pos: Position)
    requires
        popcount(pos.spec_player(pos.turn).kings.0) != 1,
    ensures
        spec_evaluate(pos) == SCORE_MIN as int,
{
}

/// An opponent without exactly one King scores the forced-win sentinel,
/// whatever either side's material is.
pub proof fn lemma_missing_opponent_king_is_win(pos: Position)
    requires
        popcount(pos.spec_player(pos.turn).kings.0) == 1,
        popcount(pos.spec_player(pos.turn.spec_other()).kings.0) != 1,
    ensures
        spec_evaluate(pos) == SCORE_MAX as int,
{
}

} // verus!
