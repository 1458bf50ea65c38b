//! Position model: piece kinds, sides, one side's piece sets, and the full
//! position, together with the rank-scan "virtual reach" transform that move
//! generation and evaluation are driven by.
use vstd::prelude::*;

use crate::board::BitBoard;
use crate::board::Square;
use crate::board::SquareDiff;
use crate::board::bit64;
use crate::board::spec_offset_and_mask;

verus! {

#[derive(Clone, Copy, Debug, PartialEq, Eq, Structural)]
pub enum Piece {
    Pawn,
    Knight,
    Bishop,
    Rook,
    Queen,
    King,
}

#[derive(Clone, Copy, Debug, PartialEq, Eq, Structural)]
pub enum Color {
    White,
    Black,
}

impl Color {
    /// The side that is not this one.
    pub open spec fn spec_other(self) -> Color {
        match self {
            Color::White => Color::Black,
            Color::Black => Color::White,
        }
    }

    pub fn other(self) -> (r: Color)
        ensures
            r == self.spec_other(),
    {
        match self {
            Color::White => Color::Black,
            Color::Black => Color::White,
        }
    }
}

/// Six occupancy sets, one per piece kind, for one side.
///
/// A position is normally expected to hold a square in at most one of the six
/// sets; `kinds_disjoint` states that. No operation here rejects a value that
/// breaks it.
#[derive(Clone, Copy, Debug, PartialEq, Eq, Structural)]
pub struct PlayerPieces {
    pub pawns: BitBoard,
    pub knights: BitBoard,
    pub bishops: BitBoard,
    pub rooks: BitBoard,
    pub queens: BitBoard,
    pub kings: BitBoard,
}

impl PlayerPieces {
    pub open spec fn spec_pieces(self, kind: Piece) -> BitBoard {
        match kind {
            Piece::Pawn => self.pawns,
            Piece::Knight => self.knights,
            Piece::Bishop => self.bishops,
            Piece::Rook => self.rooks,
            Piece::Queen => self.queens,
            Piece::King => self.kings,
        }
    }

    /// The union of the six sets.
    pub open spec fn spec_all(self) -> u64 {
        self.pawns.0 | self.knights.0 | self.bishops.0 | self.rooks.0 | self.queens.0
            | self.kings.0
    }

    /// The kind this side holds at `square`, scanning the six sets in a fixed
    /// order, so that when several sets hold the square the first one wins.
    pub open spec fn spec_piece_at(self, square: Square) -> Option<Piece> {
        if self.pawns.spec_has(square) {
            Some(Piece::Pawn)
        } else if self.knights.spec_has(square) {
            Some(Piece::Knight)
        } else if self.bishops.spec_has(square) {
            Some(Piece::Bishop)
        } else if self.rooks.spec_has(square) {
            Some(Piece::Rook)
        } else if self.queens.spec_has(square) {
            Some(Piece::Queen)
        } else if self.kings.spec_has(square) {
            Some(Piece::King)
        } else {
            None
        }
    }

    /// No square is held as two kinds at once.
    pub open spec fn kinds_disjoint(self) -> bool {
        &&& self.pawns.0 & self.knights.0 == 0
        &&& self.pawns.0 & self.bishops.0 == 0
        &&& self.pawns.0 & self.rooks.0 == 0
        &&& self.pawns.0 & self.queens.0 == 0
        &&& self.pawns.0 & self.kings.0 == 0
        &&& self.knights.0 & self.bishops.0 == 0
        &&& self.knights.0 & self.rooks.0 == 0
        &&& self.knights.0 & self.queens.0 == 0
        &&& self.knights.0 & self.kings.0 == 0
        &&& self.bishops.0 & self.rooks.0 == 0
        &&& self.bishops.0 & self.queens.0 == 0
        &&& self.bishops.0 & self.kings.0 == 0
        &&& self.rooks.0 & self.queens.0 == 0
        &&& self.rooks.0 & self.kings.0 == 0
        &&& self.queens.0 & self.kings.0 == 0
    }

    /// The side with no pieces at all.
    pub open spec fn spec_empty() -> PlayerPieces {
        PlayerPieces {
            pawns: BitBoard(0),
            knights: BitBoard(0),
            bishops: BitBoard(0),
            rooks: BitBoard(0),
            queens: BitBoard(0),
            kings: BitBoard(0),
        }
    }

    pub fn empty() -> (r: PlayerPieces)
        ensures
            r == PlayerPieces::spec_empty(),
    {
        PlayerPieces {
            pawns: BitBoard(0),
            knights: BitBoard(0),
            bishops: BitBoard(0),
            rooks: BitBoard(0),
            queens: BitBoard(0),
            kings: BitBoard(0),
        }
    }

    pub fn piece_at(&self, square: Square) -> (r: Option<Piece>)
        requires
            square.wf(),
        ensures
            r == self.spec_piece_at(square),
    {
        if self.pawns.has(square) {
            return Some(Piece::Pawn);
        }
        if self.knights.has(square) {
            return Some(Piece::Knight);
        }
        if self.bishops.has(square) {
            return Some(Piece::Bishop);
        }
        if self.rooks.has(square) {
            return Some(Piece::Rook);
        }
        if self.queens.has(square) {
            return Some(Piece::Queen);
        }
        if self.kings.has(square) {
            return Some(Piece::King);
        }
        None
    }

    pub fn pieces(&self, kind: Piece) -> (r: BitBoard)
        ensures
            r == self.spec_pieces(kind),
    {
        match kind {
            Piece::Pawn => self.pawns,
            Piece::Knight => self.knights,
            Piece::Bishop => self.bishops,
            Piece::Rook => self.rooks,
            Piece::Queen => self.queens,
            Piece::King => self.kings,
        }
    }

    /// Replaces the occupancy set of one kind; the mutation counterpart of
    /// `pieces`.
    pub fn set_pieces(&mut self, kind: Piece, board: BitBoard)
        ensures
            *final(self) == old(self).spec_with_pieces(kind, board),
    {
        match kind {
            Piece::Pawn => self.pawns = board,
            Piece::Knight => self.knights = board,
            Piece::Bishop => self.bishops = board,
            Piece::Rook => self.rooks = board,
            Piece::Queen => self.queens = board,
            Piece::King => self.kings = board,
        }
    }

    pub open spec fn spec_with_pieces(self, kind: Piece, board: BitBoard) -> PlayerPieces {
        match kind {
            Piece::Pawn => PlayerPieces { pawns: board, ..self },
            Piece::Knight => PlayerPieces { knights: board, ..self },
            Piece::Bishop => PlayerPieces { bishops: board, ..self },
            Piece::Rook => PlayerPieces { rooks: board, ..self },
            Piece::Queen => PlayerPieces { queens: board, ..self },
            Piece::King => PlayerPieces { kings: board, ..self },
        }
    }

    pub fn all(&self) -> (r: BitBoard)
        ensures
            r.0 == self.spec_all(),
    {
        BitBoard(
            self.pawns.0 | self.knights.0 | self.bishops.0 | self.rooks.0 | self.queens.0
                | self.kings.0,
        )
    }
}

/// A full position: both sides' piece sets and the side to move.
#[derive(Clone, Copy, Debug, PartialEq, Eq, Structural)]
pub struct Position {
    pub white: PlayerPieces,
    pub black: PlayerPieces,
    pub turn: Color,
}

impl Position {
    pub open spec fn spec_player(self, color: Color) -> PlayerPieces {
        match color {
            Color::White => self.white,
            Color::Black => self.black,
        }
    }

    /// Every occupied square, over both sides.
    pub open spec fn spec_occupied(self) -> u64 {
        self.white.spec_all() | self.black.spec_all()
    }

    /// The position with no pieces, White to move.
    pub open spec fn spec_empty() -> Position {
        Position {
            white: PlayerPieces::spec_empty(),
            black: PlayerPieces::spec_empty(),
            turn: Color::White,
        }
    }

    pub fn empty() -> (r: Position)
        ensures
            r == Position::spec_empty(),
    {
        Position { white: PlayerPieces::empty(), black: PlayerPieces::empty(), turn: Color::White }
    }

    pub fn all(&self) -> (r: BitBoard)
        ensures
            r.0 == self.spec_occupied(),
    {
        BitBoard(self.white.all().0 | self.black.all().0)
    }

    pub fn player(&self, color: Color) -> (r: &PlayerPieces)
        ensures
            *r == self.spec_player(color),
    {
        match color {
            Color::Black => &self.black,
            Color::White => &self.white,
        }
    }

    /// Replaces one side's piece sets; the mutation counterpart of `player`.
    pub fn set_player(&mut self, color: Color, pieces: PlayerPieces)
        ensures
            *final(self) == old(self).spec_with_player(color, pieces),
    {
        match color {
            Color::Black => self.black = pieces,
            Color::White => self.white = pieces,
        }
    }

    pub open spec fn spec_with_player(self, color: Color, pieces: PlayerPieces) -> Position {
        match color {
            Color::White => Position { white: pieces, ..self },
            Color::Black => Position { black: pieces, ..self },
        }
    }

    /// Both sides hold each square as at most one kind.
    pub open spec fn kinds_disjoint(self) -> bool {
        self.white.kinds_disjoint() && self.black.kinds_disjoint()
    }

    /// Derives the virtual position: per piece kind, the union of that kind's
    /// squares over both sides is scanned around each rank — towards higher
    /// files for White's reach, towards lower files for Black's — and every
    /// scanned square resolves to the first occupied square it meets going
    /// around its rank; the landing square is recorded for a side exactly
    /// when that side actually occupies it. The result's sets hold these
    /// derived reach squares, not literal piece locations, and its side to
    /// move is always White.
    pub fn to_virtual_position(&self) -> (r: Position)
        ensures
            r == spec_virtual(*self),
    {
        let white_pieces = self.white.all().0;
        let black_pieces = self.black.all().0;
        let all_pieces = white_pieces | black_pieces;

        let mut result = Position::empty();
        result.white.pawns = BitBoard(
            reach_set(self.white.pawns.0 | self.black.pawns.0, white_pieces, all_pieces, true),
        );
        result.white.knights = BitBoard(
            reach_set(self.white.knights.0 | self.black.knights.0, white_pieces, all_pieces, true),
        );
        result.white.bishops = BitBoard(
            reach_set(self.white.bishops.0 | self.black.bishops.0, white_pieces, all_pieces, true),
        );
        result.white.rooks = BitBoard(
            reach_set(self.white.rooks.0 | self.black.rooks.0, white_pieces, all_pieces, true),
        );
        result.white.queens = BitBoard(
            reach_set(self.white.queens.0 | self.black.queens.0, white_pieces, all_pieces, true),
        );
        result.white.kings = BitBoard(
            reach_set(self.white.kings.0 | self.black.kings.0, white_pieces, all_pieces, true),
        );
        result.black.pawns = BitBoard(
            reach_set(self.white.pawns.0 | self.black.pawns.0, black_pieces, all_pieces, false),
        );
        result.black.knights = BitBoard(
            reach_set(self.white.knights.0 | self.black.knights.0, black_pieces, all_pieces, false),
        );
        result.black.bishops = BitBoard(
            reach_set(self.white.bishops.0 | self.black.bishops.0, black_pieces, all_pieces, false),
        );
        result.black.rooks = BitBoard(
            reach_set(self.white.rooks.0 | self.black.rooks.0, black_pieces, all_pieces, false),
        );
        result.black.queens = BitBoard(
            reach_set(self.white.queens.0 | self.black.queens.0, black_pieces, all_pieces, false),
        );
        result.black.kings = BitBoard(
            reach_set(self.white.kings.0 | self.black.kings.0, black_pieces, all_pieces, false),
        );
        result
    }
}

/// One circular step of a whole occupancy set towards higher files: each rank
/// rotates independently, the last file wrapping to the first.
pub open spec fn rot_up(b: u64) -> u64 {
    ((b & 0x7f7f7f7f7f7f7f7fu64) << 1u64) | ((b & 0x8080808080808080u64) >> 7u64)
}

/// One circular step towards lower files, the first file wrapping to the
/// last.
pub open spec fn rot_down(b: u64) -> u64 {
    ((b & 0xfefefefefefefefeu64) >> 1u64) | ((b & 0x0101010101010101u64) << 7u64)
}

/// `n` remaining scan steps of the reach transform: the working set rotates
/// one file, bits that land on a square the accumulating side occupies are
/// recorded, and bits that land on any occupied square stop propagating.
pub open spec fn reach_n(work: u64, acc: u64, side_all: u64, all: u64, up: bool, n: nat) -> u64
    decreases n,
{
    if n == 0 {
        acc
    } else {
        let w = if up {
            rot_up(work)
        } else {
            rot_down(work)
        };
        reach_n(w & !all, acc | (w & side_all), side_all, all, up, (n - 1) as nat)
    }
}

/// The reach set accumulated for one side from the union `union` of one
/// kind's squares: eight scan steps, one per file of a rank.
pub open spec fn spec_reach(union: u64, side_all: u64, all: u64, up: bool) -> u64 {
    reach_n(union, 0, side_all, all, up, 8)
}

/// The whole virtual position derived from `pos`.
pub open spec fn spec_virtual(pos: Position) -> Position {
    let white_pieces = pos.white.spec_all();
    let black_pieces = pos.black.spec_all();
    let all_pieces = white_pieces | black_pieces;
    Position {
        white: PlayerPieces {
            pawns: BitBoard(
                spec_reach(pos.white.pawns.0 | pos.black.pawns.0, white_pieces, all_pieces, true),
            ),
            knights: BitBoard(
                spec_reach(
                    pos.white.knights.0 | pos.black.knights.0,
                    white_pieces,
                    all_pieces,
                    true,
                ),
            ),
            bishops: BitBoard(
                spec_reach(
                    pos.white.bishops.0 | pos.black.bishops.0,
                    white_pieces,
                    all_pieces,
                    true,
                ),
            ),
            rooks: BitBoard(
                spec_reach(pos.white.rooks.0 | pos.black.rooks.0, white_pieces, all_pieces, true),
            ),
            queens: BitBoard(
                spec_reach(pos.white.queens.0 | pos.black.queens.0, white_pieces, all_pieces, true),
            ),
            kings: BitBoard(
                spec_reach(pos.white.kings.0 | pos.black.kings.0, white_pieces, all_pieces, true),
            ),
        },
        black: PlayerPieces {
            pawns: BitBoard(
                spec_reach(pos.white.pawns.0 | pos.black.pawns.0, black_pieces, all_pieces, false),
            ),
            knights: BitBoard(
                spec_reach(
                    pos.white.knights.0 | pos.black.knights.0,
                    black_pieces,
                    all_pieces,
                    false,
                ),
            ),
            bishops: BitBoard(
                spec_reach(
                    pos.white.bishops.0 | pos.black.bishops.0,
                    black_pieces,
                    all_pieces,
                    false,
                ),
            ),
            rooks: BitBoard(
                spec_reach(pos.white.rooks.0 | pos.black.rooks.0, black_pieces, all_pieces, false),
            ),
            queens: BitBoard(
                spec_reach(
                    pos.white.queens.0 | pos.black.queens.0,
                    black_pieces,
                    all_pieces,
                    false,
                ),
            ),
            kings: BitBoard(
                spec_reach(pos.white.kings.0 | pos.black.kings.0, black_pieces, all_pieces, false),
            ),
        },
        turn: Color::White,
    }
}

/// One circular file rotation of the whole set, by `1` file when `up` and by
/// `-1` when not. The masks and shifts are the ones
/// `SquareDiff::to_bit_offset_and_mask` yields for the file offsets `1` and
/// `-7`, respectively `7` and `-1`; `lemma_rotation_offsets_and_masks` states
/// that correspondence.
fn rotate_file(b: u64, up: bool) -> (r: u64)
    ensures
        r == if up {
            rot_up(b)
        } else {
            rot_down(b)
        },
{
    if up {
        ((b & 0x7f7f7f7f7f7f7f7fu64) << 1u64) | ((b & 0x8080808080808080u64) >> 7u64)
    } else {
        ((b & 0xfefefefefefefefeu64) >> 1u64) | ((b & 0x0101010101010101u64) << 7u64)
    }
}

/// The rotations above use exactly the shift amounts and validity masks that
/// the board primitive computes for the circular file offsets `1` and `-1`:
/// the `+1` rotation shifts the mask for offset `1` left by one and the mask
/// for offset `-7` right by seven, and the `-1` rotation shifts the mask for
/// offset `-1` right by one and the mask for offset `7` left by seven.
pub proof fn lemma_rotation_offsets_and_masks(b: u64)
    ensures
        spec_offset_and_mask(0i8, 1i8) == (1i8, 0x7f7f7f7f7f7f7f7fu64),
        spec_offset_and_mask(0i8, -7i8) == (-7i8, 0x8080808080808080u64),
        spec_offset_and_mask(0i8, -1i8) == (-1i8, 0xfefefefefefefefeu64),
        spec_offset_and_mask(0i8, 7i8) == (7i8, 0x0101010101010101u64),
        rot_up(b) == ((b & spec_offset_and_mask(0i8, 1i8).1) << 1u64) | ((b & spec_offset_and_mask(
            0,
            -7i8,
        ).1) >> 7u64),
        rot_down(b) == ((b & spec_offset_and_mask(0i8, -1i8).1) >> 1u64) | ((b & spec_offset_and_mask(
            0,
            7i8,
        ).1) << 7u64),
{
    assert(u64::MAX >> 0u64 == u64::MAX) by (bit_vector);
    assert(crate::board::spec_bit_range(0, 7) == 0x7fu64 && crate::board::spec_bit_range(7, 8)
        == 0x80u64 && crate::board::spec_bit_range(1, 8) == 0xfeu64 && crate::board::spec_bit_range(
        0,
        1,
    ) == 0x01u64) by (bit_vector);
    assert(0x7fu64 << 56u64 | 0x7fu64 << 48u64 | 0x7fu64 << 40u64 | 0x7fu64 << 32u64 | 0x7fu64
        << 24u64 | 0x7fu64 << 16u64 | 0x7fu64 << 8u64 | 0x7fu64 == 0x7f7f7f7f7f7f7f7fu64 && u64::MAX
        & 0x7f7f7f7f7f7f7f7fu64 == 0x7f7f7f7f7f7f7f7fu64) by (bit_vector);
    assert(0x80u64 << 56u64 | 0x80u64 << 48u64 | 0x80u64 << 40u64 | 0x80u64 << 32u64 | 0x80u64
        << 24u64 | 0x80u64 << 16u64 | 0x80u64 << 8u64 | 0x80u64 == 0x8080808080808080u64 && u64::MAX
        & 0x8080808080808080u64 == 0x8080808080808080u64) by (bit_vector);
    assert(0xfeu64 << 56u64 | 0xfeu64 << 48u64 | 0xfeu64 << 40u64 | 0xfeu64 << 32u64 | 0xfeu64
        << 24u64 | 0xfeu64 << 16u64 | 0xfeu64 << 8u64 | 0xfeu64 == 0xfefefefefefefefeu64 && u64::MAX
        & 0xfefefefefefefefeu64 == 0xfefefefefefefefeu64) by (bit_vector);
    assert(0x01u64 << 56u64 | 0x01u64 << 48u64 | 0x01u64 << 40u64 | 0x01u64 << 32u64 | 0x01u64
        << 24u64 | 0x01u64 << 16u64 | 0x01u64 << 8u64 | 0x01u64 == 0x0101010101010101u64 && u64::MAX
        & 0x0101010101010101u64 == 0x0101010101010101u64) by (bit_vector);
}

/// The reach set for one side and one kind union, by eight scan steps.
fn reach_set(union: u64, side_all: u64, all: u64, up: bool) -> (r: u64)
    ensures
        r == spec_reach(union, side_all, all, up),
{
    let mut work: u64 = union;
    let mut acc: u64 = 0;
    let mut n: u64 = 0;
    while n < 8
        invariant
            0 <= n <= 8,
            spec_reach(union, side_all, all, up) == reach_n(
                work,
                acc,
                side_all,
                all,
                up,
                (8 - n) as nat,
            ),
        decreases 8 - n,
    {
        let w = rotate_file(work, up);
        acc = acc | (w & side_all);
        work = w & !all;
        n = n + 1;
    }
    acc
}


proof fn lemma_reach_n_dead(acc: u64, side_all: u64, all: u64, up: bool, n: nat)
    ensures
        reach_n(0, acc, side_all, all, up, n) == acc,
    decreases n,
{
    if n > 0 {
        assert(rot_up(0u64) == 0u64 && rot_down(0u64) == 0u64) by (bit_vector);
        assert(0u64 & !all == 0u64 && acc | (0u64 & side_all) == acc) by (bit_vector);
        lemma_reach_n_dead(acc | (0u64 & side_all), side_all, all, up, (n - 1) as nat);
    }
}

proof fn lemma_reach_full_rank(side_all: u64, all: u64, r: u64, up: bool)
    requires
        r < 8,
        (0xffu64 << ((8 * r) as u64)) & side_all == 0xffu64 << ((8 * r) as u64),
        side_all | all == all,
    ensures
        spec_reach(0xffu64 << ((8 * r) as u64), side_all, all, up) == 0xffu64 << ((8 * r) as u64),
{
    let u = 0xffu64 << ((8 * r) as u64);
    assert(rot_up(u) == u && rot_down(u) == u) by (bit_vector)
        requires
            r < 8,
            u == 0xffu64 << ((8 * r) as u64),
    ;
    assert(u & !all == 0u64) by (bit_vector)
        requires
            u & side_all == u,
            side_all | all == all,
    ;
    assert(0u64 | (u & side_all) == u) by (bit_vector)
        requires
            u & side_all == u,
    ;
    lemma_reach_n_dead(u, side_all, all, up, 7);
    assert(reach_n(u, 0, side_all, all, up, 8) == reach_n(
        u & !all,
        0u64 | (u & side_all),
        side_all,
        all,
        up,
        7,
    ));
}

/// When one rank's 8 squares all hold the accumulating side's pieces of one
/// kind, and no other square anywhere holds that kind, that side's virtual
/// reach set for the kind is exactly that rank: each square's scan lands at
/// once on the next piece of the same set, going around the rank.
pub proof fn lemma_full_rank_reach(pos: Position, kind: Piece, side: Color, r: u64)
    requires
        r < 8,
        pos.white.spec_pieces(kind).0 | pos.black.spec_pieces(kind).0 == 0xffu64 << ((8 * r) as u64),
        (0xffu64 << ((8 * r) as u64)) & pos.spec_player(side).spec_all() == 0xffu64 << ((8
            * r) as u64),
    ensures
        spec_virtual(pos).spec_player(side).spec_pieces(kind).0 == 0xffu64 << ((8 * r) as u64),
{
    let white_pieces = pos.white.spec_all();
    let black_pieces = pos.black.spec_all();
    let all = white_pieces | black_pieces;
    assert(forall|a: u64, b: u64| a | (a | b) == (a | b) && b | (a | b) == (a | b)) by (bit_vector);
    match side {
        Color::White => {
            lemma_reach_full_rank(white_pieces, all, r, true);
        },
        Color::Black => {
            lemma_reach_full_rank(black_pieces, all, r, false);
        },
    }
}

} // verus!
