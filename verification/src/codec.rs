//! The board text format: 8 newline-terminated rows, top rank first, `.` for
//! an empty square, the letters `PNBRQK` for White's pieces and `pnbrqk` for
//! Black's. `parse` reads it; `format_board` writes it back.
use vstd::prelude::*;

use crate::board::BitBoard;
use crate::board::Square;
use crate::board::bit64;
use crate::position::Color;
use crate::position::Piece;
use crate::position::PlayerPieces;
use crate::position::Position;

verus! {

/// The side and kind a board-text byte stands for, or `None` for a byte that
/// is neither a piece letter, `.`, nor a row break.
pub open spec fn spec_glyph_side_kind(c: u8) -> Option<(Color, Piece)> {
    if c == 'p' as u8 {
        Some((Color::Black, Piece::Pawn))
    } else if c == 'n' as u8 {
        Some((Color::Black, Piece::Knight))
    } else if c == 'b' as u8 {
        Some((Color::Black, Piece::Bishop))
    } else if c == 'r' as u8 {
        Some((Color::Black, Piece::Rook))
    } else if c == 'q' as u8 {
        Some((Color::Black, Piece::Queen))
    } else if c == 'k' as u8 {
        Some((Color::Black, Piece::King))
    } else if c == 'P' as u8 {
        Some((Color::White, Piece::Pawn))
    } else if c == 'N' as u8 {
        Some((Color::White, Piece::Knight))
    } else if c == 'B' as u8 {
        Some((Color::White, Piece::Bishop))
    } else if c == 'R' as u8 {
        Some((Color::White, Piece::Rook))
    } else if c == 'Q' as u8 {
        Some((Color::White, Piece::Queen))
    } else if c == 'K' as u8 {
        Some((Color::White, Piece::King))
    } else {
        None
    }
}

/// The letter of one side's piece kind: upper case for White, lower for
/// Black.
pub open spec fn spec_piece_glyph(color: Color, kind: Piece) -> u8 {
    match (color, kind) {
        (Color::White, Piece::Pawn) => 'P' as u8,
        (Color::White, Piece::Knight) => 'N' as u8,
        (Color::White, Piece::Bishop) => 'B' as u8,
        (Color::White, Piece::Rook) => 'R' as u8,
        (Color::White, Piece::Queen) => 'Q' as u8,
        (Color::White, Piece::King) => 'K' as u8,
        (Color::Black, Piece::Pawn) => 'p' as u8,
        (Color::Black, Piece::Knight) => 'n' as u8,
        (Color::Black, Piece::Bishop) => 'b' as u8,
        (Color::Black, Piece::Rook) => 'r' as u8,
        (Color::Black, Piece::Queen) => 'q' as u8,
        (Color::Black, Piece::King) => 'k' as u8,
    }
}

/// `acc` with the square `sq` added to the piece set the byte `c` stands
/// for; `acc` unchanged when `c` stands for no piece.
pub open spec fn spec_apply_glyph(acc: Position, c: u8, sq: Square) -> Position {
    match spec_glyph_side_kind(c) {
        Some((color, kind)) => {
            let pp = acc.spec_player(color);
            let board = BitBoard(pp.spec_pieces(kind).0 | (1u64 << sq.index() as u64));
            acc.spec_with_player(color, pp.spec_with_pieces(kind, board))
        },
        None => acc,
    }
}

/// The state of the text parser after `i` bytes: the next square to fill is
/// (`rank`, `file`) and `acc` holds the placement read so far. A row break
/// moves to the next rank down, ending at the bottom rank; a ninth column
/// fails at the square past the row's end; any unrecognized byte fails at the
/// square it was meant to fill.
pub open spec fn spec_parse_at(t: Seq<u8>, i: int, rank: u8, file: u8, acc: Position) -> Result<
    Position,
    Square,
>
    decreases t.len() - i,
    when 0 <= i <= t.len() && rank < 8 && file <= 8
{
    if i >= t.len() {
        Ok(acc)
    } else {
        let c = t[i];
        if c == '\n' as u8 {
            if rank == 0 {
                Ok(acc)
            } else {
                spec_parse_at(t, i + 1, (rank - 1) as u8, 0, acc)
            }
        } else if file == 8 {
            Err(Square { file: 8, rank })
        } else if c == '.' as u8 {
            spec_parse_at(t, i + 1, rank, (file + 1) as u8, acc)
        } else if spec_glyph_side_kind(c) is Some {
            spec_parse_at(
                t,
                i + 1,
                rank,
                (file + 1) as u8,
                spec_apply_glyph(acc, c, Square { file, rank }),
            )
        } else {
            Err(Square { file, rank })
        }
    }
}

/// What `parse` returns on `t`.
pub open spec fn spec_parse(t: Seq<u8>) -> Result<Position, Square> {
    spec_parse_at(t, 0, 7, 0, Position::spec_empty())
}

fn apply_glyph(acc: &mut Position, c: u8, sq: Square)
    requires
        sq.wf(),
    ensures
        *final(acc) == spec_apply_glyph(*old(acc), c, sq),
{
    let bit: u64 = 1u64 << (sq.to_bit_position() as u64);
    if c == 'p' as u8 {
        acc.black.pawns = BitBoard(acc.black.pawns.0 | bit);
    } else if c == 'n' as u8 {
        acc.black.knights = BitBoard(acc.black.knights.0 | bit);
    } else if c == 'b' as u8 {
        acc.black.bishops = BitBoard(acc.black.bishops.0 | bit);
    } else if c == 'r' as u8 {
        acc.black.rooks = BitBoard(acc.black.rooks.0 | bit);
    } else if c == 'q' as u8 {
        acc.black.queens = BitBoard(acc.black.queens.0 | bit);
    } else if c == 'k' as u8 {
        acc.black.kings = BitBoard(acc.black.kings.0 | bit);
    } else if c == 'P' as u8 {
        acc.white.pawns = BitBoard(acc.white.pawns.0 | bit);
    } else if c == 'N' as u8 {
        acc.white.knights = BitBoard(acc.white.knights.0 | bit);
    } else if c == 'B' as u8 {
        acc.white.bishops = BitBoard(acc.white.bishops.0 | bit);
    } else if c == 'R' as u8 {
        acc.white.rooks = BitBoard(acc.white.rooks.0 | bit);
    } else if c == 'Q' as u8 {
        acc.white.queens = BitBoard(acc.white.queens.0 | bit);
    } else if c == 'K' as u8 {
        acc.white.kings = BitBoard(acc.white.kings.0 | bit);
    }
}

/// Reads a board text into a position, White to move. Fails with the square a
/// byte was meant to fill when the byte is unrecognized, and with the square
/// just past a row's end when a row has more than 8 columns. Rows past the
/// bottom rank are ignored; missing rows or columns stay empty.
pub fn parse(text: &[u8]) -> (r: Result<Position, Square>)
    ensures
        r == spec_parse(text@),
{
    let mut acc = Position::empty();
    let mut rank: u8 = 7;
    let mut file: u8 = 0;
    let mut i: usize = 0;
    while i < text.len()
        invariant
            0 <= i <= text@.len(),
            rank < 8,
            file <= 8,
            spec_parse(text@) == spec_parse_at(text@, i as int, rank, file, acc),
        decreases text@.len() - i,
    {
        let c = text[i];
        if c == '\n' as u8 {
            if rank == 0 {
                return Ok(acc);
            }
            rank = rank - 1;
            file = 0;
        } else if file == 8 {
            return Err(Square { file: 8, rank });
        } else if c == '.' as u8 {
            file = file + 1;
        } else {
            let sq = Square { file, rank };
            let recognized = match glyph_side_kind(c) {
                Some(_) => true,
                None => false,
            };
            if !recognized {
                return Err(Square { file, rank });
            }
            apply_glyph(&mut acc, c, sq);
            file = file + 1;
        }
        i = i + 1;
    }
    Ok(acc)
}

fn glyph_side_kind(c: u8) -> (r: Option<(Color, Piece)>)
    ensures
        r == spec_glyph_side_kind(c),
{
    if c == 'p' as u8 {
        Some((Color::Black, Piece::Pawn))
    } else if c == 'n' as u8 {
        Some((Color::Black, Piece::Knight))
    } else if c == 'b' as u8 {
        Some((Color::Black, Piece::Bishop))
    } else if c == 'r' as u8 {
        Some((Color::Black, Piece::Rook))
    } else if c == 'q' as u8 {
        Some((Color::Black, Piece::Queen))
    } else if c == 'k' as u8 {
        Some((Color::Black, Piece::King))
    } else if c == 'P' as u8 {
        Some((Color::White, Piece::Pawn))
    } else if c == 'N' as u8 {
        Some((Color::White, Piece::Knight))
    } else if c == 'B' as u8 {
        Some((Color::White, Piece::Bishop))
    } else if c == 'R' as u8 {
        Some((Color::White, Piece::Rook))
    } else if c == 'Q' as u8 {
        Some((Color::White, Piece::Queen))
    } else if c == 'K' as u8 {
        Some((Color::White, Piece::King))
    } else {
        None
    }
}

/// The byte shown for one square: White's letter when White holds it, else
/// Black's letter, else `.`.
pub open spec fn spec_glyph_at(p: Position, sq: Square) -> u8 {
    match p.white.spec_piece_at(sq) {
        Some(kind) => spec_piece_glyph(Color::White, kind),
        None => match p.black.spec_piece_at(sq) {
            Some(kind) => spec_piece_glyph(Color::Black, kind),
            None => '.' as u8,
        },
    }
}

/// The first `n` bytes of one formatted row.
pub open spec fn spec_format_row(p: Position, rank: u8, n: int) -> Seq<u8>
    decreases n,
{
    if n <= 0 {
        Seq::empty()
    } else {
        spec_format_row(p, rank, n - 1).push(
            spec_glyph_at(p, Square { file: (n - 1) as u8, rank }),
        )
    }
}

/// The first `n` formatted rows, top rank first, each closed by a row break.
pub open spec fn spec_format_rows(p: Position, n: int) -> Seq<u8>
    decreases n,
    when n <= 8
{
    if n <= 0 {
        Seq::empty()
    } else {
        spec_format_rows(p, n - 1) + spec_format_row(p, (8 - n) as u8, 8).push('\n' as u8)
    }
}

/// What `format_board` returns on `p`.
pub open spec fn spec_format(p: Position) -> Seq<u8> {
    spec_format_rows(p, 8)
}

fn glyph_at(p: &Position, sq: Square) -> (r: u8)
    requires
        sq.wf(),
    ensures
        r == spec_glyph_at(*p, sq),
{
    match p.white.piece_at(sq) {
        Some(kind) => piece_glyph(Color::White, kind),
        None => match p.black.piece_at(sq) {
            Some(kind) => piece_glyph(Color::Black, kind),
            None => '.' as u8,
        },
    }
}

fn piece_glyph(color: Color, kind: Piece) -> (r: u8)
    ensures
        r == spec_piece_glyph(color, kind),
{
    match (color, kind) {
        (Color::White, Piece::Pawn) => 'P' as u8,
        (Color::White, Piece::Knight) => 'N' as u8,
        (Color::White, Piece::Bishop) => 'B' as u8,
        (Color::White, Piece::Rook) => 'R' as u8,
        (Color::White, Piece::Queen) => 'Q' as u8,
        (Color::White, Piece::King) => 'K' as u8,
        (Color::Black, Piece::Pawn) => 'p' as u8,
        (Color::Black, Piece::Knight) => 'n' as u8,
        (Color::Black, Piece::Bishop) => 'b' as u8,
        (Color::Black, Piece::Rook) => 'r' as u8,
        (Color::Black, Piece::Queen) => 'q' as u8,
        (Color::Black, Piece::King) => 'k' as u8,
    }
}

/// Writes the placement of `p` in the board text format: 8 rows of 8 bytes,
/// top rank first, each row closed by a row break. A square both sides claim
/// shows White's piece, as `parse` never produces such a square.
pub fn format_board(p: &Position) -> (r: Vec<u8>)
    ensures
        r@ == spec_format(*p),
{
    let mut out: Vec<u8> = Vec::new();
    let mut k: u8 = 0;
    while k < 8
        invariant
            0 <= k <= 8,
            out@ == spec_format_rows(*p, k as int),
        decreases 8 - k,
    {
        let rank: u8 = 7 - k;
        let mut f: u8 = 0;
        while f < 8
            invariant
                0 <= f <= 8,
                k < 8,
                rank == 7 - k,
                out@ == spec_format_rows(*p, k as int) + spec_format_row(*p, rank, f as int),
            decreases 8 - f,
        {
            let g = glyph_at(p, Square { file: f, rank });
            out.push(g);
            f = f + 1;
        }
        out.push('\n' as u8);
        proof {
            assert(out@ == spec_format_rows(*p, k as int + 1));
        }
        k = k + 1;
    }
    out
}

/// Formatted output, byte by byte: 72 bytes, where byte `9 * (7 - r) + f`
/// shows the square at file `f` of rank `r` and every ninth byte is a row
/// break.
pub proof fn lemma_format_bytes(p: Position)
    ensures
        spec_format(p).len() == 72,
        forall|j: int|
            0 <= j < 72 ==> #[trigger] spec_format(p)[j] == (if j % 9 == 8 {
                '\n' as u8
            } else {
                spec_glyph_at(p, Square { file: (j % 9) as u8, rank: (7 - j / 9) as u8 })
            }),
{
    lemma_format_rows_len(p, 8);
    assert forall|j: int| 0 <= j < 72 implies #[trigger] spec_format(p)[j] == (if j % 9 == 8 {
        '\n' as u8
    } else {
        spec_glyph_at(p, Square { file: (j % 9) as u8, rank: (7 - j / 9) as u8 })
    }) by {
        lemma_format_rows_bytes(p, 8, j / 9, j % 9);
    }
}

proof fn lemma_format_row_bytes(p: Position, rank: u8, n: int)
    requires
        rank < 8,
        0 <= n <= 8,
    ensures
        spec_format_row(p, rank, n).len() == n,
        forall|j: int|
            0 <= j < n ==> spec_format_row(p, rank, n)[j] == spec_glyph_at(
                p,
                Square { file: j as u8, rank },
            ),
    decreases n,
{
    if n > 0 {
        lemma_format_row_bytes(p, rank, n - 1);
    }
}

proof fn lemma_format_rows_len(p: Position, n: int)
    requires
        0 <= n <= 8,
    ensures
        spec_format_rows(p, n).len() == 9 * n,
    decreases n,
{
    if n > 0 {
        lemma_format_rows_len(p, n - 1);
        lemma_format_row_bytes(p, (8 - n) as u8, 8);
    }
}

proof fn lemma_format_rows_bytes(p: Position, n: int, k: int, j: int)
    requires
        0 <= n <= 8,
        0 <= k < n,
        0 <= j < 9,
    ensures
        spec_format_rows(p, n)[9 * k + j] == (if j == 8 {
            '\n' as u8
        } else {
            spec_glyph_at(p, Square { file: j as u8, rank: (7 - k) as u8 })
        }),
    decreases n,
{
    lemma_format_rows_len(p, n - 1);
    lemma_format_row_bytes(p, (8 - n) as u8, 8);
    if k < n - 1 {
        lemma_format_rows_bytes(p, n - 1, k, j);
    }
}

/// In formatted text, the byte of square (`r`, `f`) sits at `9 * (7 - r) + f`
/// (the top rank comes first), and that index decomposes as `f == i % 9`,
/// `7 - r == i / 9`.
proof fn lemma_format_byte_at(p: Position, r: u64, f: u64)
    requires
        r < 8,
        f < 8,
    ensures
        spec_format(p)[9 * (7 - r) + f] == spec_glyph_at(p, Square { file: f as u8, rank: r as u8 }),
        spec_format(p)[9 * (7 - r) + 8] == '\n' as u8,
        spec_format(p).len() == 72,
{
    lemma_format_bytes(p);
    let i = 9 * (7 - r) + f;
    assert(i % 9 == f && i / 9 == 7 - r);
    let ni = 9 * (7 - r) + 8;
    assert(ni % 9 == 8);
}

/// The squares the parser has filled on reaching file `f` of rank `r`: every
/// rank above `r` whole, and the files of `r` below `f`.
pub open spec fn processed_mask(r: u64, f: u64) -> u64 {
    let high: u64 = if r >= 7 {
        0
    } else {
        u64::MAX << ((8 * (r + 1)) as u64)
    };
    high | ((((1u64 << f) - 1) as u64) << ((8 * r) as u64))
}

/// Every occupancy set of `p` cut down to the squares of `m`.
pub open spec fn restrict(p: Position, m: u64) -> Position {
    Position { white: restrict_side(p.white, m), black: restrict_side(p.black, m), turn: Color::White }
}

pub open spec fn restrict_side(pp: PlayerPieces, m: u64) -> PlayerPieces {
    PlayerPieces {
        pawns: BitBoard(pp.pawns.0 & m),
        knights: BitBoard(pp.knights.0 & m),
        bishops: BitBoard(pp.bishops.0 & m),
        rooks: BitBoard(pp.rooks.0 & m),
        queens: BitBoard(pp.queens.0 & m),
        kings: BitBoard(pp.kings.0 & m),
    }
}

/// Neither side holds a square as two kinds, and no square is held by both
/// sides; every placement `parse` produces satisfies this.
pub open spec fn unambiguous(p: Position) -> bool {
    p.kinds_disjoint() && p.white.spec_all() & p.black.spec_all() == 0
}

proof fn lemma_mask_grow(b: u64, m: u64, i: u64)
    requires
        i < 64,
    ensures
        bit64(b, i) ==> b & (m | (1u64 << i)) == (b & m) | (1u64 << i),
        !bit64(b, i) ==> b & (m | (1u64 << i)) == b & m,
{
    assert(((b >> i) & 1 == 1 ==> (b & (m | (1u64 << i))) == ((b & m) | (1u64 << i))) && ((b >> i)
        & 1 != 1 ==> (b & (m | (1u64 << i))) == (b & m))) by (bit_vector)
        requires
            i < 64,
    ;
}

proof fn lemma_processed_mask_step(r: u64, f: u64)
    requires
        r < 8,
        f < 8,
    ensures
        processed_mask(r, (f + 1) as u64) == processed_mask(r, f) | (1u64 << ((8 * r + f) as u64)),
{
    assert(processed_mask(r, (f + 1) as u64) == processed_mask(r, f) | (1u64 << ((8 * r + f) as u64)))
        by (bit_vector)
        requires
            r < 8,
            f < 8,
    ;
}

proof fn lemma_processed_mask_edges(r: u64)
    requires
        0 < r < 8,
    ensures
        processed_mask(r, 8) == processed_mask((r - 1) as u64, 0),
        processed_mask(7, 0) == 0,
        processed_mask(0, 8) == u64::MAX,
{
    assert(processed_mask(r, 8) == processed_mask((r - 1) as u64, 0) && processed_mask(7, 0) == 0
        && processed_mask(0, 8) == u64::MAX) by (bit_vector)
        requires
            0 < r < 8,
    ;
}

proof fn lemma_restrict_all(p: Position)
    ensures
        restrict(p, u64::MAX) == (Position { white: p.white, black: p.black, turn: Color::White }),
        restrict(p, 0) == Position::spec_empty(),
{
    assert forall|b: u64| (b & u64::MAX == b) && (b & 0 == 0) by {
        assert(forall|b: u64| (b & u64::MAX == b) && (b & 0 == 0)) by (bit_vector);
    }
}

/// One parsing step over formatted text: reading the glyph of square
/// (`r`, `f`) extends the parsed placement by exactly that square.
proof fn lemma_roundtrip_cell(p: Position, t: Seq<u8>, r: u64, f: u64)
    requires
        unambiguous(p),
        t == spec_format(p),
        r < 8,
        f <= 8,
    ensures
        spec_parse_at(t, 9 * (7 - r) + f, r as u8, f as u8, restrict(p, processed_mask(r, f)))
            == Ok::<Position, Square>(
            Position { white: p.white, black: p.black, turn: Color::White },
        ),
    decreases 9 * r + 8 - f,
{
    lemma_format_byte_at(p, r, if f < 8 { f } else { 0 });
    let i = 9 * (7 - r) + f;
    let acc = restrict(p, processed_mask(r, f));
    if f == 8 {
        // At a row break: move one rank down, or finish at the bottom rank.
        assert(t[i] == '\n' as u8);
        if r == 0 {
            lemma_processed_mask_edges(1);
            lemma_restrict_all(p);
        } else {
            lemma_processed_mask_edges(r);
            lemma_roundtrip_cell(p, t, (r - 1) as u64, 0);
        }
    } else {
        let sq = Square { file: f as u8, rank: r as u8 };
        let c = spec_glyph_at(p, sq);
        assert(t[i] == c);
        let idx: u64 = (8 * r + f) as u64;
        assert(sq.index() == idx);
        lemma_processed_mask_step(r, f);
        let m = processed_mask(r, f);
        lemma_mask_grow(p.white.pawns.0, m, idx);
        lemma_mask_grow(p.white.knights.0, m, idx);
        lemma_mask_grow(p.white.bishops.0, m, idx);
        lemma_mask_grow(p.white.rooks.0, m, idx);
        lemma_mask_grow(p.white.queens.0, m, idx);
        lemma_mask_grow(p.white.kings.0, m, idx);
        lemma_mask_grow(p.black.pawns.0, m, idx);
        lemma_mask_grow(p.black.knights.0, m, idx);
        lemma_mask_grow(p.black.bishops.0, m, idx);
        lemma_mask_grow(p.black.rooks.0, m, idx);
        lemma_mask_grow(p.black.queens.0, m, idx);
        lemma_mask_grow(p.black.kings.0, m, idx);
        if p.white.spec_piece_at(sq) is Some || p.black.spec_piece_at(sq) is Some {
            // A piece letter: exactly one set holds the square, and the
            // parser adds exactly that bit.
            lemma_occupant_unique(p, sq, idx);
            assert(bit64(p.white.spec_pieces(Piece::Pawn).0, idx) ==> p.white.spec_piece_at(sq)
                == Some(Piece::Pawn));
            assert(bit64(p.white.spec_pieces(Piece::Knight).0, idx) ==> p.white.spec_piece_at(sq)
                == Some(Piece::Knight));
            assert(bit64(p.white.spec_pieces(Piece::Bishop).0, idx) ==> p.white.spec_piece_at(sq)
                == Some(Piece::Bishop));
            assert(bit64(p.white.spec_pieces(Piece::Rook).0, idx) ==> p.white.spec_piece_at(sq)
                == Some(Piece::Rook));
            assert(bit64(p.white.spec_pieces(Piece::Queen).0, idx) ==> p.white.spec_piece_at(sq)
                == Some(Piece::Queen));
            assert(bit64(p.white.spec_pieces(Piece::King).0, idx) ==> p.white.spec_piece_at(sq)
                == Some(Piece::King));
            assert(bit64(p.black.spec_pieces(Piece::Pawn).0, idx) ==> p.black.spec_piece_at(sq)
                == Some(Piece::Pawn));
            assert(bit64(p.black.spec_pieces(Piece::Knight).0, idx) ==> p.black.spec_piece_at(sq)
                == Some(Piece::Knight));
            assert(bit64(p.black.spec_pieces(Piece::Bishop).0, idx) ==> p.black.spec_piece_at(sq)
                == Some(Piece::Bishop));
            assert(bit64(p.black.spec_pieces(Piece::Rook).0, idx) ==> p.black.spec_piece_at(sq)
                == Some(Piece::Rook));
            assert(bit64(p.black.spec_pieces(Piece::Queen).0, idx) ==> p.black.spec_piece_at(sq)
                == Some(Piece::Queen));
            assert(bit64(p.black.spec_pieces(Piece::King).0, idx) ==> p.black.spec_piece_at(sq)
                == Some(Piece::King));
            assert(spec_apply_glyph(acc, c, sq) == restrict(p, processed_mask(r, (f + 1) as u64)));
        } else {
            // An empty square: no set holds it, so nothing changes.
            assert(acc == restrict(p, processed_mask(r, (f + 1) as u64)));
        }
        assert(c != '\n' as u8 && (c == '.' as u8 || spec_glyph_side_kind(c) is Some));
        lemma_roundtrip_cell(p, t, r, (f + 1) as u64);
    }
}

/// Squares set in the union of one side's six sets, bit by bit.
proof fn lemma_side_bit(pp: PlayerPieces, i: u64)
    ensures
        bit64(pp.spec_all(), i) == (bit64(pp.pawns.0, i) || bit64(pp.knights.0, i) || bit64(
            pp.bishops.0,
            i,
        ) || bit64(pp.rooks.0, i) || bit64(pp.queens.0, i) || bit64(pp.kings.0, i)),
{
    crate::board::lemma_bit_or(pp.pawns.0, pp.knights.0, i);
    crate::board::lemma_bit_or(pp.pawns.0 | pp.knights.0, pp.bishops.0, i);
    crate::board::lemma_bit_or(pp.pawns.0 | pp.knights.0 | pp.bishops.0, pp.rooks.0, i);
    crate::board::lemma_bit_or(pp.pawns.0 | pp.knights.0 | pp.bishops.0 | pp.rooks.0, pp.queens.0, i);
    crate::board::lemma_bit_or(
        pp.pawns.0 | pp.knights.0 | pp.bishops.0 | pp.rooks.0 | pp.queens.0,
        pp.kings.0,
        i,
    );
}

/// Two disjoint occupancy sets never share a square.
proof fn lemma_disjoint_bit(a: u64, b: u64, i: u64)
    requires
        a & b == 0,
    ensures
        !(bit64(a, i) && bit64(b, i)),
{
    assert(a & b == 0 ==> !((a >> i) & 1 == 1 && (b >> i) & 1 == 1)) by (bit_vector);
}

/// When one side holds a square as some kind, its other five sets and the
/// whole other side are clear there.
proof fn lemma_occupant_unique(p: Position, sq: Square, i: u64)
    requires
        unambiguous(p),
        sq.wf(),
        i == sq.index(),
    ensures
        forall|kind: Piece|
            #[trigger] bit64(p.white.spec_pieces(kind).0, i) ==> p.white.spec_piece_at(sq)
                == Some(kind),
        forall|kind: Piece|
            #[trigger] bit64(p.black.spec_pieces(kind).0, i) ==> p.black.spec_piece_at(sq)
                == Some(kind),
        !(p.white.spec_piece_at(sq) is Some && p.black.spec_piece_at(sq) is Some),
{
    lemma_side_bit(p.white, i);
    lemma_side_bit(p.black, i);
    lemma_disjoint_bit(p.white.spec_all(), p.black.spec_all(), i);
    lemma_disjoint_bit(p.white.pawns.0, p.white.knights.0, i);
    lemma_disjoint_bit(p.white.pawns.0, p.white.bishops.0, i);
    lemma_disjoint_bit(p.white.pawns.0, p.white.rooks.0, i);
    lemma_disjoint_bit(p.white.pawns.0, p.white.queens.0, i);
    lemma_disjoint_bit(p.white.pawns.0, p.white.kings.0, i);
    lemma_disjoint_bit(p.white.knights.0, p.white.bishops.0, i);
    lemma_disjoint_bit(p.white.knights.0, p.white.rooks.0, i);
    lemma_disjoint_bit(p.white.knights.0, p.white.queens.0, i);
    lemma_disjoint_bit(p.white.knights.0, p.white.kings.0, i);
    lemma_disjoint_bit(p.white.bishops.0, p.white.rooks.0, i);
    lemma_disjoint_bit(p.white.bishops.0, p.white.queens.0, i);
    lemma_disjoint_bit(p.white.bishops.0, p.white.kings.0, i);
    lemma_disjoint_bit(p.white.rooks.0, p.white.queens.0, i);
    lemma_disjoint_bit(p.white.rooks.0, p.white.kings.0, i);
    lemma_disjoint_bit(p.white.queens.0, p.white.kings.0, i);
    lemma_disjoint_bit(p.black.pawns.0, p.black.knights.0, i);
    lemma_disjoint_bit(p.black.pawns.0, p.black.bishops.0, i);
    lemma_disjoint_bit(p.black.pawns.0, p.black.rooks.0, i);
    lemma_disjoint_bit(p.black.pawns.0, p.black.queens.0, i);
    lemma_disjoint_bit(p.black.pawns.0, p.black.kings.0, i);
    lemma_disjoint_bit(p.black.knights.0, p.black.bishops.0, i);
    lemma_disjoint_bit(p.black.knights.0, p.black.rooks.0, i);
    lemma_disjoint_bit(p.black.knights.0, p.black.queens.0, i);
    lemma_disjoint_bit(p.black.knights.0, p.black.kings.0, i);
    lemma_disjoint_bit(p.black.bishops.0, p.black.rooks.0, i);
    lemma_disjoint_bit(p.black.bishops.0, p.black.queens.0, i);
    lemma_disjoint_bit(p.black.bishops.0, p.black.kings.0, i);
    lemma_disjoint_bit(p.black.rooks.0, p.black.queens.0, i);
    lemma_disjoint_bit(p.black.rooks.0, p.black.kings.0, i);
    lemma_disjoint_bit(p.black.queens.0, p.black.kings.0, i);
}

/// Formatting a placement and parsing the text back yields that placement
/// again, with White to move — so the text a placement came from and the text
/// written for it carry the same pieces.
pub proof fn lemma_format_parse_roundtrip(p: Position)
    requires
        unambiguous(p),
    ensures
        spec_parse(spec_format(p)) == Ok::<Position, Square>(
            Position { white: p.white, black: p.black, turn: Color::White },
        ),
{
    lemma_processed_mask_edges(7);
    assert(processed_mask(7, 0) == 0) by (bit_vector);
    lemma_restrict_all(p);
    lemma_roundtrip_cell(p, spec_format(p), 7, 0);
}

/// A row that runs past its eighth column fails at the square just past the
/// row's end, whatever the row holds before the overflow.
pub proof fn lemma_parse_row_overflow(t: Seq<u8>)
    requires
        t.len() >= 9,
        forall|j: int|
            0 <= j < 9 ==> t[j] != '\n' as u8 && (t[j] == '.' as u8 || spec_glyph_side_kind(t[j]) is Some),
    ensures
        spec_parse(t) == Err::<Position, Square>(Square { file: 8, rank: 7 }),
{
    lemma_parse_cells_overflow(t, 0, Position::spec_empty());
}

proof fn lemma_parse_cells_overflow(t: Seq<u8>, f: u64, acc: Position)
    requires
        t.len() >= 9,
        f <= 8,
        forall|j: int|
            0 <= j < 9 ==> t[j] != '\n' as u8 && (t[j] == '.' as u8 || spec_glyph_side_kind(t[j]) is Some),
    ensures
        spec_parse_at(t, f as int, 7, f as u8, acc) == Err::<Position, Square>(
            Square { file: 8, rank: 7 },
        ),
    decreases 8 - f,
{
    if f < 8 {
        let c = t[f as int];
        if c == '.' as u8 {
            lemma_parse_cells_overflow(t, (f + 1) as u64, acc);
        } else {
            lemma_parse_cells_overflow(
                t,
                (f + 1) as u64,
                spec_apply_glyph(acc, c, Square { file: f as u8, rank: 7 }),
            );
        }
    }
}

} // verus!
