//! Pseudo-legal move generation and move application.
//!
//! For every kind but the King, candidate origin squares come from the
//! mover's virtual reach set for that kind, not from literal piece squares,
//! and the kind recorded on an emitted move is whatever piece actually stands
//! at the origin — which may differ from the kind whose reach produced it.
//! Kings move from their literal squares.
use vstd::prelude::*;

use crate::board::BitBoard;
use crate::board::Square;
use crate::board::SquareDiff;
use crate::board::bit64;
use crate::board::spec_square_of;
use crate::board::spec_offset;
use crate::position::Color;
use crate::position::Piece;
use crate::position::PlayerPieces;
use crate::position::Position;
use crate::position::spec_virtual;

verus! {

/// One candidate move: the kind that moves, where from and to, what it
/// captures, and what a pawn reaching the far rank becomes.
#[derive(Clone, Copy, Debug, PartialEq, Eq)]
pub struct Move {
    pub moved_piece: Piece,
    pub from: Square,
    pub to: Square,
    pub captured_piece: Option<Piece>,
    pub promote_to: Option<Piece>,
}

/// The rank whose pawns promote for `c`.
pub open spec fn spec_promotion_rank(c: Color) -> u8 {
    match c {
        Color::White => 7,
        Color::Black => 0,
    }
}

/// The forward rank direction of `c`'s pawns.
pub open spec fn spec_forward(c: Color) -> int {
    match c {
        Color::White => 1,
        Color::Black => -1,
    }
}

/// The squares of `b` in ascending bit-position order, up to position `n`.
pub open spec fn spec_squares_upto(b: u64, n: int) -> Seq<Square>
    decreases n,
{
    if n <= 0 {
        Seq::empty()
    } else {
        spec_squares_upto(b, n - 1) + if bit64(b, (n - 1) as u64) {
            seq![spec_square_of(n - 1)]
        } else {
            Seq::empty()
        }
    }
}

/// All squares of `b`, ascending.
pub open spec fn spec_squares(b: u64) -> Seq<Square> {
    spec_squares_upto(b, 64)
}

/// Collects the squares of an occupancy set in ascending order.
pub fn squares_list(b: u64) -> (r: Vec<Square>)
    ensures
        r@ == spec_squares(b),
        forall|k: int| 0 <= k < r@.len() ==> (#[trigger] r@[k]).wf(),
{
    let mut out: Vec<Square> = Vec::new();
    let mut i: u64 = 0;
    while i < 64
        invariant
            0 <= i <= 64,
            out@ == spec_squares_upto(b, i as int),
            forall|k: int| 0 <= k < out@.len() ==> (#[trigger] out@[k]).wf(),
        decreases 64 - i,
    {
        if (b >> i) & 1 == 1 {
            out.push(Square::from_bit_position(i as u8));
        }
        i = i + 1;
    }
    out
}

/// The moves emitted for one origin and destination: the moved kind is the
/// literal occupant of the origin (nothing is emitted when the mover holds
/// nothing there), the captured kind is the opponent's occupant of the
/// destination, and a pawn landing on the far rank expands into the four
/// promotions instead of one plain move.
pub open spec fn spec_emit(pos: Position, from: Square, to: Square) -> Seq<Move> {
    match pos.spec_player(pos.turn).spec_piece_at(from) {
        None => Seq::empty(),
        Some(moved_piece) => {
            let captured_piece = pos.spec_player(pos.turn.spec_other()).spec_piece_at(to);
            if moved_piece == Piece::Pawn && to.rank == spec_promotion_rank(pos.turn) {
                seq![
                    Move { moved_piece, from, to, captured_piece, promote_to: Some(Piece::Knight) },
                    Move { moved_piece, from, to, captured_piece, promote_to: Some(Piece::Bishop) },
                    Move { moved_piece, from, to, captured_piece, promote_to: Some(Piece::Rook) },
                    Move { moved_piece, from, to, captured_piece, promote_to: Some(Piece::Queen) },
                ]
            } else {
                seq![Move { moved_piece, from, to, captured_piece, promote_to: None }]
            }
        },
    }
}

fn emit_moves(pos: &Position, from: Square, to: Square, out: &mut Vec<Move>)
    requires
        from.wf(),
        to.wf(),
    ensures
        final(out)@ == old(out)@ + spec_emit(*pos, from, to),
{
    let moved_piece = match pos.player(pos.turn).piece_at(from) {
        Some(p) => p,
        None => {
            proof {
                assert(out@ =~= out@ + spec_emit(*pos, from, to));
            }
            return ;
        },
    };
    let captured_piece = pos.player(pos.turn.other()).piece_at(to);
    let promotion_rank = match pos.turn {
        Color::White => 7u8,
        Color::Black => 0u8,
    };
    if to.rank() == promotion_rank && moved_piece == Piece::Pawn {
        out.push(Move { moved_piece, from, to, captured_piece, promote_to: Some(Piece::Knight) });
        out.push(Move { moved_piece, from, to, captured_piece, promote_to: Some(Piece::Bishop) });
        out.push(Move { moved_piece, from, to, captured_piece, promote_to: Some(Piece::Rook) });
        out.push(Move { moved_piece, from, to, captured_piece, promote_to: Some(Piece::Queen) });
        proof {
            assert(out@ =~= old(out)@ + spec_emit(*pos, from, to));
        }
    } else {
        out.push(Move { moved_piece, from, to, captured_piece, promote_to: None });
        proof {
            assert(out@ =~= old(out)@ + spec_emit(*pos, from, to));
        }
    }
}

/// A pawn-shaped set of moves from one origin: one square forward only onto
/// an empty square, and the two forward diagonals only onto an opponent.
pub open spec fn spec_pawn_moves_at(pos: Position, from: Square) -> Seq<Move> {
    spec_pawn_forward(pos, from) + spec_pawn_diagonal(pos, from, -1) + spec_pawn_diagonal(
        pos,
        from,
        1,
    )
}

pub open spec fn spec_pawn_forward(pos: Position, from: Square) -> Seq<Move> {
    match spec_offset(from, spec_forward(pos.turn), 0) {
        None => Seq::empty(),
        Some(to) => if !bit64(pos.spec_occupied(), to.index() as u64) {
            spec_emit(pos, from, to)
        } else {
            Seq::empty()
        },
    }
}

pub open spec fn spec_pawn_diagonal(pos: Position, from: Square, file_diff: int) -> Seq<Move> {
    match spec_offset(from, spec_forward(pos.turn), file_diff) {
        None => Seq::empty(),
        Some(to) => {
            if bit64(pos.spec_player(pos.turn).spec_all(), to.index() as u64) {
                Seq::empty()
            } else if !bit64(pos.spec_player(pos.turn.spec_other()).spec_all(), to.index() as u64) {
                Seq::empty()
            } else {
                spec_emit(pos, from, to)
            }
        },
    }
}

fn pawn_moves_at(pos: &Position, from: Square, out: &mut Vec<Move>)
    requires
        from.wf(),
    ensures
        final(out)@ == old(out)@ + spec_pawn_moves_at(*pos, from),
{
    let own_forward: i8 = match pos.turn {
        Color::White => 1,
        Color::Black => -1,
    };
    match from.try_add(SquareDiff { rank_diff: own_forward, file_diff: 0 }) {
        Some(to) => {
            if !pos.all().has(to) {
                emit_moves(pos, from, to, out);
            }
        },
        None => {},
    }
    assert(out@ == old(out)@ + spec_pawn_forward(*pos, from));
    match from.try_add(SquareDiff { rank_diff: own_forward, file_diff: -1 }) {
        Some(to) => {
            if !pos.player(pos.turn).all().has(to) && pos.player(pos.turn.other()).all().has(to) {
                emit_moves(pos, from, to, out);
            }
        },
        None => {},
    }
    assert(out@ == old(out)@ + spec_pawn_forward(*pos, from) + spec_pawn_diagonal(*pos, from, -1));
    match from.try_add(SquareDiff { rank_diff: own_forward, file_diff: 1 }) {
        Some(to) => {
            if !pos.player(pos.turn).all().has(to) && pos.player(pos.turn.other()).all().has(to) {
                emit_moves(pos, from, to, out);
            }
        },
        None => {},
    }
    proof {
        assert(out@ =~= old(out)@ + spec_pawn_moves_at(*pos, from));
    }
}

/// One fixed-offset jump, used by knights and kings: the destination is
/// rejected only when the mover's own side occupies it.
pub open spec fn spec_jump_at(pos: Position, from: Square, rank_diff: int, file_diff: int) -> Seq<
    Move,
> {
    match spec_offset(from, rank_diff, file_diff) {
        None => Seq::empty(),
        Some(to) => if bit64(pos.spec_player(pos.turn).spec_all(), to.index() as u64) {
            Seq::empty()
        } else {
            spec_emit(pos, from, to)
        },
    }
}

fn jump_move_at(pos: &Position, from: Square, rank_diff: i8, file_diff: i8, out: &mut Vec<Move>)
    requires
        from.wf(),
    ensures
        final(out)@ == old(out)@ + spec_jump_at(*pos, from, rank_diff as int, file_diff as int),
{
    match from.try_add(SquareDiff { rank_diff, file_diff }) {
        Some(to) => {
            if !pos.player(pos.turn).all().has(to) {
                emit_moves(pos, from, to, out);
            } else {
                proof {
                    assert(out@ =~= old(out)@ + spec_jump_at(
                        *pos,
                        from,
                        rank_diff as int,
                        file_diff as int,
                    ));
                }
            }
        },
        None => {
            proof {
                assert(out@ =~= old(out)@ + spec_jump_at(
                    *pos,
                    from,
                    rank_diff as int,
                    file_diff as int,
                ));
            }
        },
    }
}

/// A fold of fixed-offset jumps over the first `n` offsets of `offsets`.
pub open spec fn cat_jumps(pos: Position, from: Square, offsets: Seq<(i8, i8)>, n: int) -> Seq<Move>
    decreases n,
{
    if n <= 0 {
        Seq::empty()
    } else {
        cat_jumps(pos, from, offsets, n - 1) + spec_jump_at(
            pos,
            from,
            offsets[n - 1].0 as int,
            offsets[n - 1].1 as int,
        )
    }
}

/// The knight's eight jump offsets, in the order they are tried.
pub open spec fn knight_offsets() -> Seq<(i8, i8)> {
    seq![
        (-2i8, -1i8),
        (-2i8, 1i8),
        (-1i8, -2i8),
        (-1i8, 2i8),
        (1i8, -2i8),
        (1i8, 2i8),
        (2i8, -1i8),
        (2i8, 1i8),
    ]
}

/// The king's eight step offsets, in the order they are tried.
pub open spec fn king_offsets() -> Seq<(i8, i8)> {
    seq![
        (-1i8, -1i8),
        (-1i8, 0i8),
        (-1i8, 1i8),
        (0i8, -1i8),
        (0i8, 1i8),
        (1i8, -1i8),
        (1i8, 0i8),
        (1i8, 1i8),
    ]
}

/// The knight's eight jumps from one origin, in a fixed order.
pub open spec fn spec_knight_moves_at(pos: Position, from: Square) -> Seq<Move> {
    cat_jumps(pos, from, knight_offsets(), 8)
}

/// The king's eight steps from one origin, in a fixed order.
pub open spec fn spec_king_moves_at(pos: Position, from: Square) -> Seq<Move> {
    cat_jumps(pos, from, king_offsets(), 8)
}

fn jump_moves_over(pos: &Position, from: Square, offsets: &Vec<(i8, i8)>, out: &mut Vec<Move>)
    requires
        from.wf(),
    ensures
        final(out)@ == old(out)@ + cat_jumps(*pos, from, offsets@, offsets@.len() as int),
{
    let ghost base = out@;
    let mut i: usize = 0;
    while i < offsets.len()
        invariant
            0 <= i <= offsets@.len(),
            from.wf(),
            out@ == base + cat_jumps(*pos, from, offsets@, i as int),
        decreases offsets@.len() - i,
    {
        let (rank_diff, file_diff) = offsets[i];
        jump_move_at(pos, from, rank_diff, file_diff, out);
        proof {
            assert(out@ =~= base + cat_jumps(*pos, from, offsets@, i as int + 1));
        }
        i = i + 1;
    }
}

fn knight_moves_at(pos: &Position, from: Square, out: &mut Vec<Move>)
    requires
        from.wf(),
    ensures
        final(out)@ == old(out)@ + spec_knight_moves_at(*pos, from),
{
    let offsets: Vec<(i8, i8)> = vec![
        (-2i8, -1i8),
        (-2i8, 1i8),
        (-1i8, -2i8),
        (-1i8, 2i8),
        (1i8, -2i8),
        (1i8, 2i8),
        (2i8, -1i8),
        (2i8, 1i8),
    ];
    proof {
        assert(offsets@ =~= knight_offsets());
    }
    jump_moves_over(pos, from, &offsets, out);
}

fn king_moves_at(pos: &Position, from: Square, out: &mut Vec<Move>)
    requires
        from.wf(),
    ensures
        final(out)@ == old(out)@ + spec_king_moves_at(*pos, from),
{
    let offsets: Vec<(i8, i8)> = vec![
        (-1i8, -1i8),
        (-1i8, 0i8),
        (-1i8, 1i8),
        (0i8, -1i8),
        (0i8, 1i8),
        (1i8, -1i8),
        (1i8, 0i8),
        (1i8, 1i8),
    ];
    proof {
        assert(offsets@ =~= king_offsets());
    }
    jump_moves_over(pos, from, &offsets, out);
}

/// A ray walked from `step` squares out, up to six steps: the mover's own
/// piece stops the ray before emitting; an opponent's piece stops it after
/// emitting the capture.
pub open spec fn spec_ray_from(
    pos: Position,
    from: Square,
    rank_diff: int,
    file_diff: int,
    step: int,
) -> Seq<Move>
    decreases 7 - step,
    when 1 <= step <= 7
{
    if step == 7 {
        Seq::empty()
    } else {
        match spec_offset(from, rank_diff * step, file_diff * step) {
            None => Seq::empty(),
            Some(to) => {
                if bit64(pos.spec_player(pos.turn).spec_all(), to.index() as u64) {
                    Seq::empty()
                } else {
                    spec_emit(pos, from, to) + (if bit64(
                        pos.spec_player(pos.turn.spec_other()).spec_all(),
                        to.index() as u64,
                    ) {
                        Seq::<Move>::empty()
                    } else {
                        spec_ray_from(pos, from, rank_diff, file_diff, step + 1)
                    })
                }
            },
        }
    }
}

fn ray_moves_from(
    pos: &Position,
    from: Square,
    rank_diff: i8,
    file_diff: i8,
    step: u8,
    out: &mut Vec<Move>,
)
    requires
        from.wf(),
        -1 <= rank_diff <= 1,
        -1 <= file_diff <= 1,
        1 <= step <= 7,
    ensures
        final(out)@ == old(out)@ + spec_ray_from(*pos, from, rank_diff as int, file_diff as int, step as int),
    decreases 7 - step,
{
    if step == 7 {
        proof {
            assert(out@ =~= out@ + Seq::<Move>::empty());
        }
        return ;
    }
    let direction = SquareDiff { rank_diff, file_diff };
    match from.try_add(direction.times(step as i8)) {
        None => {
            proof {
                assert(out@ =~= out@ + Seq::<Move>::empty());
            }
        },
        Some(to) => {
            if pos.player(pos.turn).all().has(to) {
                proof {
                    assert(out@ =~= out@ + Seq::<Move>::empty());
                }
            } else {
                emit_moves(pos, from, to, out);
                if !pos.player(pos.turn.other()).all().has(to) {
                    ray_moves_from(pos, from, rank_diff, file_diff, step + 1, out);
                }
                proof {
                    assert(out@ =~= old(out)@ + spec_ray_from(
                        *pos,
                        from,
                        rank_diff as int,
                        file_diff as int,
                        step as int,
                    ));
                }
            }
        },
    }
}

/// The four diagonal rays, used for bishop and queen origins.
pub open spec fn spec_diagonal_moves_at(pos: Position, from: Square) -> Seq<Move> {
    spec_ray_from(pos, from, -1, -1, 1) + spec_ray_from(pos, from, -1, 1, 1) + spec_ray_from(
        pos,
        from,
        1,
        -1,
        1,
    ) + spec_ray_from(pos, from, 1, 1, 1)
}

fn diagonal_moves_at(pos: &Position, from: Square, out: &mut Vec<Move>)
    requires
        from.wf(),
    ensures
        final(out)@ == old(out)@ + spec_diagonal_moves_at(*pos, from),
{
    ray_moves_from(pos, from, -1, -1, 1, out);
    ray_moves_from(pos, from, -1, 1, 1, out);
    ray_moves_from(pos, from, 1, -1, 1, out);
    ray_moves_from(pos, from, 1, 1, 1, out);
    proof {
        assert(out@ =~= old(out)@ + spec_diagonal_moves_at(*pos, from));
    }
}

/// The four file and rank rays, used for rook and queen origins.
pub open spec fn spec_orthogonal_moves_at(pos: Position, from: Square) -> Seq<Move> {
    spec_ray_from(pos, from, -1, 0, 1) + spec_ray_from(pos, from, 0, -1, 1) + spec_ray_from(
        pos,
        from,
        0,
        1,
        1,
    ) + spec_ray_from(pos, from, 1, 0, 1)
}

fn orthogonal_moves_at(pos: &Position, from: Square, out: &mut Vec<Move>)
    requires
        from.wf(),
    ensures
        final(out)@ == old(out)@ + spec_orthogonal_moves_at(*pos, from),
{
    ray_moves_from(pos, from, -1, 0, 1, out);
    ray_moves_from(pos, from, 0, -1, 1, out);
    ray_moves_from(pos, from, 0, 1, 1, out);
    ray_moves_from(pos, from, 1, 0, 1, out);
    proof {
        assert(out@ =~= old(out)@ + spec_orthogonal_moves_at(*pos, from));
    }
}

/// Pawn-shaped moves for the first `n` origins of `s`.
pub open spec fn cat_pawn(pos: Position, s: Seq<Square>, n: int) -> Seq<Move>
    decreases n,
{
    if n <= 0 {
        Seq::empty()
    } else {
        cat_pawn(pos, s, n - 1) + spec_pawn_moves_at(pos, s[n - 1])
    }
}

/// Knight-shaped moves for the first `n` origins of `s`.
pub open spec fn cat_knight(pos: Position, s: Seq<Square>, n: int) -> Seq<Move>
    decreases n,
{
    if n <= 0 {
        Seq::empty()
    } else {
        cat_knight(pos, s, n - 1) + spec_knight_moves_at(pos, s[n - 1])
    }
}

/// Diagonal ray moves for the first `n` origins of `s`.
pub open spec fn cat_diagonal(pos: Position, s: Seq<Square>, n: int) -> Seq<Move>
    decreases n,
{
    if n <= 0 {
        Seq::empty()
    } else {
        cat_diagonal(pos, s, n - 1) + spec_diagonal_moves_at(pos, s[n - 1])
    }
}

/// File and rank ray moves for the first `n` origins of `s`.
pub open spec fn cat_orthogonal(pos: Position, s: Seq<Square>, n: int) -> Seq<Move>
    decreases n,
{
    if n <= 0 {
        Seq::empty()
    } else {
        cat_orthogonal(pos, s, n - 1) + spec_orthogonal_moves_at(pos, s[n - 1])
    }
}

/// King-shaped moves for the first `n` origins of `s`.
pub open spec fn cat_king(pos: Position, s: Seq<Square>, n: int) -> Seq<Move>
    decreases n,
{
    if n <= 0 {
        Seq::empty()
    } else {
        cat_king(pos, s, n - 1) + spec_king_moves_at(pos, s[n - 1])
    }
}

/// Every candidate move of `pos`: pawn moves first, then knight, then the
/// bishop and queen diagonals, then the rook and queen files and ranks, then
/// king moves. Origins of the first four groups are the mover's virtual
/// reach squares for the group's kind; king origins are literal.
pub open spec fn spec_moves(pos: Position) -> Seq<Move> {
    let own_virtual = spec_virtual(pos).spec_player(pos.turn);
    let pawn_origins = spec_squares(own_virtual.pawns.0);
    let knight_origins = spec_squares(own_virtual.knights.0);
    let diagonal_origins = spec_squares(own_virtual.bishops.0 | own_virtual.queens.0);
    let orthogonal_origins = spec_squares(own_virtual.rooks.0 | own_virtual.queens.0);
    let king_origins = spec_squares(pos.spec_player(pos.turn).kings.0);
    cat_pawn(pos, pawn_origins, pawn_origins.len() as int) + cat_knight(
        pos,
        knight_origins,
        knight_origins.len() as int,
    ) + cat_diagonal(pos, diagonal_origins, diagonal_origins.len() as int) + cat_orthogonal(
        pos,
        orthogonal_origins,
        orthogonal_origins.len() as int,
    ) + cat_king(pos, king_origins, king_origins.len() as int)
}

/// Generates every candidate move of `pos`; total, and independent of
/// anything but the position.
pub fn moves(pos: &Position) -> (r: Vec<Move>)
    ensures
        r@ == spec_moves(*pos),
{
    let virt = pos.to_virtual_position();
    let own_virtual: PlayerPieces = *virt.player(pos.turn);
    let mut result: Vec<Move> = Vec::new();

    let pawn_origins = squares_list(own_virtual.pawns.0);
    let mut i: usize = 0;
    while i < pawn_origins.len()
        invariant
            0 <= i <= pawn_origins@.len(),
            pawn_origins@ == spec_squares(spec_virtual(*pos).spec_player(pos.turn).pawns.0),
            forall|k: int| 0 <= k < pawn_origins@.len() ==> (#[trigger] pawn_origins@[k]).wf(),
            result@ == cat_pawn(*pos, pawn_origins@, i as int),
        decreases pawn_origins@.len() - i,
    {
        pawn_moves_at(pos, pawn_origins[i], &mut result);
        i = i + 1;
    }

    let knight_origins = squares_list(own_virtual.knights.0);
    let ghost done = result@;
    let mut i: usize = 0;
    while i < knight_origins.len()
        invariant
            0 <= i <= knight_origins@.len(),
            knight_origins@ == spec_squares(spec_virtual(*pos).spec_player(pos.turn).knights.0),
            forall|k: int| 0 <= k < knight_origins@.len() ==> (#[trigger] knight_origins@[k]).wf(),
            result@ == done + cat_knight(*pos, knight_origins@, i as int),
        decreases knight_origins@.len() - i,
    {
        knight_moves_at(pos, knight_origins[i], &mut result);
        i = i + 1;
    }

    let diagonal_origins = squares_list(own_virtual.bishops.0 | own_virtual.queens.0);
    let ghost done = result@;
    let mut i: usize = 0;
    while i < diagonal_origins.len()
        invariant
            0 <= i <= diagonal_origins@.len(),
            diagonal_origins@ == spec_squares(
                spec_virtual(*pos).spec_player(pos.turn).bishops.0 | spec_virtual(
                    *pos,
                ).spec_player(pos.turn).queens.0,
            ),
            forall|k: int| 0 <= k < diagonal_origins@.len() ==> (#[trigger] diagonal_origins@[k]).wf(),
            result@ == done + cat_diagonal(*pos, diagonal_origins@, i as int),
        decreases diagonal_origins@.len() - i,
    {
        diagonal_moves_at(pos, diagonal_origins[i], &mut result);
        i = i + 1;
    }

    let orthogonal_origins = squares_list(own_virtual.rooks.0 | own_virtual.queens.0);
    let ghost done = result@;
    let mut i: usize = 0;
    while i < orthogonal_origins.len()
        invariant
            0 <= i <= orthogonal_origins@.len(),
            orthogonal_origins@ == spec_squares(
                spec_virtual(*pos).spec_player(pos.turn).rooks.0 | spec_virtual(*pos).spec_player(
                    pos.turn,
                ).queens.0,
            ),
            forall|k: int|
                0 <= k < orthogonal_origins@.len() ==> (#[trigger] orthogonal_origins@[k]).wf(),
            result@ == done + cat_orthogonal(*pos, orthogonal_origins@, i as int),
        decreases orthogonal_origins@.len() - i,
    {
        orthogonal_moves_at(pos, orthogonal_origins[i], &mut result);
        i = i + 1;
    }

    let king_origins = squares_list(pos.player(pos.turn).kings.0);
    let ghost done = result@;
    let mut i: usize = 0;
    while i < king_origins.len()
        invariant
            0 <= i <= king_origins@.len(),
            king_origins@ == spec_squares(pos.spec_player(pos.turn).kings.0),
            forall|k: int| 0 <= k < king_origins@.len() ==> (#[trigger] king_origins@[k]).wf(),
            result@ == done + cat_king(*pos, king_origins@, i as int),
        decreases king_origins@.len() - i,
    {
        king_moves_at(pos, king_origins[i], &mut result);
        i = i + 1;
    }
    proof {
        assert(result@ =~= spec_moves(*pos));
    }
    result
}

/// The position after playing `m` on `pos`: the side to move flips, the
/// moved kind leaves the origin, a captured kind leaves the destination on
/// the other side, and the promotion kind — or else the moved kind — lands
/// on the destination.
pub open spec fn spec_apply(pos: Position, m: Move) -> Position {
    let mover = pos.turn;
    let own0 = pos.spec_player(mover);
    let own1 = own0.spec_with_pieces(
        m.moved_piece,
        BitBoard(own0.spec_pieces(m.moved_piece).0 & !(1u64 << m.from.index() as u64)),
    );
    let landing = match m.promote_to {
        Some(p) => p,
        None => m.moved_piece,
    };
    let own2 = own1.spec_with_pieces(
        landing,
        BitBoard(own1.spec_pieces(landing).0 | (1u64 << m.to.index() as u64)),
    );
    let opp0 = pos.spec_player(mover.spec_other());
    let opp1 = match m.captured_piece {
        Some(p) => opp0.spec_with_pieces(
            p,
            BitBoard(opp0.spec_pieces(p).0 & !(1u64 << m.to.index() as u64)),
        ),
        None => opp0,
    };
    let p1 = pos.spec_with_player(mover, own2).spec_with_player(mover.spec_other(), opp1);
    Position { turn: mover.spec_other(), ..p1 }
}

/// Applies a move built by any means; total, and never a legality check.
pub fn apply_move(pos: &Position, mov: Move) -> (r: Position)
    requires
        mov.from.wf(),
        mov.to.wf(),
    ensures
        r == spec_apply(*pos, mov),
{
    let mover = pos.turn;
    let mut result = *pos;
    result.turn = mover.other();

    let mut own: PlayerPieces = *pos.player(mover);
    let mut moved_board = own.pieces(mov.moved_piece);
    moved_board.unset(mov.from);
    own.set_pieces(mov.moved_piece, moved_board);

    let landing = match mov.promote_to {
        Some(p) => p,
        None => mov.moved_piece,
    };
    let mut landing_board = own.pieces(landing);
    landing_board.set(mov.to);
    own.set_pieces(landing, landing_board);
    result.set_player(mover, own);

    match mov.captured_piece {
        Some(piece) => {
            let mut opp: PlayerPieces = *pos.player(mover.other());
            let mut captured_board = opp.pieces(piece);
            captured_board.unset(mov.to);
            opp.set_pieces(piece, captured_board);
            result.set_player(mover.other(), opp);
        },
        None => {},
    }
    result
}


/// What holds of every move the generator emits: both squares are on the
/// board and distinct, the mover really holds the recorded kind at the
/// origin, the mover does not occupy the destination, the captured kind is
/// the opponent's occupant of the destination, and a promotion is recorded
/// exactly for a pawn landing on the far rank.
pub open spec fn move_ok(pos: Position, m: Move) -> bool {
    &&& m.from.wf()
    &&& m.to.wf()
    &&& m.from != m.to
    &&& pos.spec_player(pos.turn).spec_piece_at(m.from) == Some(m.moved_piece)
    &&& !bit64(pos.spec_player(pos.turn).spec_all(), m.to.index() as u64)
    &&& m.captured_piece == pos.spec_player(pos.turn.spec_other()).spec_piece_at(m.to)
    &&& match m.promote_to {
        Some(p) => m.moved_piece == Piece::Pawn && m.to.rank == spec_promotion_rank(pos.turn) && (p
            == Piece::Knight || p == Piece::Bishop || p == Piece::Rook || p == Piece::Queen),
        None => !(m.moved_piece == Piece::Pawn && m.to.rank == spec_promotion_rank(pos.turn)),
    }
}

/// All moves of a sequence satisfy `move_ok`.
pub open spec fn moves_ok(pos: Position, s: Seq<Move>) -> bool {
    forall|k: int| 0 <= k < s.len() ==> move_ok(pos, #[trigger] s[k])
}

proof fn lemma_moves_ok_cat(pos: Position, a: Seq<Move>, b: Seq<Move>)
    requires
        moves_ok(pos, a),
        moves_ok(pos, b),
    ensures
        moves_ok(pos, a + b),
{
    assert forall|k: int| 0 <= k < (a + b).len() implies move_ok(pos, (a + b)[k]) by {
        if k < a.len() {
            assert((a + b)[k] == a[k]);
        } else {
            assert((a + b)[k] == b[k - a.len()]);
        }
    }
}

proof fn lemma_emit_ok(pos: Position, from: Square, to: Square)
    requires
        from.wf(),
        to.wf(),
        from != to,
        !bit64(pos.spec_player(pos.turn).spec_all(), to.index() as u64),
    ensures
        moves_ok(pos, spec_emit(pos, from, to)),
{
}

proof fn lemma_own_all_bit(pp: PlayerPieces, i: u64)
    ensures
        bit64(pp.spec_all(), i) == (bit64(pp.pawns.0, i) || bit64(pp.knights.0, i) || bit64(
            pp.bishops.0,
            i,
        ) || bit64(pp.rooks.0, i) || bit64(pp.queens.0, i) || bit64(pp.kings.0, i)),
{
    crate::board::lemma_bit_or(pp.pawns.0, pp.knights.0, i);
    crate::board::lemma_bit_or(pp.pawns.0 | pp.knights.0, pp.bishops.0, i);
    crate::board::lemma_bit_or(pp.pawns.0 | pp.knights.0 | pp.bishops.0, pp.rooks.0, i);
    crate::board::lemma_bit_or(pp.pawns.0 | pp.knights.0 | pp.bishops.0 | pp.rooks.0, pp.queens.0, i);
    crate::board::lemma_bit_or(
        pp.pawns.0 | pp.knights.0 | pp.bishops.0 | pp.rooks.0 | pp.queens.0,
        pp.kings.0,
        i,
    );
}

proof fn lemma_pawn_ok(pos: Position, from: Square)
    requires
        from.wf(),
    ensures
        moves_ok(pos, spec_pawn_moves_at(pos, from)),
{
    match spec_offset(from, spec_forward(pos.turn), 0) {
        Some(to) => {
            if !bit64(pos.spec_occupied(), to.index() as u64) {
                crate::board::lemma_bit_or(
                    pos.spec_player(pos.turn).spec_all(),
                    pos.spec_player(pos.turn.spec_other()).spec_all(),
                    to.index() as u64,
                );
                assert(pos.spec_occupied() == pos.spec_player(pos.turn).spec_all()
                    | pos.spec_player(pos.turn.spec_other()).spec_all() || pos.spec_occupied()
                    == pos.spec_player(pos.turn.spec_other()).spec_all() | pos.spec_player(
                    pos.turn,
                ).spec_all());
                crate::board::lemma_bit_or(
                    pos.spec_player(pos.turn.spec_other()).spec_all(),
                    pos.spec_player(pos.turn).spec_all(),
                    to.index() as u64,
                );
                lemma_emit_ok(pos, from, to);
            }
        },
        None => {},
    }
    match spec_offset(from, spec_forward(pos.turn), -1) {
        Some(to) => {
            if !bit64(pos.spec_player(pos.turn).spec_all(), to.index() as u64) {
                lemma_emit_ok(pos, from, to);
            }
        },
        None => {},
    }
    match spec_offset(from, spec_forward(pos.turn), 1) {
        Some(to) => {
            if !bit64(pos.spec_player(pos.turn).spec_all(), to.index() as u64) {
                lemma_emit_ok(pos, from, to);
            }
        },
        None => {},
    }
    lemma_moves_ok_cat(pos, spec_pawn_forward(pos, from), spec_pawn_diagonal(pos, from, -1));
    lemma_moves_ok_cat(
        pos,
        spec_pawn_forward(pos, from) + spec_pawn_diagonal(pos, from, -1),
        spec_pawn_diagonal(pos, from, 1),
    );
}

proof fn lemma_jump_ok(pos: Position, from: Square, rank_diff: int, file_diff: int)
    requires
        from.wf(),
        rank_diff != 0 || file_diff != 0,
    ensures
        moves_ok(pos, spec_jump_at(pos, from, rank_diff, file_diff)),
{
    match spec_offset(from, rank_diff, file_diff) {
        Some(to) => {
            if !bit64(pos.spec_player(pos.turn).spec_all(), to.index() as u64) {
                lemma_emit_ok(pos, from, to);
            }
        },
        None => {},
    }
}

proof fn lemma_cat_jumps_ok(pos: Position, from: Square, offsets: Seq<(i8, i8)>, n: int)
    requires
        from.wf(),
        forall|k: int|
            0 <= k < n ==> !((#[trigger] offsets[k]).0 == 0 && offsets[k].1 == 0),
        n <= offsets.len(),
    ensures
        moves_ok(pos, cat_jumps(pos, from, offsets, n)),
    decreases n,
{
    if n > 0 {
        lemma_cat_jumps_ok(pos, from, offsets, n - 1);
        lemma_jump_ok(pos, from, offsets[n - 1].0 as int, offsets[n - 1].1 as int);
        lemma_moves_ok_cat(
            pos,
            cat_jumps(pos, from, offsets, n - 1),
            spec_jump_at(pos, from, offsets[n - 1].0 as int, offsets[n - 1].1 as int),
        );
    }
}

proof fn lemma_ray_ok(pos: Position, from: Square, rank_diff: int, file_diff: int, step: int)
    requires
        from.wf(),
        -1 <= rank_diff <= 1,
        -1 <= file_diff <= 1,
        rank_diff != 0 || file_diff != 0,
        1 <= step <= 7,
    ensures
        moves_ok(pos, spec_ray_from(pos, from, rank_diff, file_diff, step)),
    decreases 7 - step,
{
    if step < 7 {
        match spec_offset(from, rank_diff * step, file_diff * step) {
            Some(to) => {
                if !bit64(pos.spec_player(pos.turn).spec_all(), to.index() as u64) {
                    assert(rank_diff * step != 0 || file_diff * step != 0) by (nonlinear_arith)
                        requires
                            -1 <= rank_diff <= 1,
                            -1 <= file_diff <= 1,
                            rank_diff != 0 || file_diff != 0,
                            1 <= step,
                    ;
                    lemma_emit_ok(pos, from, to);
                    if !bit64(
                        pos.spec_player(pos.turn.spec_other()).spec_all(),
                        to.index() as u64,
                    ) {
                        lemma_ray_ok(pos, from, rank_diff, file_diff, step + 1);
                    }
                    lemma_moves_ok_cat(
                        pos,
                        spec_emit(pos, from, to),
                        if bit64(
                            pos.spec_player(pos.turn.spec_other()).spec_all(),
                            to.index() as u64,
                        ) {
                            Seq::<Move>::empty()
                        } else {
                            spec_ray_from(pos, from, rank_diff, file_diff, step + 1)
                        },
                    );
                }
            },
            None => {},
        }
    }
}

proof fn lemma_diagonal_ok(pos: Position, from: Square)
    requires
        from.wf(),
    ensures
        moves_ok(pos, spec_diagonal_moves_at(pos, from)),
{
    lemma_ray_ok(pos, from, -1, -1, 1);
    lemma_ray_ok(pos, from, -1, 1, 1);
    lemma_ray_ok(pos, from, 1, -1, 1);
    lemma_ray_ok(pos, from, 1, 1, 1);
    lemma_moves_ok_cat(pos, spec_ray_from(pos, from, -1, -1, 1), spec_ray_from(pos, from, -1, 1, 1));
    lemma_moves_ok_cat(
        pos,
        spec_ray_from(pos, from, -1, -1, 1) + spec_ray_from(pos, from, -1, 1, 1),
        spec_ray_from(pos, from, 1, -1, 1),
    );
    lemma_moves_ok_cat(
        pos,
        spec_ray_from(pos, from, -1, -1, 1) + spec_ray_from(pos, from, -1, 1, 1) + spec_ray_from(
            pos,
            from,
            1,
            -1,
            1,
        ),
        spec_ray_from(pos, from, 1, 1, 1),
    );
}

proof fn lemma_orthogonal_ok(pos: Position, from: Square)
    requires
        from.wf(),
    ensures
        moves_ok(pos, spec_orthogonal_moves_at(pos, from)),
{
    lemma_ray_ok(pos, from, -1, 0, 1);
    lemma_ray_ok(pos, from, 0, -1, 1);
    lemma_ray_ok(pos, from, 0, 1, 1);
    lemma_ray_ok(pos, from, 1, 0, 1);
    lemma_moves_ok_cat(pos, spec_ray_from(pos, from, -1, 0, 1), spec_ray_from(pos, from, 0, -1, 1));
    lemma_moves_ok_cat(
        pos,
        spec_ray_from(pos, from, -1, 0, 1) + spec_ray_from(pos, from, 0, -1, 1),
        spec_ray_from(pos, from, 0, 1, 1),
    );
    lemma_moves_ok_cat(
        pos,
        spec_ray_from(pos, from, -1, 0, 1) + spec_ray_from(pos, from, 0, -1, 1) + spec_ray_from(
            pos,
            from,
            0,
            1,
            1,
        ),
        spec_ray_from(pos, from, 1, 0, 1),
    );
}

/// Every square listed for an occupancy set is on the board.
pub proof fn lemma_squares_wf(b: u64, n: int)
    requires
        0 <= n <= 64,
    ensures
        forall|k: int|
            0 <= k < spec_squares_upto(b, n).len() ==> (#[trigger] spec_squares_upto(b, n)[k]).wf(),
    decreases n,
{
    if n > 0 {
        lemma_squares_wf(b, n - 1);
        let s0 = spec_squares_upto(b, n - 1);
        let s = spec_squares_upto(b, n);
        assert forall|k: int| 0 <= k < s.len() implies (#[trigger] s[k]).wf() by {
            if k < s0.len() {
                assert(s[k] == s0[k]);
            } else {
                assert(s[k] == spec_square_of(n - 1));
            }
        }
    }
}

proof fn lemma_cat_pawn_ok(pos: Position, s: Seq<Square>, n: int)
    requires
        forall|k: int| 0 <= k < s.len() ==> (#[trigger] s[k]).wf(),
        n <= s.len(),
    ensures
        moves_ok(pos, cat_pawn(pos, s, n)),
    decreases n,
{
    if n > 0 {
        lemma_cat_pawn_ok(pos, s, n - 1);
        lemma_pawn_ok(pos, s[n - 1]);
        lemma_moves_ok_cat(pos, cat_pawn(pos, s, n - 1), spec_pawn_moves_at(pos, s[n - 1]));
    }
}

proof fn lemma_cat_knight_ok(pos: Position, s: Seq<Square>, n: int)
    requires
        forall|k: int| 0 <= k < s.len() ==> (#[trigger] s[k]).wf(),
        n <= s.len(),
    ensures
        moves_ok(pos, cat_knight(pos, s, n)),
    decreases n,
{
    if n > 0 {
        lemma_cat_knight_ok(pos, s, n - 1);
        lemma_cat_jumps_ok(pos, s[n - 1], knight_offsets(), 8);
        lemma_moves_ok_cat(pos, cat_knight(pos, s, n - 1), spec_knight_moves_at(pos, s[n - 1]));
    }
}

proof fn lemma_cat_diagonal_ok(pos: Position, s: Seq<Square>, n: int)
    requires
        forall|k: int| 0 <= k < s.len() ==> (#[trigger] s[k]).wf(),
        n <= s.len(),
    ensures
        moves_ok(pos, cat_diagonal(pos, s, n)),
    decreases n,
{
    if n > 0 {
        lemma_cat_diagonal_ok(pos, s, n - 1);
        lemma_diagonal_ok(pos, s[n - 1]);
        lemma_moves_ok_cat(pos, cat_diagonal(pos, s, n - 1), spec_diagonal_moves_at(pos, s[n - 1]));
    }
}

proof fn lemma_cat_orthogonal_ok(pos: Position, s: Seq<Square>, n: int)
    requires
        forall|k: int| 0 <= k < s.len() ==> (#[trigger] s[k]).wf(),
        n <= s.len(),
    ensures
        moves_ok(pos, cat_orthogonal(pos, s, n)),
    decreases n,
{
    if n > 0 {
        lemma_cat_orthogonal_ok(pos, s, n - 1);
        lemma_orthogonal_ok(pos, s[n - 1]);
        lemma_moves_ok_cat(
            pos,
            cat_orthogonal(pos, s, n - 1),
            spec_orthogonal_moves_at(pos, s[n - 1]),
        );
    }
}

proof fn lemma_cat_king_ok(pos: Position, s: Seq<Square>, n: int)
    requires
        forall|k: int| 0 <= k < s.len() ==> (#[trigger] s[k]).wf(),
        n <= s.len(),
    ensures
        moves_ok(pos, cat_king(pos, s, n)),
    decreases n,
{
    if n > 0 {
        lemma_cat_king_ok(pos, s, n - 1);
        lemma_cat_jumps_ok(pos, s[n - 1], king_offsets(), 8);
        lemma_moves_ok_cat(pos, cat_king(pos, s, n - 1), spec_king_moves_at(pos, s[n - 1]));
    }
}

/// Every move the generator emits satisfies `move_ok`.
pub proof fn lemma_moves_ok(pos: Position)
    ensures
        moves_ok(pos, spec_moves(pos)),
{
    let own_virtual = spec_virtual(pos).spec_player(pos.turn);
    let pawn_origins = spec_squares(own_virtual.pawns.0);
    let knight_origins = spec_squares(own_virtual.knights.0);
    let diagonal_origins = spec_squares(own_virtual.bishops.0 | own_virtual.queens.0);
    let orthogonal_origins = spec_squares(own_virtual.rooks.0 | own_virtual.queens.0);
    let king_origins = spec_squares(pos.spec_player(pos.turn).kings.0);
    lemma_squares_wf(own_virtual.pawns.0, 64);
    lemma_squares_wf(own_virtual.knights.0, 64);
    lemma_squares_wf(own_virtual.bishops.0 | own_virtual.queens.0, 64);
    lemma_squares_wf(own_virtual.rooks.0 | own_virtual.queens.0, 64);
    lemma_squares_wf(pos.spec_player(pos.turn).kings.0, 64);
    lemma_cat_pawn_ok(pos, pawn_origins, pawn_origins.len() as int);
    lemma_cat_knight_ok(pos, knight_origins, knight_origins.len() as int);
    lemma_cat_diagonal_ok(pos, diagonal_origins, diagonal_origins.len() as int);
    lemma_cat_orthogonal_ok(pos, orthogonal_origins, orthogonal_origins.len() as int);
    lemma_cat_king_ok(pos, king_origins, king_origins.len() as int);
    let a = cat_pawn(pos, pawn_origins, pawn_origins.len() as int);
    let b = cat_knight(pos, knight_origins, knight_origins.len() as int);
    let c = cat_diagonal(pos, diagonal_origins, diagonal_origins.len() as int);
    let d = cat_orthogonal(pos, orthogonal_origins, orthogonal_origins.len() as int);
    let e = cat_king(pos, king_origins, king_origins.len() as int);
    lemma_moves_ok_cat(pos, a, b);
    lemma_moves_ok_cat(pos, a + b, c);
    lemma_moves_ok_cat(pos, a + b + c, d);
    lemma_moves_ok_cat(pos, a + b + c + d, e);
}


/// When one side holds a square as some kind and holds each square as at
/// most one kind, no other kind's set holds that square.
proof fn lemma_only_piece(pp: PlayerPieces, sq: Square, i: u64)
    requires
        pp.kinds_disjoint(),
        sq.wf(),
        i == sq.index(),
    ensures
        forall|kind: Piece|
            #[trigger] bit64(pp.spec_pieces(kind).0, i) ==> pp.spec_piece_at(sq) == Some(kind),
{
    crate::board::lemma_bit_disjoint(pp.pawns.0, pp.knights.0, i);
    crate::board::lemma_bit_disjoint(pp.pawns.0, pp.bishops.0, i);
    crate::board::lemma_bit_disjoint(pp.pawns.0, pp.rooks.0, i);
    crate::board::lemma_bit_disjoint(pp.pawns.0, pp.queens.0, i);
    crate::board::lemma_bit_disjoint(pp.pawns.0, pp.kings.0, i);
    crate::board::lemma_bit_disjoint(pp.knights.0, pp.bishops.0, i);
    crate::board::lemma_bit_disjoint(pp.knights.0, pp.rooks.0, i);
    crate::board::lemma_bit_disjoint(pp.knights.0, pp.queens.0, i);
    crate::board::lemma_bit_disjoint(pp.knights.0, pp.kings.0, i);
    crate::board::lemma_bit_disjoint(pp.bishops.0, pp.rooks.0, i);
    crate::board::lemma_bit_disjoint(pp.bishops.0, pp.queens.0, i);
    crate::board::lemma_bit_disjoint(pp.bishops.0, pp.kings.0, i);
    crate::board::lemma_bit_disjoint(pp.rooks.0, pp.queens.0, i);
    crate::board::lemma_bit_disjoint(pp.rooks.0, pp.kings.0, i);
    crate::board::lemma_bit_disjoint(pp.queens.0, pp.kings.0, i);
}

/// Applying a generated move works out as recorded on the move: afterwards
/// the mover holds nothing at the origin, and holds exactly the promotion
/// kind — or else the moved kind — at the destination.
pub proof fn lemma_move_apply_consistency(pos: Position, m: Move)
    requires
        pos.spec_player(pos.turn).kinds_disjoint(),
        spec_moves(pos).contains(m),
    ensures
        spec_apply(pos, m).spec_player(pos.turn).spec_piece_at(m.from) is None,
        spec_apply(pos, m).spec_player(pos.turn).spec_piece_at(m.to) == Some(
            match m.promote_to {
                Some(p) => p,
                None => m.moved_piece,
            },
        ),
{
    lemma_moves_ok(pos);
    let k = choose|k: int| 0 <= k < spec_moves(pos).len() && spec_moves(pos)[k] == m;
    assert(move_ok(pos, m));
    let i_from: u64 = m.from.index() as u64;
    let i_to: u64 = m.to.index() as u64;
    assert(i_from < 64 && i_to < 64 && i_from != i_to);
    crate::board::lemma_bit_single_ops(i_from, i_to);
    let own0 = pos.spec_player(pos.turn);
    lemma_only_piece(own0, m.from, i_from);
    lemma_own_all_bit(own0, i_to);
    assert(bit64(own0.spec_pieces(m.moved_piece).0, i_from));
    let landing = match m.promote_to {
        Some(p) => p,
        None => m.moved_piece,
    };
    let own2 = spec_apply(pos, m).spec_player(pos.turn);
    assert(spec_apply(pos, m).spec_player(pos.turn.spec_other()) == (match m.captured_piece {
        Some(p) => pos.spec_player(pos.turn.spec_other()).spec_with_pieces(
            p,
            BitBoard(
                pos.spec_player(pos.turn.spec_other()).spec_pieces(p).0 & !(1u64 << i_to),
            ),
        ),
        None => pos.spec_player(pos.turn.spec_other()),
    }));
    assert(bit64(own0.spec_pieces(Piece::Pawn).0, i_from) ==> own0.spec_piece_at(m.from) == Some(
        Piece::Pawn,
    ));
    assert(bit64(own0.spec_pieces(Piece::Knight).0, i_from) ==> own0.spec_piece_at(m.from) == Some(
        Piece::Knight,
    ));
    assert(bit64(own0.spec_pieces(Piece::Bishop).0, i_from) ==> own0.spec_piece_at(m.from) == Some(
        Piece::Bishop,
    ));
    assert(bit64(own0.spec_pieces(Piece::Rook).0, i_from) ==> own0.spec_piece_at(m.from) == Some(
        Piece::Rook,
    ));
    assert(bit64(own0.spec_pieces(Piece::Queen).0, i_from) ==> own0.spec_piece_at(m.from) == Some(
        Piece::Queen,
    ));
    assert(bit64(own0.spec_pieces(Piece::King).0, i_from) ==> own0.spec_piece_at(m.from) == Some(
        Piece::King,
    ));
    assert(own2.spec_piece_at(m.from) is None);
    assert(own2.spec_piece_at(m.to) == Some(landing));
}

} // verus!
