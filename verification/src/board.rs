//! Board primitives: squares, square offsets, and 64-bit occupancy sets.
//!
//! A square is addressed by a file and a rank, each in `[0, 8)`, and maps to
//! the bit position `rank * 8 + file` of a 64-bit occupancy set, so each of
//! the eight one-byte "ranks" of the word is one rank of the board.
use vstd::prelude::*;

verus! {

/// True when bit `i` of `b` is set.
pub open spec fn bit64(b: u64, i: u64) -> bool {
    (b >> i) & 1 == 1
}

/// One square of the board. A well-formed square has both coordinates in
/// `[0, 8)`; a square outside that range is only ever used to report where
/// parsing failed.
#[derive(Clone, Copy, Debug, PartialEq, Eq, Structural)]
pub struct Square {
    pub file: u8,
    pub rank: u8,
}

impl Square {
    /// Both coordinates are on the board.
    pub open spec fn wf(self) -> bool {
        self.file < 8 && self.rank < 8
    }

    /// The bit position of this square in an occupancy set.
    pub open spec fn index(self) -> int {
        self.rank * 8 + self.file
    }

    pub fn new(rank: u8, file: u8) -> (r: Square)
        requires
            rank < 8,
            file < 8,
        ensures
            r == (Square { file, rank }),
    {
        Square { rank, file }
    }

    pub fn rank(&self) -> (r: u8)
        ensures
            r == self.rank,
    {
        self.rank
    }

    pub fn file(&self) -> (r: u8)
        ensures
            r == self.file,
    {
        self.file
    }

    pub fn to_bit_position(&self) -> (r: u8)
        requires
            self.wf(),
        ensures
            r == self.index(),
    {
        self.rank * 8 + self.file
    }

    pub fn from_bit_position(position: u8) -> (r: Square)
        requires
            position < 64,
        ensures
            r == spec_square_of(position as int),
            r.wf(),
    {
        Square { file: position % 8, rank: position / 8 }
    }

    /// Moves the square by an offset; `None` when either coordinate would
    /// leave `[0, 8)`. There is no wraparound here.
    pub fn try_add(self, diff: SquareDiff) -> (r: Option<Square>)
        requires
            self.wf(),
        ensures
            r == spec_offset(self, diff.rank_diff as int, diff.file_diff as int),
    {
        let rank = self.rank as i16 + diff.rank_diff as i16;
        let file = self.file as i16 + diff.file_diff as i16;
        if file < 0 || 8 <= file {
            return None;
        }
        if rank < 0 || 8 <= rank {
            return None;
        }
        Some(Square { file: file as u8, rank: rank as u8 })
    }
}

/// The square with bit position `i`.
pub open spec fn spec_square_of(i: int) -> Square {
    Square { file: (i % 8) as u8, rank: (i / 8) as u8 }
}

/// `sq` moved by `(rank_diff, file_diff)`, or `None` when that leaves the
/// board.
pub open spec fn spec_offset(sq: Square, rank_diff: int, file_diff: int) -> Option<Square> {
    let rank = sq.rank + rank_diff;
    let file = sq.file + file_diff;
    if 0 <= file < 8 && 0 <= rank < 8 {
        Some(Square { file: file as u8, rank: rank as u8 })
    } else {
        None
    }
}

/// A (rank, file) offset between squares.
#[derive(Clone, Copy, Debug, PartialEq, Eq, Structural)]
pub struct SquareDiff {
    pub file_diff: i8,
    pub rank_diff: i8,
}

impl SquareDiff {
    /// The offset scaled by a step count; used to walk a ray one square at a
    /// time.
    pub fn times(self, steps: i8) -> (r: SquareDiff)
        requires
            -1 <= self.file_diff <= 1,
            -1 <= self.rank_diff <= 1,
            0 <= steps <= 8,
        ensures
            r.file_diff == self.file_diff * steps,
            r.rank_diff == self.rank_diff * steps,
    {
        proof {
            assert(-8 <= self.file_diff as int * steps as int <= 8 && -8 <= self.rank_diff as int
                * steps as int <= 8) by (nonlinear_arith)
                requires
                    -1 <= self.file_diff <= 1,
                    -1 <= self.rank_diff <= 1,
                    0 <= steps <= 8,
            ;
        }
        SquareDiff { file_diff: self.file_diff * steps, rank_diff: self.rank_diff * steps }
    }

    /// For an offset with both magnitudes below 8, the bit-shift amount and
    /// the validity mask that together move every square of an occupancy set
    /// by this offset: shifting the masked set by the offset keeps exactly
    /// the squares whose destination is still on the board. Two calls, with
    /// a file offset `d` and with `d - 8`, together implement a per-rank
    /// circular shift by `d` files.
    pub fn to_bit_offset_and_mask(&self) -> (r: (i8, u64))
        ensures
            r == spec_offset_and_mask(self.rank_diff, self.file_diff),
    {
        if self.rank_diff <= -8 || self.rank_diff >= 8 || self.file_diff <= -8 || self.file_diff
            >= 8 {
            return (0, 0);
        }
        let offset = self.rank_diff * 8 + self.file_diff;
        let row_mask: u64 = if self.rank_diff >= 0 {
            u64::MAX >> ((self.rank_diff * 8) as u64)
        } else {
            u64::MAX << (((-self.rank_diff) * 8) as u64)
        };
        let file_mask: u64 = if self.file_diff >= 0 {
            bit_range(0, (8 - self.file_diff) as u8)
        } else {
            bit_range((-self.file_diff) as u8, 8)
        };
        let file_mask: u64 = file_mask << 56 | file_mask << 48 | file_mask << 40 | file_mask << 32
            | file_mask << 24 | file_mask << 16 | file_mask << 8 | file_mask;
        (offset, row_mask & file_mask)
    }
}

pub open spec fn spec_abs(x: int) -> int {
    if x < 0 {
        -x
    } else {
        x
    }
}

/// Bits `[start, end)` of a 64-bit word, within one byte.
pub open spec fn spec_bit_range(start: u8, end: u8) -> u64 {
    let a: u64 = if end == 63 {
        u64::MAX
    } else {
        ((1u64 << (end as u64)) - 1) as u64
    };
    let b: u64 = if start == 63 {
        u64::MAX
    } else {
        ((1u64 << (start as u64)) - 1) as u64
    };
    a & !b
}

fn bit_range(start: u8, end: u8) -> (r: u64)
    requires
        start < 64,
        end < 64,
    ensures
        r == spec_bit_range(start, end),
{
    proof {
        assert(forall|e: u64| e < 64 ==> (1u64 << e) >= 1) by (bit_vector);
    }
    let a: u64 = if end == 63 {
        u64::MAX
    } else {
        (1u64 << (end as u64)) - 1
    };
    let b: u64 = if start == 63 {
        u64::MAX
    } else {
        (1u64 << (start as u64)) - 1
    };
    a & !b
}

/// The shift amount and the validity mask for a (rank, file) offset: the mask
/// keeps the squares whose destination under the offset is still on the
/// board, and the shift moves each kept bit to that destination.
pub open spec fn spec_offset_and_mask(rank_diff: i8, file_diff: i8) -> (i8, u64) {
    if spec_abs(rank_diff as int) >= 8 || spec_abs(file_diff as int) >= 8 {
        (0, 0)
    } else {
        let offset = (rank_diff * 8 + file_diff) as i8;
        let row_mask: u64 = if rank_diff >= 0 {
            u64::MAX >> ((rank_diff * 8) as u64)
        } else {
            u64::MAX << (((-rank_diff as int) * 8) as u64)
        };
        let file_mask: u64 = if file_diff >= 0 {
            spec_bit_range(0, (8 - file_diff) as u8)
        } else {
            spec_bit_range((-file_diff as int) as u8, 8)
        };
        let file_mask: u64 = file_mask << 56 | file_mask << 48 | file_mask << 40 | file_mask << 32
            | file_mask << 24 | file_mask << 16 | file_mask << 8 | file_mask;
        (offset, row_mask & file_mask)
    }
}

/// The number of set bits among the `n` lowest bits of `b`.
pub open spec fn count_bits_upto(b: u64, n: int) -> nat
    decreases n,
{
    if n <= 0 {
        0
    } else {
        count_bits_upto(b, n - 1) + if bit64(b, (n - 1) as u64) {
            1nat
        } else {
            0nat
        }
    }
}

/// The number of set bits of `b`.
pub open spec fn popcount(b: u64) -> nat {
    count_bits_upto(b, 64)
}

pub proof fn lemma_count_bits_upto_le(b: u64, n: int)
    requires
        0 <= n,
    ensures
        count_bits_upto(b, n) <= n,
    decreases n,
{
    if n > 0 {
        lemma_count_bits_upto_le(b, n - 1);
    }
}

/// A 64-bit occupancy set: one bit per square.
#[derive(Clone, Copy, Debug, Hash, PartialEq, Eq, Structural)]
pub struct BitBoard(pub u64);

impl BitBoard {
    /// True when `square` is in the set.
    pub open spec fn spec_has(self, square: Square) -> bool {
        bit64(self.0, square.index() as u64)
    }

    /// How many squares the set holds.
    pub fn size(&self) -> (r: usize)
        ensures
            r == popcount(self.0),
    {
        let mut count: usize = 0;
        let mut i: u64 = 0;
        while i < 64
            invariant
                0 <= i <= 64,
                count == count_bits_upto(self.0, i as int),
            decreases 64 - i,
        {
            proof {
                lemma_count_bits_upto_le(self.0, i as int);
            }
            if (self.0 >> i) & 1 == 1 {
                count = count + 1;
            }
            i = i + 1;
        }
        count
    }

    pub fn has(&self, square: Square) -> (r: bool)
        requires
            square.wf(),
        ensures
            r == self.spec_has(square),
    {
        (self.0 >> square.to_bit_position() as u64) & 1 == 1
    }

    pub fn set(&mut self, square: Square)
        requires
            old(self).wf_square_arg(square),
        ensures
            final(self).0 == old(self).0 | (1u64 << square.index() as u64),
    {
        self.0 = self.0 | (1u64 << (square.to_bit_position() as u64));
    }

    pub fn unset(&mut self, square: Square)
        requires
            old(self).wf_square_arg(square),
        ensures
            final(self).0 == old(self).0 & !(1u64 << square.index() as u64),
    {
        self.0 = self.0 & !(1u64 << (square.to_bit_position() as u64));
    }

    /// `set` and `unset` address a bit by the square's position, so the
    /// square must be on the board.
    pub open spec fn wf_square_arg(self, square: Square) -> bool {
        square.wf()
    }
}

/// How clearing the bit `f` and setting the bit `t` read back, for every
/// occupancy set at once.
pub proof fn lemma_bit_single_ops(f: u64, t: u64)
    requires
        f < 64,
        t < 64,
    ensures
        forall|b: u64, j: u64|
            j < 64 ==> #[trigger] bit64(b & !(1u64 << f), j) == (bit64(b, j) && j != f),
        forall|b: u64, j: u64|
            j < 64 ==> #[trigger] bit64(b | (1u64 << t), j) == (bit64(b, j) || j == t),
{
    assert(forall|b: u64, j: u64|
        j < 64 ==> ((b & !(1u64 << f)) >> j) & 1 == (if (b >> j) & 1 == 1 && j != f {
            1u64
        } else {
            0u64
        })) by (bit_vector)
        requires
            f < 64,
    ;
    assert(forall|b: u64, j: u64|
        j < 64 ==> ((b | (1u64 << t)) >> j) & 1 == (if (b >> j) & 1 == 1 || j == t {
            1u64
        } else {
            0u64
        })) by (bit_vector)
        requires
            t < 64,
    ;
}

/// Two disjoint occupancy sets never share a square.
pub proof fn lemma_bit_disjoint(a: u64, b: u64, i: u64)
    requires
        a & b == 0,
    ensures
        !(bit64(a, i) && bit64(b, i)),
{
    assert(a & b == 0 ==> !((a >> i) & 1 == 1 && (b >> i) & 1 == 1)) by (bit_vector);
}

/// Membership in a union of occupancy sets.
pub proof fn lemma_bit_or(a: u64, b: u64, j: u64)
    ensures
        bit64(a | b, j) == (bit64(a, j) || bit64(b, j)),
{
    assert(((a | b) >> j) & 1 == 1 <==> ((a >> j) & 1 == 1 || (b >> j) & 1 == 1)) by (bit_vector);
}

} // verus!
