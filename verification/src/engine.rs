//! The search session: a history of positions plus two depth caps, and a
//! recursive negamax search with a repetition cutoff, an immediate
//! King-capture short circuit, look-ahead move ordering, heuristic pruning,
//! and a progressive discount of deep lines.
use vstd::prelude::*;

use crate::evaluation::SCORE_MAX;
use crate::evaluation::SCORE_MIN;
use crate::evaluation::evaluate;
use crate::evaluation::spec_evaluate;
use crate::evaluation::lemma_evaluate_bounded;
use crate::moves::Move;
use crate::moves::apply_move;
use crate::moves::lemma_moves_ok;
use crate::moves::move_ok;
use crate::moves::moves;
use crate::moves::spec_apply;
use crate::moves::spec_moves;
use crate::position::Color;
use crate::position::Piece;
use crate::position::Position;

verus! {

/// How often `p` occurs among the first `n` positions of `hist`.
pub open spec fn count_eq(hist: Seq<Position>, p: Position, n: int) -> int
    decreases n,
{
    if n <= 0 {
        0
    } else {
        count_eq(hist, p, n - 1) + if hist[n - 1] == p {
            1int
        } else {
            0int
        }
    }
}

/// The first move of `mvs`, from index `i` on, that captures a King.
pub open spec fn spec_first_king_capture(mvs: Seq<Move>, i: int) -> Option<Move>
    decreases mvs.len() - i,
    when 0 <= i <= mvs.len()
{
    if i >= mvs.len() {
        None
    } else if mvs[i].captured_piece == Some(Piece::King) {
        Some(mvs[i])
    } else {
        spec_first_king_capture(mvs, i + 1)
    }
}

/// `-a`, within `i64`; exact for every value the search handles, since
/// scores never reach the type's extremes.
pub open spec fn neg64(a: i64) -> i64 {
    (-(a as int)) as i64
}

/// A searched advantage discounted to three quarters, truncating towards
/// zero: deeper, more speculative lines count for less.
pub open spec fn spec_scale(a: int) -> int {
    (if a >= 0 {
        a / 4
    } else {
        -((-a) / 4)
    }) * 3
}

pub open spec fn scale64(a: i64) -> i64 {
    spec_scale(a as int) as i64
}

fn scale_advantage(a: i64) -> (r: i64)
    requires
        SCORE_MIN <= a <= SCORE_MAX,
    ensures
        r == scale64(a),
        SCORE_MIN <= r <= SCORE_MAX,
{
    a / 4 * 3
}

/// The advantage of a search result, or 0 where the search returned none.
pub open spec fn eval_or_zero(r: Option<(Move, i64)>) -> i64 {
    match r {
        Some((_, e)) => e,
        None => 0,
    }
}

/// The measure that shrinks along every recursion of the search: how far the
/// current depth still is from the hard cap.
pub open spec fn search_measure(depth: i64, hard: i64) -> int {
    if depth >= hard {
        0
    } else {
        hard - depth
    }
}

/// The conditions under which the search functions are specified: a history
/// with at least a root, a non-negative depth, and ordered caps small enough
/// that depth arithmetic stays exact.
pub open spec fn search_args_ok(hist: Seq<Position>, soft: i64, hard: i64, depth: i64) -> bool {
    hist.len() >= 1 && 0 <= depth && 0 <= soft && soft <= hard && hard <= 100000
}

/// The look-ahead keys for the first `n` moves: each move is probed by a
/// search at double the next depth with an unrestricted threshold, and keyed
/// by the probe's advantage — 0 when the probe returns none.
pub open spec fn spec_keys(
    hist: Seq<Position>,
    soft: i64,
    hard: i64,
    depth: i64,
    mvs: Seq<Move>,
    n: int,
) -> Seq<(i64, Move)>
    decreases search_measure(depth, hard), 1int, n,
    when search_args_ok(hist, soft, hard, depth) && depth < soft
{
    if n <= 0 {
        Seq::empty()
    } else {
        let m = mvs[n - 1];
        let probe = spec_search(
            hist.push(spec_apply(hist.last(), m)),
            soft,
            hard,
            ((depth + 1) * 2) as i64,
            SCORE_MAX,
        );
        spec_keys(hist, soft, hard, depth, mvs, n - 1).push((eval_or_zero(probe), m))
    }
}

/// Stable insertion of a keyed move: after every move whose key is not
/// greater, so that equal keys keep their original order.
pub open spec fn spec_insert_keyed(x: (i64, Move), s: Seq<(i64, Move)>) -> Seq<(i64, Move)>
    decreases s.len(),
{
    if s.len() == 0 {
        seq![x]
    } else if s[0].0 <= x.0 {
        seq![s[0]] + spec_insert_keyed(x, s.drop_first())
    } else {
        seq![x] + s
    }
}

/// The stable ascending-by-key sort of the first `n` keyed moves.
pub open spec fn spec_sort_keyed(s: Seq<(i64, Move)>, n: int) -> Seq<(i64, Move)>
    decreases n,
{
    if n <= 0 {
        Seq::empty()
    } else {
        spec_insert_keyed(s[n - 1], spec_sort_keyed(s, n - 1))
    }
}

/// The moves of a keyed sequence, keys dropped.
pub open spec fn spec_strip_keys(s: Seq<(i64, Move)>, n: int) -> Seq<Move>
    decreases n,
{
    if n <= 0 {
        Seq::empty()
    } else {
        spec_strip_keys(s, n - 1).push(s[n - 1].1)
    }
}

/// The candidate moves in the order the principal pass scans them: sorted
/// ascending by look-ahead key while the depth is below the soft cap, else
/// as generated.
pub open spec fn spec_ordered_moves(
    hist: Seq<Position>,
    soft: i64,
    hard: i64,
    depth: i64,
    mvs: Seq<Move>,
) -> Seq<Move>
    decreases search_measure(depth, hard), 2int, 0int,
    when search_args_ok(hist, soft, hard, depth)
{
    if depth < soft {
        let keys = spec_keys(hist, soft, hard, depth, mvs, mvs.len() as int);
        let sorted = spec_sort_keyed(keys, keys.len() as int);
        spec_strip_keys(sorted, sorted.len() as int)
    } else {
        mvs
    }
}

/// The principal negamax pass from candidate `i` on, carrying the best
/// (move, advantage) so far. Scanning stops once the best advantage reaches
/// the caller's threshold. Below the soft cap every candidate recurses; from
/// the soft cap to the hard cap only captures recurse and the rest take a
/// static score; at the hard cap everything is static. Recursion deepens by
/// 1, 2 or 3 plies for the first, middle and last third of the candidates,
/// and every advantage is negated to the mover's perspective and discounted
/// to three quarters.
pub open spec fn spec_scan(
    hist: Seq<Position>,
    soft: i64,
    hard: i64,
    depth: i64,
    threshold: i64,
    mvs: Seq<Move>,
    i: int,
    best: Option<(Move, i64)>,
) -> Option<(Move, i64)>
    decreases search_measure(depth, hard), 0int, mvs.len() - i,
    when search_args_ok(hist, soft, hard, depth) && 0 <= i <= mvs.len()
{
    if i >= mvs.len() {
        best
    } else {
        let old_advantage = match best {
            Some((_, a)) => a,
            None => SCORE_MIN,
        };
        if old_advantage >= threshold {
            best
        } else {
            let m = mvs[i];
            let shallow = depth < soft;
            let deepening = depth < hard;
            let capturing = m.captured_piece is Some;
            let advantage = if shallow || (deepening && capturing) {
                let step: i64 = if i < mvs.len() / 3 {
                    1
                } else if i < 2 * mvs.len() / 3 {
                    2
                } else {
                    3
                };
                scale64(
                    neg64(
                        eval_or_zero(
                            spec_search(
                                hist.push(spec_apply(hist.last(), m)),
                                soft,
                                hard,
                                (depth + step) as i64,
                                neg64(old_advantage),
                            ),
                        ),
                    ),
                )
            } else {
                scale64(neg64(spec_evaluate(spec_apply(hist.last(), m)) as i64))
            };
            let best2 = match best {
                None => Some((m, advantage)),
                Some((_, a)) => if a < advantage {
                    Some((m, advantage))
                } else {
                    best
                },
            };
            spec_scan(hist, soft, hard, depth, threshold, mvs, i + 1, best2)
        }
    }
}

/// One search node. When the current position already occurs more than twice
/// in the history, none (the anti-repetition cutoff). When a candidate
/// captures a King outright, that move with the maximal advantage — the
/// engine's sole checkmate signal. Otherwise the principal pass over the
/// ordered candidates; none when there are no candidates at all.
pub open spec fn spec_search(
    hist: Seq<Position>,
    soft: i64,
    hard: i64,
    depth: i64,
    threshold: i64,
) -> Option<(Move, i64)>
    decreases search_measure(depth, hard), 3int, 0int,
    when search_args_ok(hist, soft, hard, depth)
{
    let pos = hist.last();
    if count_eq(hist, pos, hist.len() as int) > 2 {
        None
    } else {
        let mvs = spec_moves(pos);
        match spec_first_king_capture(mvs, 0) {
            Some(m) => Some((m, SCORE_MAX)),
            None => spec_scan(
                hist,
                soft,
                hard,
                depth,
                threshold,
                spec_ordered_moves(hist, soft, hard, depth, mvs),
                0,
                None,
            ),
        }
    }
}

/// The standard starting position.
pub open spec fn spec_start_position() -> Position {
    Position {
        white: crate::position::PlayerPieces {
            pawns: crate::board::BitBoard(0xff00),
            knights: crate::board::BitBoard(0x42),
            bishops: crate::board::BitBoard(0x24),
            rooks: crate::board::BitBoard(0x81),
            queens: crate::board::BitBoard(0x08),
            kings: crate::board::BitBoard(0x10),
        },
        black: crate::position::PlayerPieces {
            pawns: crate::board::BitBoard(0x00ff000000000000),
            knights: crate::board::BitBoard(0x4200000000000000),
            bishops: crate::board::BitBoard(0x2400000000000000),
            rooks: crate::board::BitBoard(0x8100000000000000),
            queens: crate::board::BitBoard(0x0800000000000000),
            kings: crate::board::BitBoard(0x1000000000000000),
        },
        turn: Color::White,
    }
}

pub fn start_position() -> (r: Position)
    ensures
        r == spec_start_position(),
{
    Position {
        white: crate::position::PlayerPieces {
            pawns: crate::board::BitBoard(0xff00),
            knights: crate::board::BitBoard(0x42),
            bishops: crate::board::BitBoard(0x24),
            rooks: crate::board::BitBoard(0x81),
            queens: crate::board::BitBoard(0x08),
            kings: crate::board::BitBoard(0x10),
        },
        black: crate::position::PlayerPieces {
            pawns: crate::board::BitBoard(0x00ff000000000000),
            knights: crate::board::BitBoard(0x4200000000000000),
            bishops: crate::board::BitBoard(0x2400000000000000),
            rooks: crate::board::BitBoard(0x8100000000000000),
            queens: crate::board::BitBoard(0x0800000000000000),
            kings: crate::board::BitBoard(0x1000000000000000),
        },
        turn: Color::White,
    }
}

/// A search session: the positions reached so far — the root plus one per
/// played ply — and the soft and hard depth caps.
pub struct Engine {
    pub game_history: Vec<Position>,
    pub recursion_depth_soft_cap: i64,
    pub recursion_depth_hard_cap: i64,
}

impl Engine {
    pub open spec fn history(self) -> Seq<Position> {
        self.game_history@
    }

    pub open spec fn soft_cap(self) -> i64 {
        self.recursion_depth_soft_cap
    }

    pub open spec fn hard_cap(self) -> i64 {
        self.recursion_depth_hard_cap
    }

    /// A session always has at least its root position and ordered,
    /// reasonably small caps.
    pub open spec fn wf(self) -> bool {
        self.history().len() >= 1 && 0 <= self.soft_cap() && self.soft_cap() <= self.hard_cap()
            && self.hard_cap() <= 100000
    }

    /// A session at the standard starting position, with a soft cap of 5 and
    /// a hard cap of 8.
    pub fn new() -> (r: Engine)
        ensures
            r.wf(),
            r.history() == seq![spec_start_position()],
            r.soft_cap() == 5,
            r.hard_cap() == 8,
    {
        let mut game_history: Vec<Position> = Vec::new();
        game_history.push(start_position());
        proof {
            assert(game_history@ =~= seq![spec_start_position()]);
        }
        Engine { game_history, recursion_depth_soft_cap: 5, recursion_depth_hard_cap: 8 }
    }

    /// A session rooted at `pos` with the given caps.
    pub fn from_position(pos: &Position, soft_cap: i64, hard_cap: i64) -> (r: Engine)
        requires
            0 <= soft_cap <= hard_cap <= 100000,
        ensures
            r.wf(),
            r.history() == seq![*pos],
            r.soft_cap() == soft_cap,
            r.hard_cap() == hard_cap,
    {
        let mut game_history: Vec<Position> = Vec::new();
        game_history.push(*pos);
        proof {
            assert(game_history@ =~= seq![*pos]);
        }
        Engine {
            game_history,
            recursion_depth_soft_cap: soft_cap,
            recursion_depth_hard_cap: hard_cap,
        }
    }

    pub fn current_position(&self) -> (r: &Position)
        requires
            self.wf(),
        ensures
            *r == self.history().last(),
    {
        &self.game_history[self.game_history.len() - 1]
    }

    /// Pushes the position an externally supplied move leads to.
    pub fn input_move(&mut self, mov: Move)
        requires
            old(self).wf(),
            mov.from.wf(),
            mov.to.wf(),
        ensures
            final(self).wf(),
            final(self).history() == old(self).history().push(
                spec_apply(old(self).history().last(), mov),
            ),
            final(self).soft_cap() == old(self).soft_cap(),
            final(self).hard_cap() == old(self).hard_cap(),
    {
        let next = apply_move(self.current_position(), mov);
        self.game_history.push(next);
    }

    /// Pops the most recent ply; a no-op at the root.
    pub fn roll_back(&mut self)
        requires
            old(self).wf(),
        ensures
            final(self).wf(),
            final(self).history() == if old(self).history().len() > 1 {
                old(self).history().drop_last()
            } else {
                old(self).history()
            },
            final(self).soft_cap() == old(self).soft_cap(),
            final(self).hard_cap() == old(self).hard_cap(),
    {
        if self.game_history.len() > 1 {
            self.game_history.pop();
        }
    }

    /// A pure query for the best move: it returns exactly the value of
    /// `spec_search` on the session's state at depth 0 with an unrestricted
    /// threshold, and leaves the session as it was — so two calls on an
    /// unmodified session return identical results.
    pub fn suggest_move(&mut self) -> (r: Option<(Move, i64)>)
        requires
            old(self).wf(),
        ensures
            final(self).history() == old(self).history(),
            final(self).soft_cap() == old(self).soft_cap(),
            final(self).hard_cap() == old(self).hard_cap(),
            r == spec_search(
                old(self).history(),
                old(self).soft_cap(),
                old(self).hard_cap(),
                0,
                SCORE_MAX,
            ),
            r is Some ==> r->Some_0.0.from.wf() && r->Some_0.0.to.wf() && SCORE_MIN
                <= r->Some_0.1 <= SCORE_MAX,
    {
        self.suggest_move_internal(0, SCORE_MAX)
    }

    /// `suggest_move`, and when it finds a move, that move is also played:
    /// its position is pushed durably.
    pub fn suggest_and_play_move(&mut self) -> (r: Option<(Move, i64)>)
        requires
            old(self).wf(),
        ensures
            final(self).wf(),
            r == spec_search(
                old(self).history(),
                old(self).soft_cap(),
                old(self).hard_cap(),
                0,
                SCORE_MAX,
            ),
            final(self).history() == match r {
                Some((m, _)) => old(self).history().push(
                    spec_apply(old(self).history().last(), m),
                ),
                None => old(self).history(),
            },
            final(self).soft_cap() == old(self).soft_cap(),
            final(self).hard_cap() == old(self).hard_cap(),
    {
        match self.suggest_move() {
            Some((mov, advantage)) => {
                self.input_move(mov);
                Some((mov, advantage))
            },
            None => None,
        }
    }

    #[verifier::rlimit(100)]
    #[verifier::loop_isolation(false)]
    fn suggest_move_internal(&mut self, current_depth: i64, prune_threshold: i64) -> (r: Option<
        (Move, i64),
    >)
        requires
            old(self).wf(),
            0 <= current_depth <= 2 * old(self).hard_cap() + 2,
        ensures
            final(self).history() == old(self).history(),
            final(self).soft_cap() == old(self).soft_cap(),
            final(self).hard_cap() == old(self).hard_cap(),
            r == spec_search(
                old(self).history(),
                old(self).soft_cap(),
                old(self).hard_cap(),
                current_depth,
                prune_threshold,
            ),
            r is Some ==> r->Some_0.0.from.wf() && r->Some_0.0.to.wf() && SCORE_MIN
                <= r->Some_0.1 <= SCORE_MAX,
        decreases search_measure(current_depth, old(self).hard_cap()),
    {
        let ghost hist0 = self.history();
        let ghost soft = self.soft_cap();
        let ghost hard = self.hard_cap();
        let repetitions = count_current(&self.game_history);
        if repetitions > 2 {
            return None;
        }
        let current_position: Position = *self.current_position();
        let legal_moves: Vec<Move> = moves(&current_position);
        proof {
            lemma_moves_ok(current_position);
        }
        match find_king_capture(&legal_moves) {
            Some(mov) => {
                proof {
                    lemma_first_king_capture_is_member(legal_moves@, 0);
                }
                return Some((mov, SCORE_MAX));
            },
            None => {},
        }
        let shallow = current_depth < self.recursion_depth_soft_cap;
        let ordered: Vec<Move> = if shallow {
            let mut keys: Vec<(i64, Move)> = Vec::new();
            let mut i: usize = 0;
            while i < legal_moves.len()
                invariant
                    self.wf(),
                    self.history() == hist0,
                    self.soft_cap() == soft,
                    self.hard_cap() == hard,
                    current_depth < soft,
                    0 <= current_depth <= 2 * hard + 2,
                    0 <= i <= legal_moves@.len(),
                    current_position == hist0.last(),
                    crate::moves::moves_ok(current_position, legal_moves@),
                    legal_moves@ == spec_moves(current_position),
                    keys@ == spec_keys(hist0, soft, hard, current_depth, legal_moves@, i as int),
                    keys@.len() == i,
                    forall|k: int|
                        0 <= k < keys@.len() ==> move_ok(
                            current_position,
                            (#[trigger] keys@[k]).1,
                        ),
                decreases legal_moves@.len() - i,
            {
                let m = legal_moves[i];
                self.input_move(m);
                proof {
                    assert(search_measure(((current_depth + 1) * 2) as i64, hard) < search_measure(
                        current_depth,
                        hard,
                    ));
                }
                let probe = self.suggest_move_internal((current_depth + 1) * 2, SCORE_MAX);
                self.roll_back();
                proof {
                    assert(hist0.push(spec_apply(hist0.last(), m)).drop_last() =~= hist0);
                }
                let key = match probe {
                    Some((_, e)) => e,
                    None => 0,
                };
                keys.push((key, m));
                proof {
                    assert(keys@ =~= spec_keys(
                        hist0,
                        soft,
                        hard,
                        current_depth,
                        legal_moves@,
                        i as int + 1,
                    ));
                }
                i = i + 1;
            }
            sorted_moves(Ghost(current_position), keys)
        } else {
            legal_moves
        };
        proof {
            assert(ordered@ == spec_ordered_moves(
                hist0,
                soft,
                hard,
                current_depth,
                spec_moves(current_position),
            ));
        }
        let ghost ordered_seq = ordered@;
        let mut best: Option<(Move, i64)> = None;
        let mut i: usize = 0;
        while i < ordered.len()
            invariant
                self.wf(),
                self.history() == hist0,
                self.soft_cap() == soft,
                self.hard_cap() == hard,
                0 <= current_depth <= 2 * hard + 2,
                0 <= i <= ordered_seq.len(),
                ordered_seq == ordered@,
                current_position == hist0.last(),
                crate::moves::moves_ok(current_position, ordered_seq),
                spec_scan(hist0, soft, hard, current_depth, prune_threshold, ordered_seq, 0, None)
                    == spec_scan(
                    hist0,
                    soft,
                    hard,
                    current_depth,
                    prune_threshold,
                    ordered_seq,
                    i as int,
                    best,
                ),
                best is Some ==> best->Some_0.0.from.wf() && best->Some_0.0.to.wf() && SCORE_MIN
                    <= best->Some_0.1 <= SCORE_MAX,
            decreases ordered_seq.len() - i,
        {
            let old_advantage = match best {
                Some((_, a)) => a,
                None => SCORE_MIN,
            };
            if old_advantage >= prune_threshold {
                return best;
            }
            let m = ordered[i];
            let deepening = current_depth < self.recursion_depth_hard_cap;
            let capturing = match m.captured_piece {
                Some(_) => true,
                None => false,
            };
            let advantage: i64;
            if shallow || (deepening && capturing) {
                let step: i64 = if (i as u128) < (ordered.len() as u128) / 3 {
                    1
                } else if (i as u128) < 2 * (ordered.len() as u128) / 3 {
                    2
                } else {
                    3
                };
                self.input_move(m);
                proof {
                    assert(search_measure((current_depth + step) as i64, hard) < search_measure(
                        current_depth,
                        hard,
                    ));
                }
                let sub = self.suggest_move_internal(current_depth + step, -old_advantage);
                self.roll_back();
                proof {
                    assert(hist0.push(spec_apply(hist0.last(), m)).drop_last() =~= hist0);
                }
                let e = match sub {
                    Some((_, ev)) => ev,
                    None => 0,
                };
                advantage = scale_advantage(-e);
            } else {
                proof {
                    lemma_evaluate_bounded(spec_apply(current_position, m));
                }
                let e = evaluate(&apply_move(&current_position, m));
                advantage = scale_advantage(-e);
            }
            let next_best = match best {
                Some((_, a)) => if a < advantage {
                    Some((m, advantage))
                } else {
                    best
                },
                None => Some((m, advantage)),
            };
            best = next_best;
            i = i + 1;
        }
        best
    }
}

/// A found King capture is one of the listed moves.
proof fn lemma_first_king_capture_is_member(mvs: Seq<Move>, i: int)
    requires
        0 <= i <= mvs.len(),
    ensures
        match spec_first_king_capture(mvs, i) {
            Some(m) => mvs.contains(m),
            None => true,
        },
    decreases mvs.len() - i,
{
    if i < mvs.len() {
        if mvs[i].captured_piece == Some(Piece::King) {
            assert(mvs.contains(mvs[i]));
        } else {
            lemma_first_king_capture_is_member(mvs, i + 1);
        }
    }
}

fn count_current(hist: &Vec<Position>) -> (r: usize)
    requires
        hist@.len() >= 1,
    ensures
        r == count_eq(hist@, hist@.last(), hist@.len() as int),
{
    let current: Position = hist[hist.len() - 1];
    let mut count: usize = 0;
    let mut i: usize = 0;
    while i < hist.len()
        invariant
            hist@.len() >= 1,
            0 <= i <= hist@.len(),
            current == hist@.last(),
            count == count_eq(hist@, hist@.last(), i as int),
            count <= i,
        decreases hist@.len() - i,
    {
        if hist[i] == current {
            count = count + 1;
        }
        i = i + 1;
    }
    count
}

fn find_king_capture(mvs: &Vec<Move>) -> (r: Option<Move>)
    ensures
        r == spec_first_king_capture(mvs@, 0),
{
    let mut i: usize = 0;
    while i < mvs.len()
        invariant
            0 <= i <= mvs@.len(),
            spec_first_king_capture(mvs@, 0) == spec_first_king_capture(mvs@, i as int),
        decreases mvs@.len() - i,
    {
        let captures_king = match mvs[i].captured_piece {
            Some(Piece::King) => true,
            _ => false,
        };
        if captures_king {
            return Some(mvs[i]);
        }
        i = i + 1;
    }
    None
}

/// `spec_insert_keyed` inserts exactly at the first index whose key is
/// greater than the inserted key.
proof fn lemma_insert_keyed_at(x: (i64, Move), s: Seq<(i64, Move)>, j: int)
    requires
        0 <= j <= s.len(),
        forall|k: int| 0 <= k < j ==> (#[trigger] s[k]).0 <= x.0,
        j < s.len() ==> s[j].0 > x.0,
    ensures
        spec_insert_keyed(x, s) == s.take(j) + seq![x] + s.skip(j),
    decreases j,
{
    if j == 0 {
        if s.len() == 0 {
            assert(spec_insert_keyed(x, s) =~= s.take(0) + seq![x] + s.skip(0));
        } else {
            assert(spec_insert_keyed(x, s) =~= s.take(0) + seq![x] + s.skip(0));
        }
    } else {
        assert(s[0].0 <= x.0);
        lemma_insert_keyed_at(x, s.drop_first(), j - 1);
        assert(spec_insert_keyed(x, s) == seq![s[0]] + spec_insert_keyed(x, s.drop_first()));
        assert(spec_insert_keyed(x, s) =~= s.take(j) + seq![x] + s.skip(j));
    }
}

/// Whatever the stable insertion emits is the inserted element or one of the
/// sequence it was inserted into.
proof fn lemma_insert_keyed_membership(x: (i64, Move), s: Seq<(i64, Move)>, k: int)
    requires
        0 <= k < s.len() + 1,
    ensures
        spec_insert_keyed(x, s).len() == s.len() + 1,
        spec_insert_keyed(x, s)[k] == x || s.contains(spec_insert_keyed(x, s)[k]),
    decreases s.len(),
{
    lemma_insert_keyed_len(x, s);
    let ins = spec_insert_keyed(x, s);
    if s.len() == 0 {
    } else if s[0].0 <= x.0 {
        if k == 0 {
            assert(ins[0] == s[0]);
            assert(s.contains(s[0]));
        } else {
            lemma_insert_keyed_len(x, s.drop_first());
            lemma_insert_keyed_membership(x, s.drop_first(), k - 1);
            let y = spec_insert_keyed(x, s.drop_first())[k - 1];
            assert(ins[k] == y);
            if y != x {
                let j = choose|j: int| 0 <= j < s.drop_first().len() && s.drop_first()[j] == y;
                assert(s[j + 1] == y);
                assert(s.contains(y));
            }
        }
    } else {
        if k > 0 {
            assert(ins[k] == s[k - 1]);
            assert(s.contains(s[k - 1]));
        }
    }
}

proof fn lemma_insert_keyed_len(x: (i64, Move), s: Seq<(i64, Move)>)
    ensures
        spec_insert_keyed(x, s).len() == s.len() + 1,
    decreases s.len(),
{
    if s.len() > 0 && s[0].0 <= x.0 {
        lemma_insert_keyed_len(x, s.drop_first());
    }
}

proof fn lemma_sort_keyed_len(s: Seq<(i64, Move)>, n: int)
    requires
        0 <= n <= s.len(),
    ensures
        spec_sort_keyed(s, n).len() == n,
    decreases n,
{
    if n > 0 {
        lemma_sort_keyed_len(s, n - 1);
        lemma_insert_keyed_len(s[n - 1], spec_sort_keyed(s, n - 1));
    }
}

/// Every element the sort emits is an element of its input.
proof fn lemma_sort_keyed_membership(s: Seq<(i64, Move)>, n: int, k: int)
    requires
        0 <= n <= s.len(),
        0 <= k < spec_sort_keyed(s, n).len(),
    ensures
        s.contains(spec_sort_keyed(s, n)[k]),
    decreases n,
{
    if n > 0 {
        let prev = spec_sort_keyed(s, n - 1);
        lemma_sort_keyed_len(s, n - 1);
        lemma_insert_keyed_len(s[n - 1], prev);
        lemma_insert_keyed_membership(s[n - 1], prev, k);
        let y = spec_sort_keyed(s, n)[k];
        if y == s[n - 1] {
            assert(s.contains(y));
        } else {
            assert(prev.contains(y));
            let j = choose|j: int| 0 <= j < prev.len() && prev[j] == y;
            lemma_sort_keyed_membership(s, n - 1, j);
        }
    }
}

/// Sorts keyed moves stably, ascending by key, and hands back the moves in
/// that order; the moves emitted are moves of the input, so every
/// well-formedness fact about the input moves carries over.
#[verifier::loop_isolation(false)]
fn sorted_moves(pos: Ghost<Position>, keys: Vec<(i64, Move)>) -> (r: Vec<Move>)
    requires
        forall|k: int|
            0 <= k < keys@.len() ==> move_ok(pos@, (#[trigger] keys@[k]).1),
    ensures
        r@ == spec_strip_keys(
            spec_sort_keyed(keys@, keys@.len() as int),
            spec_sort_keyed(keys@, keys@.len() as int).len() as int,
        ),
        forall|k: int| 0 <= k < r@.len() ==> move_ok(pos@, #[trigger] r@[k]),
        r@.len() == keys@.len(),
{
    let mut sorted: Vec<(i64, Move)> = Vec::new();
    let mut i: usize = 0;
    while i < keys.len()
        invariant
            0 <= i <= keys@.len(),
            sorted@ == spec_sort_keyed(keys@, i as int),
            sorted@.len() == i,
        decreases keys@.len() - i,
    {
        let x = keys[i];
        let mut j: usize = 0;
        while j < sorted.len() && sorted[j].0 <= x.0
            invariant
                0 <= j <= sorted@.len(),
                forall|k: int| 0 <= k < j ==> (#[trigger] sorted@[k]).0 <= x.0,
            decreases sorted@.len() - j,
        {
            j = j + 1;
        }
        proof {
            lemma_insert_keyed_at(x, sorted@, j as int);
        }
        sorted.insert(j, x);
        proof {
            assert(sorted@ =~= spec_sort_keyed(keys@, i as int + 1));
            lemma_sort_keyed_len(keys@, i as int + 1);
        }
        i = i + 1;
    }
    proof {
        assert forall|k: int| 0 <= k < sorted@.len() implies move_ok(
            pos@,
            (#[trigger] sorted@[k]).1,
        ) by {
            lemma_sort_keyed_membership(keys@, keys@.len() as int, k);
            let y = sorted@[k];
            let j = choose|j: int| 0 <= j < keys@.len() && keys@[j] == y;
        }
    }
    let ghost sorted_seq = sorted@;
    let mut out: Vec<Move> = Vec::new();
    let mut i: usize = 0;
    while i < sorted.len()
        invariant
            0 <= i <= sorted_seq.len(),
            sorted_seq == sorted@,
            out@ == spec_strip_keys(sorted_seq, i as int),
            out@.len() == i,
            forall|k: int|
                0 <= k < sorted_seq.len() ==> move_ok(pos@, (#[trigger] sorted_seq[k]).1),
            forall|k: int| 0 <= k < out@.len() ==> move_ok(pos@, #[trigger] out@[k]),
        decreases sorted_seq.len() - i,
    {
        out.push(sorted[i].1);
        i = i + 1;
    }
    out
}


/// The search is a pure function of the session state: two suggestions from
/// the same unmodified session are identical.
pub proof fn lemma_suggest_move_deterministic(
    hist: Seq<Position>,
    soft: i64,
    hard: i64,
    r1: Option<(Move, i64)>,
    r2: Option<(Move, i64)>,
)
    requires
        r1 == spec_search(hist, soft, hard, 0, SCORE_MAX),
        r2 == spec_search(hist, soft, hard, 0, SCORE_MAX),
    ensures
        r1 == r2,
{
}

/// A session whose history already holds the current position more than
/// twice suggests no move at all, whatever the material.
pub proof fn lemma_repetition_cutoff(hist: Seq<Position>, soft: i64, hard: i64)
    requires
        search_args_ok(hist, soft, hard, 0),
        count_eq(hist, hist.last(), hist.len() as int) > 2,
    ensures
        spec_search(hist, soft, hard, 0, SCORE_MAX) is None,
{
}

/// When a candidate captures the opponent's King outright — the engine's
/// sole checkmate signal — the search returns the first such candidate with
/// the maximal advantage, and looks no further.
pub proof fn lemma_king_capture_short_circuit(
    hist: Seq<Position>,
    soft: i64,
    hard: i64,
    m: Move,
)
    requires
        search_args_ok(hist, soft, hard, 0),
        count_eq(hist, hist.last(), hist.len() as int) <= 2,
        spec_first_king_capture(spec_moves(hist.last()), 0) == Some(m),
    ensures
        spec_search(hist, soft, hard, 0, SCORE_MAX) == Some((m, SCORE_MAX)),
{
}

proof fn lemma_keys_len(
    hist: Seq<Position>,
    soft: i64,
    hard: i64,
    depth: i64,
    mvs: Seq<Move>,
    n: int,
)
    requires
        search_args_ok(hist, soft, hard, depth),
        depth < soft,
        0 <= n,
    ensures
        spec_keys(hist, soft, hard, depth, mvs, n).len() == n,
    decreases n,
{
    if n > 0 {
        lemma_keys_len(hist, soft, hard, depth, mvs, n - 1);
    }
}

proof fn lemma_strip_keys_len(s: Seq<(i64, Move)>, n: int)
    requires
        0 <= n,
    ensures
        spec_strip_keys(s, n).len() == n,
    decreases n,
{
    if n > 0 {
        lemma_strip_keys_len(s, n - 1);
    }
}

/// Reordering keeps the number of candidates.
proof fn lemma_ordered_len(hist: Seq<Position>, soft: i64, hard: i64, depth: i64, mvs: Seq<Move>)
    requires
        search_args_ok(hist, soft, hard, depth),
    ensures
        spec_ordered_moves(hist, soft, hard, depth, mvs).len() == mvs.len(),
{
    if depth < soft {
        lemma_keys_len(hist, soft, hard, depth, mvs, mvs.len() as int);
        let keys = spec_keys(hist, soft, hard, depth, mvs, mvs.len() as int);
        lemma_sort_keyed_len(keys, keys.len() as int);
        lemma_strip_keys_len(
            spec_sort_keyed(keys, keys.len() as int),
            spec_sort_keyed(keys, keys.len() as int).len() as int,
        );
    }
}

/// The principal pass never loses a best candidate it already holds, and
/// finds one as soon as any candidate is left to scan above the floor
/// threshold.
proof fn lemma_scan_some(
    hist: Seq<Position>,
    soft: i64,
    hard: i64,
    depth: i64,
    threshold: i64,
    mvs: Seq<Move>,
    i: int,
    best: Option<(Move, i64)>,
)
    requires
        search_args_ok(hist, soft, hard, depth),
        0 <= i <= mvs.len(),
        best is Some || (i < mvs.len() && threshold > SCORE_MIN),
    ensures
        spec_scan(hist, soft, hard, depth, threshold, mvs, i, best) is Some,
    decreases mvs.len() - i,
{
    if i >= mvs.len() {
    } else {
        let old_advantage = match best {
            Some((_, a)) => a,
            None => SCORE_MIN,
        };
        if old_advantage >= threshold {
        } else {
            lemma_scan_some(
                hist,
                soft,
                hard,
                depth,
                threshold,
                mvs,
                i + 1,
                match best {
                    None => Some(
                        (
                            mvs[i],
                            spec_scan_advantage(hist, soft, hard, depth, threshold, mvs, i, best),
                        ),
                    ),
                    Some((_, a)) => if a < spec_scan_advantage(
                        hist,
                        soft,
                        hard,
                        depth,
                        threshold,
                        mvs,
                        i,
                        best,
                    ) {
                        Some(
                            (
                                mvs[i],
                                spec_scan_advantage(
                                    hist,
                                    soft,
                                    hard,
                                    depth,
                                    threshold,
                                    mvs,
                                    i,
                                    best,
                                ),
                            ),
                        )
                    } else {
                        best
                    },
                },
            );
        }
    }
}

/// The advantage the principal pass computes for candidate `i`; named so the
/// induction above can speak of the updated best.
pub open spec fn spec_scan_advantage(
    hist: Seq<Position>,
    soft: i64,
    hard: i64,
    depth: i64,
    threshold: i64,
    mvs: Seq<Move>,
    i: int,
    best: Option<(Move, i64)>,
) -> i64 {
    let old_advantage = match best {
        Some((_, a)) => a,
        None => SCORE_MIN,
    };
    let m = mvs[i];
    if depth < soft || (depth < hard && m.captured_piece is Some) {
        let step: i64 = if i < mvs.len() / 3 {
            1
        } else if i < 2 * mvs.len() / 3 {
            2
        } else {
            3
        };
        scale64(
            neg64(
                eval_or_zero(
                    spec_search(
                        hist.push(spec_apply(hist.last(), m)),
                        soft,
                        hard,
                        (depth + step) as i64,
                        neg64(old_advantage),
                    ),
                ),
            ),
        )
    } else {
        scale64(neg64(spec_evaluate(spec_apply(hist.last(), m)) as i64))
    }
}

/// Short of the repetition cutoff and with an unrestricted threshold, the
/// search finds a move exactly when the position has any candidate at all —
/// so a checkmated side, whose every candidate is still a move, gets a move,
/// and only a side with no candidates gets none.
pub proof fn lemma_search_some(hist: Seq<Position>, soft: i64, hard: i64, depth: i64)
    requires
        search_args_ok(hist, soft, hard, depth),
        count_eq(hist, hist.last(), hist.len() as int) <= 2,
    ensures
        spec_search(hist, soft, hard, depth, SCORE_MAX) is Some <==> spec_moves(
            hist.last(),
        ).len() > 0,
    decreases search_measure(depth, hard), 4int, 0int,
{
    let mvs = spec_moves(hist.last());
    match spec_first_king_capture(mvs, 0) {
        Some(m) => {
            assert(mvs.len() > 0);
        },
        None => {
            let ordered = spec_ordered_moves(hist, soft, hard, depth, mvs);
            lemma_ordered_len(hist, soft, hard, depth, mvs);
            if mvs.len() > 0 {
                lemma_scan_some(hist, soft, hard, depth, SCORE_MAX, ordered, 0, None);
            }
        },
    }
}

} // verus!
