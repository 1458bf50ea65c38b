use chesscore::board::Square;
use chesscore::codec::parse;
use chesscore::engine::start_position;
use chesscore::engine::Engine;
use chesscore::evaluation::SCORE_MAX;
use chesscore::game::classify_position;
use chesscore::game::GameState;
use chesscore::game::HumanPlayer;
use chesscore::moves::apply_move;
use chesscore::moves::moves;
use chesscore::moves::Move;
use chesscore::position::Piece;

const START: &[u8] = b"rnbqkbnr\npppppppp\n........\n........\n........\n........\nPPPPPPPP\nRNBQKBNR\n";

fn plain(piece: Piece, from: Square, to: Square) -> Move {
    Move { moved_piece: piece, from, to, captured_piece: None, promote_to: None }
}

#[test]
fn start_position_matches_the_parsed_start_board() {
    let parsed = parse(START).expect("start board parses");
    assert_eq!(start_position(), parsed);
}

#[test]
fn suggest_move_is_deterministic_and_leaves_the_session_unchanged() {
    let pos = parse(START).expect("start board parses");
    let mut engine = Engine::from_position(&pos, 1, 2);
    let first = engine.suggest_move();
    let second = engine.suggest_move();
    assert_eq!(first, second);
    assert!(first.is_some());
    assert_eq!(*engine.current_position(), pos);
}

#[test]
fn repetition_cutoff_returns_no_move() {
    let mut engine = Engine::from_position(&start_position(), 1, 2);
    // Shuffle the knights out and back, twice: the starting position then
    // stands three times in the history.
    for _ in 0..2 {
        engine.input_move(plain(Piece::Knight, Square::new(0, 6), Square::new(2, 5)));
        engine.input_move(plain(Piece::Knight, Square::new(7, 6), Square::new(5, 5)));
        engine.input_move(plain(Piece::Knight, Square::new(2, 5), Square::new(0, 6)));
        engine.input_move(plain(Piece::Knight, Square::new(5, 5), Square::new(7, 6)));
    }
    assert_eq!(*engine.current_position(), start_position());
    assert_eq!(engine.suggest_move(), None);
}

#[test]
fn immediate_king_capture_returns_the_maximal_advantage() {
    // Adjacent kings, White to move: the White king can take the Black king
    // outright, the engine's checkmate signal.
    let pos = parse(b"........\n........\n........\n....k...\n...K....\n........\n........\n........\n")
        .expect("board parses");
    let mut engine = Engine::from_position(&pos, 0, 1);
    let (m, advantage) = engine.suggest_move().expect("a move is found");
    assert_eq!(advantage, SCORE_MAX);
    assert_eq!(m.captured_piece, Some(Piece::King));
    assert_eq!(m.to, Square::new(4, 4));
}

#[test]
fn checkmated_side_still_gets_a_move() {
    // Black to move, checkmated: every Black candidate lets White capture
    // the Black king in reply — yet the search still returns a move, never
    // none; here Black can even take the White king itself, the maximal
    // advantage.
    let pos = parse(b"k.......\n.K......\nP.......\n........\n........\n........\n........\n........\n")
        .expect("board parses");
    let mut black_to_move = pos;
    black_to_move.turn = chesscore::position::Color::Black;
    let mut engine = Engine::from_position(&black_to_move, 0, 1);
    let result = engine.suggest_move();
    assert!(result.is_some());
    assert_eq!(result.unwrap().1, SCORE_MAX);
}

#[test]
fn no_candidates_means_no_move() {
    // A side with no pieces at all has no candidates, so the search returns
    // none.
    let pos = parse(b"........\n........\n........\n........\n........\n........\n........\nK.......\n")
        .expect("board parses");
    let mut black_to_move = pos;
    black_to_move.turn = chesscore::position::Color::Black;
    let mut engine = Engine::from_position(&black_to_move, 0, 1);
    assert_eq!(engine.suggest_move(), None);
}

#[test]
fn moves_and_apply_agree_on_origin_and_destination() {
    // For every generated move, after applying it the mover holds nothing at
    // the origin, and holds at the destination the promotion kind or else
    // the moved kind.
    let pos = parse(START).expect("start board parses");
    for m in moves(&pos) {
        let after = apply_move(&pos, m);
        let mover = after.player(pos.turn);
        assert_eq!(mover.piece_at(m.from), None);
        let expected = m.promote_to.unwrap_or(m.moved_piece);
        assert_eq!(mover.piece_at(m.to), Some(expected));
    }
}

#[test]
fn suggest_and_play_move_pushes_the_suggested_position() {
    let pos = parse(START).expect("start board parses");
    let mut engine = Engine::from_position(&pos, 0, 1);
    let (m, _) = engine.suggest_and_play_move().expect("a move is found");
    assert_eq!(*engine.current_position(), apply_move(&pos, m));
    engine.roll_back();
    assert_eq!(*engine.current_position(), pos);
    // Rolling back at the root changes nothing.
    engine.roll_back();
    assert_eq!(*engine.current_position(), pos);
}

#[test]
fn classify_fresh_start_as_ongoing() {
    let history = vec![start_position()];
    assert_eq!(classify_position(&history), GameState::Ongoing);
}

#[test]
fn classify_three_fold_repetition_as_draw() {
    let s = start_position();
    let history = vec![s, s, s, s];
    assert_eq!(classify_position(&history), GameState::DrawByRepetition);
}

#[test]
fn classify_cornered_king_as_checkmate() {
    // Black king a8 in check from the White king on b7; every Black move —
    // a7, b8, or taking on b7 — lets White capture the Black king in reply
    // (the pawn on a6 recaptures on b7).
    let pos = parse(b"k.......\n.K......\nP.......\n........\n........\n........\n........\n........\n")
        .expect("board parses");
    let mut black_to_move = pos;
    black_to_move.turn = chesscore::position::Color::Black;
    let history = vec![black_to_move];
    assert_eq!(classify_position(&history), GameState::CheckMate);
}

#[test]
fn human_player_tracks_played_moves() {
    let pos = start_position();
    let mut player = HumanPlayer::from_position(&pos);
    assert_eq!(*player.current_position(), pos);
    let m = plain(Piece::Knight, Square::new(0, 6), Square::new(2, 5));
    player.input_move(m);
    assert_eq!(*player.current_position(), apply_move(&pos, m));
}
