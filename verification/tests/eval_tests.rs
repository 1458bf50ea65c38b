use chesscore::codec::parse;
use chesscore::evaluation::evaluate;
use chesscore::evaluation::SCORE_MAX;
use chesscore::evaluation::SCORE_MIN;
use chesscore::position::Color;

#[test]
fn missing_own_king_is_the_loss_sentinel_whatever_the_material() {
    // White to move with no White King at all: the loss sentinel, even with a
    // big material lead.
    let pos = parse(b"....k...\n........\n........\n........\n........\n........\n........\nQQQQRRNN\n")
        .expect("board parses");
    assert_eq!(evaluate(&pos), SCORE_MIN);
}

#[test]
fn missing_opponent_king_is_the_win_sentinel_whatever_the_material() {
    // White to move and Black has no King: the win sentinel, even though
    // Black is far ahead in material.
    let pos = parse(b"qqqqrrnn\n........\n........\n........\n........\n........\n........\n....K...\n")
        .expect("board parses");
    assert_eq!(evaluate(&pos), SCORE_MAX);
}

#[test]
fn two_own_kings_also_give_the_loss_sentinel() {
    let pos = parse(b"....k...\n........\n........\n........\n........\n........\n........\n...KK...\n")
        .expect("board parses");
    assert_eq!(evaluate(&pos), SCORE_MIN);
}

#[test]
fn bare_kings_score_zero() {
    let pos = parse(b"....k...\n........\n........\n........\n........\n........\n........\n....K...\n")
        .expect("board parses");
    assert_eq!(evaluate(&pos), 0);
}

#[test]
fn queen_advantage_has_the_exact_weighted_score() {
    // White queen d1, White king e1, Black king e8: literal material 9,
    // virtual-reach material 9 (the queen's scan lands on the king square),
    // positional term 5 from the queen's reach square inside the queen mask.
    let pos = parse(b"....k...\n........\n........\n........\n........\n........\n........\n...QK...\n")
        .expect("board parses");
    assert_eq!(evaluate(&pos), 9 * 10000 + 9 * 1000 + 5 * 100);
}

#[test]
fn evaluation_is_from_the_movers_perspective() {
    let text = b"....k...\n........\n........\n........\n........\n........\n........\n...QK...\n";
    let mut pos = parse(text).expect("board parses");
    let white_view = evaluate(&pos);
    pos.turn = Color::Black;
    let black_view = evaluate(&pos);
    assert_eq!(white_view, -black_view);
    assert!(white_view > 0);
}
