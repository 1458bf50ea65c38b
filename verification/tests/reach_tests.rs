use chesscore::board::Square;
use chesscore::codec::parse;
use chesscore::moves::moves;
use chesscore::moves::Move;
use chesscore::position::Piece;

#[test]
fn full_rank_of_white_rooks_reaches_exactly_itself() {
    // Rank 3 (the fourth row from the bottom) holds eight White rooks and no
    // other rook exists anywhere: the White rook reach is that rank exactly.
    let pos = parse(b"....k...\n........\n........\n........\nRRRRRRRR\n........\n........\n....K...\n")
        .expect("board parses");
    assert_eq!(pos.white.rooks.0, 0xffu64 << 24);
    let virt = pos.to_virtual_position();
    assert_eq!(virt.white.rooks.0, 0xffu64 << 24);
}

#[test]
fn full_rank_of_black_knights_reaches_exactly_itself() {
    let pos = parse(b"....k...\n........\nnnnnnnnn\n........\n........\n........\n........\n....K...\n")
        .expect("board parses");
    assert_eq!(pos.black.knights.0, 0xffu64 << 40);
    let virt = pos.to_virtual_position();
    assert_eq!(virt.black.knights.0, 0xffu64 << 40);
}

#[test]
fn lone_piece_in_its_rank_reaches_its_own_square() {
    // A scan wraps around its rank and, meeting nothing else, lands back on
    // its own square.
    let pos = parse(b"....k...\n........\n........\n........\n...Q....\n........\n........\n....K...\n")
        .expect("board parses");
    let virt = pos.to_virtual_position();
    assert_eq!(virt.white.queens.0, pos.white.queens.0);
}

#[test]
fn reach_origins_may_hold_a_different_kind() {
    // White pawn a2 and White knight b2 share a rank: the pawn's scan lands
    // on the knight's square, so a pawn-shaped move is emitted for the
    // knight that stands there — and the knight's scan lands on the pawn's
    // square, so knight-shaped jumps are emitted for the pawn.
    let pos = parse(b"....k...\n........\n........\n........\n........\n........\nPN......\n....K...\n")
        .expect("board parses");
    let mvs = moves(&pos);
    let pawn_shaped_knight_move = Move {
        moved_piece: Piece::Knight,
        from: Square::new(1, 1),
        to: Square::new(2, 1),
        captured_piece: None,
        promote_to: None,
    };
    assert!(mvs.contains(&pawn_shaped_knight_move));
    let knight_shaped_pawn_move = Move {
        moved_piece: Piece::Pawn,
        from: Square::new(1, 0),
        to: Square::new(3, 1),
        captured_piece: None,
        promote_to: None,
    };
    assert!(mvs.contains(&knight_shaped_pawn_move));
}

#[test]
fn pawn_on_the_far_rank_expands_into_four_promotions() {
    let pos = parse(b"........\nP.......\n........\n........\n........\n........\n........\n........\n")
        .expect("board parses");
    let mvs = moves(&pos);
    let promotions: Vec<&Move> = mvs
        .iter()
        .filter(|m| m.from == Square::new(6, 0) && m.to == Square::new(7, 0))
        .collect();
    assert_eq!(promotions.len(), 4);
    assert_eq!(promotions[0].promote_to, Some(Piece::Knight));
    assert_eq!(promotions[1].promote_to, Some(Piece::Bishop));
    assert_eq!(promotions[2].promote_to, Some(Piece::Rook));
    assert_eq!(promotions[3].promote_to, Some(Piece::Queen));
    assert!(promotions.iter().all(|m| m.moved_piece == Piece::Pawn));
}
