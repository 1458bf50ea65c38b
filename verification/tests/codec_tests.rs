use chesscore::board::Square;
use chesscore::codec::format_board;
use chesscore::codec::parse;
use chesscore::position::Color;
use chesscore::position::Piece;

const START: &[u8] = b"rnbqkbnr\npppppppp\n........\n........\n........\n........\nPPPPPPPP\nRNBQKBNR\n";

#[test]
fn parse_format_round_trip_on_start_board() {
    let pos = parse(START).expect("start board parses");
    let out = format_board(&pos);
    assert_eq!(out.as_slice(), START);
}

#[test]
fn parse_format_round_trip_on_sparse_board() {
    let text: &[u8] = b"....k...\n........\n..n.....\n........\n...Q....\n........\nP......P\n....K...\n";
    let pos = parse(text).expect("board parses");
    assert_eq!(format_board(&pos).as_slice(), text);
}

#[test]
fn start_board_pieces_land_where_expected() {
    let pos = parse(START).expect("start board parses");
    assert_eq!(pos.white.pawns.0, 0xff00);
    assert_eq!(pos.white.rooks.0, 0x81);
    assert_eq!(pos.white.knights.0, 0x42);
    assert_eq!(pos.white.bishops.0, 0x24);
    assert_eq!(pos.white.queens.0, 0x08);
    assert_eq!(pos.white.kings.0, 0x10);
    assert_eq!(pos.black.pawns.0, 0x00ff000000000000);
    assert_eq!(pos.black.kings.0, 0x1000000000000000);
    assert_eq!(pos.turn, Color::White);
    assert_eq!(
        pos.white.piece_at(Square::new(0, 3)),
        Some(Piece::Queen)
    );
}

#[test]
fn nine_column_row_fails_past_the_rows_end() {
    let text: &[u8] = b"PPPPPPPPP\n........\n........\n........\n........\n........\n........\n........\n";
    let err = parse(text).expect_err("a ninth column must fail");
    assert_eq!(err.rank(), 7);
    assert_eq!(err.file(), 8);
}

#[test]
fn unrecognized_byte_fails_at_its_own_square() {
    let text: &[u8] = b"....x...\n";
    let err = parse(text).expect_err("an unknown piece letter must fail");
    assert_eq!(err.rank(), 7);
    assert_eq!(err.file(), 4);
}

#[test]
fn short_input_leaves_the_rest_empty() {
    let pos = parse(b"r.......\n").expect("one row parses");
    assert_eq!(pos.black.rooks.0, 1u64 << 56);
    assert_eq!(pos.white.all().0, 0);
}
