use chesscore::board::BitBoard;
use chesscore::board::Square;
use chesscore::board::SquareDiff;
use chesscore::moves::squares_list;

#[test]
fn square_maps_to_its_bit_position_and_back() {
    let sq = Square::new(3, 4);
    assert_eq!(sq.to_bit_position(), 28);
    let back = Square::from_bit_position(28);
    assert_eq!(back.rank(), 3);
    assert_eq!(back.file(), 4);
}

#[test]
fn square_offsets_stay_on_the_board_or_fail() {
    let sq = Square::new(0, 0);
    assert_eq!(
        sq.try_add(SquareDiff { rank_diff: 1, file_diff: 1 }),
        Some(Square::new(1, 1))
    );
    assert_eq!(sq.try_add(SquareDiff { rank_diff: -1, file_diff: 0 }), None);
    assert_eq!(sq.try_add(SquareDiff { rank_diff: 0, file_diff: -1 }), None);
    assert_eq!(
        Square::new(7, 7).try_add(SquareDiff { rank_diff: 0, file_diff: 1 }),
        None
    );
}

#[test]
fn bitboard_set_unset_has_size() {
    let mut b = BitBoard(0);
    assert_eq!(b.size(), 0);
    b.set(Square::new(2, 2));
    b.set(Square::new(5, 7));
    assert!(b.has(Square::new(2, 2)));
    assert!(b.has(Square::new(5, 7)));
    assert!(!b.has(Square::new(0, 0)));
    assert_eq!(b.size(), 2);
    b.unset(Square::new(2, 2));
    assert!(!b.has(Square::new(2, 2)));
    assert_eq!(b.size(), 1);
}

#[test]
fn offset_and_mask_for_one_file_step() {
    let (offset, mask) = SquareDiff { rank_diff: 0, file_diff: 1 }.to_bit_offset_and_mask();
    assert_eq!(offset, 1);
    assert_eq!(mask, 0x7f7f7f7f7f7f7f7f);
    let (offset, mask) = SquareDiff { rank_diff: 0, file_diff: -7 }.to_bit_offset_and_mask();
    assert_eq!(offset, -7);
    assert_eq!(mask, 0x8080808080808080);
}

#[test]
fn offset_and_mask_for_one_rank_step_and_out_of_range() {
    let (offset, mask) = SquareDiff { rank_diff: 1, file_diff: 0 }.to_bit_offset_and_mask();
    assert_eq!(offset, 8);
    assert_eq!(mask, 0x00ffffffffffffff);
    assert_eq!(
        SquareDiff { rank_diff: 8, file_diff: 0 }.to_bit_offset_and_mask(),
        (0, 0)
    );
    assert_eq!(
        SquareDiff { rank_diff: 0, file_diff: -8 }.to_bit_offset_and_mask(),
        (0, 0)
    );
}

#[test]
fn squares_list_is_ascending() {
    let squares = squares_list((1u64 << 3) | (1u64 << 17) | (1u64 << 63));
    assert_eq!(squares.len(), 3);
    assert_eq!(squares[0], Square::new(0, 3));
    assert_eq!(squares[1], Square::new(2, 1));
    assert_eq!(squares[2], Square::new(7, 7));
}
