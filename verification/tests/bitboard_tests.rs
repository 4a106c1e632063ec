use chess_rot_engine::bitboard::BitBoard;

#[test]
fn test_lsb() {
    let bb = BitBoard::from(0b1);
    assert_eq!(0, bb.lsb());
    let bb = BitBoard::from(0b10);
    assert_eq!(1, bb.lsb());
    let bb = BitBoard::from(0b11);
    assert_eq!(0, bb.lsb());
    let bb = BitBoard::from(0b1000);
    assert_eq!(3, bb.lsb());
    let bb = BitBoard::from(0b1000000000000000000000000000000000000000000000000000000000000000);
    assert_eq!(63, bb.lsb());
}

#[test]
fn test_msb() {
    let bb = BitBoard::from(0b1);
    assert_eq!(0, bb.msb());
    let bb = BitBoard::from(0b10);
    assert_eq!(1, bb.msb());

    let bb = BitBoard::from(0b11);
    assert_eq!(1, bb.msb());

    let bb = BitBoard::from(0b1000);
    assert_eq!(3, bb.msb());

    let bb = BitBoard::from(0b1000000000000000000000000000000000000000000000000000000000000000);
    assert_eq!(63, bb.msb());

    let bb = BitBoard::from(0b0001000000000000000000000000000000000000000000000000000000000000);
    assert_eq!(60, bb.msb());
}

#[test]
fn bit_count_counts_set_bits() {
    assert_eq!(0, BitBoard::from(0).bit_count());
    assert_eq!(64, BitBoard::from(u64::MAX).bit_count());
    assert_eq!(3, BitBoard::from(0b101001).bit_count());
}

#[test]
fn mirrors_move_single_bits() {
    // a1 mirrored vertically is a8
    assert_eq!(1u64 << 56, BitBoard::from(1).mirrored_vertically().raw());
    // a1 mirrored horizontally is h1
    assert_eq!(1u64 << 7, BitBoard::from(1).mirrored_horizontally().raw());
    // b1 transposed along a1-h8 is a2
    assert_eq!(1u64 << 8, BitBoard::from(2).mirrored_a1h8().raw());
    // a1 reflected along a8-h1 is h8
    assert_eq!(1u64 << 63, BitBoard::from(1).mirrored_a8h1().raw());
}

#[test]
fn shifted_applies_file_and_rank_offsets() {
    // e4 is square 28; one step north-east is f5, square 37
    let e4 = BitBoard::from(1u64 << 28);
    assert_eq!(1u64 << 37, e4.shifted(1, 1).raw());
    // shifting off the a-file wraps to nothing
    let a4 = BitBoard::from(1u64 << 24);
    assert_eq!(0, a4.shifted(-1, 0).raw());
    // two files east, one rank north: a knight-like hop from e4 to g5
    assert_eq!(1u64 << 38, e4.shifted(2, 1).raw());
}

#[test]
fn remove_bit_clears_one_square() {
    let bb = BitBoard::from(0b1011);
    assert_eq!(0b1001, bb.remove_bit(1).raw());
    assert!(bb.is_bit_set(1));
    assert!(!bb.remove_bit(1).is_bit_set(1));
}
