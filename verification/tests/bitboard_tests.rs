use chess_engine::bitboard::{
    bitboard_squares, clear_bit, count_bits, generate_expected_knight_mask, get_bit,
    get_king_attacks, get_knight_attacks, initialize_engine, initialize_knight_attacks,
    is_bitboard_empty, iterate_bits, pop_lsb, set_bit, square_to_bitboard, BitboardManager,
};
use chess_engine::types::{Square, BLACK, KING, KNIGHT, PAWN, WHITE};

fn knight_corner_cases() {
    let a1_attacks = get_knight_attacks(0);
    let a1_count = count_bits(a1_attacks);
    assert_eq!(a1_count, 2, "Knight on a1 should have 2 attack squares");
    let h8_attacks = get_knight_attacks(63);
    let h8_count = count_bits(h8_attacks);
    assert_eq!(h8_count, 2, "Knight on h8 should have 2 attack squares");
}

#[test]
fn test_knight_attack_masks() {
    let table = initialize_knight_attacks();
    assert_eq!(table.len(), 64);
    let e4_square = 28;
    let e4_attacks = get_knight_attacks(e4_square);
    let expected_squares = [18, 34, 11, 43, 13, 45, 22, 38];
    for &square in &expected_squares {
        assert!(
            get_bit(e4_attacks, square),
            "Knight on e4 should attack square {}",
            square
        );
    }
    let attack_count = count_bits(e4_attacks);
    assert_eq!(
        attack_count, 8,
        "Knight on e4 should have exactly 8 attack squares, got {}",
        attack_count
    );
    assert_eq!(table[28], e4_attacks);
    knight_corner_cases();
}

#[test]
fn debug_knight_mask_issue() {
    let square = 59u8;
    let file = square % 8;
    let rank = square / 8;
    let mut direct_mask = 0u64;
    let knight_offsets = [
        (-2, -1),
        (-2, 1),
        (-1, -2),
        (-1, 2),
        (1, -2),
        (1, 2),
        (2, -1),
        (2, 1),
    ];
    for (df, dr) in knight_offsets {
        let new_file = file as i8 + df;
        let new_rank = rank as i8 + dr;
        if new_file >= 0 && new_file < 8 && new_rank >= 0 && new_rank < 8 {
            let target_square = (new_rank * 8 + new_file) as u8;
            direct_mask |= 1u64 << target_square;
        }
    }
    let static_mask = get_knight_attacks(59);
    let direct_includes_53 = get_bit(direct_mask, 53);
    let static_includes_53 = get_bit(static_mask, 53);
    assert_eq!(direct_includes_53, static_includes_53);
    assert_eq!(
        direct_mask, static_mask,
        "Static array should match direct generation"
    );
}

#[test]
fn test_all_knight_masks_comprehensive() {
    let table = initialize_knight_attacks();
    let mut total_errors = 0;
    let mut failed_squares = Vec::new();
    for square in 0..64u8 {
        let expected_mask = generate_expected_knight_mask(square);
        let actual_mask = get_knight_attacks(square);
        if expected_mask != actual_mask || table[square as usize] != actual_mask {
            total_errors += 1;
            failed_squares.push(square);
        }
    }
    if total_errors > 0 {
        panic!("{} knight mask(s) failed validation: {:?}", total_errors, failed_squares);
    }
}

#[test]
fn bit_operations() {
    let mut bb = 0u64;
    set_bit(&mut bb, 0);
    set_bit(&mut bb, 63);
    set_bit(&mut bb, 17);
    assert_eq!(bb, 1 | (1 << 63) | (1 << 17));
    assert!(get_bit(bb, 17));
    assert!(!get_bit(bb, 16));
    clear_bit(&mut bb, 17);
    assert_eq!(bb, 1 | (1 << 63));
    assert_eq!(square_to_bitboard(5), 32);
    assert!(is_bitboard_empty(0));
    assert!(!is_bitboard_empty(bb));
}

#[test]
fn count_bits_counts_ones() {
    assert_eq!(count_bits(0), 0);
    assert_eq!(count_bits(0b1011), 3);
    assert_eq!(count_bits(u64::MAX), 64);
    assert_eq!(count_bits(1 << 40), 1);
}

#[test]
fn pop_lsb_takes_lowest_bit() {
    let mut bb = 0b101000u64;
    assert_eq!(pop_lsb(&mut bb), Some(3));
    assert_eq!(bb, 0b100000);
    assert_eq!(pop_lsb(&mut bb), Some(5));
    assert_eq!(bb, 0);
    assert_eq!(pop_lsb(&mut bb), None);
    assert_eq!(bb, 0);
}

#[test]
fn iterator_walks_bits_in_order() {
    let mut it = iterate_bits((1 << 1) | (1 << 9) | (1 << 62));
    assert_eq!(it.next(), Some(1));
    assert_eq!(it.next(), Some(9));
    assert_eq!(it.next(), Some(62));
    assert_eq!(it.next(), None);
    let squares = bitboard_squares((1 << 2) | (1 << 63));
    assert_eq!(squares, vec![Square(2), Square(63)]);
}

#[test]
fn king_masks() {
    assert_eq!(count_bits(get_king_attacks(0)), 3);
    assert_eq!(count_bits(get_king_attacks(28)), 8);
    assert_eq!(get_king_attacks(0), (1 << 1) | (1 << 8) | (1 << 9));
    let (knights, kings) = initialize_engine();
    assert_eq!(knights.len(), 64);
    assert_eq!(kings[28], get_king_attacks(28));
}

#[test]
fn manager_tracks_squares() {
    let mut manager = BitboardManager::new();
    assert_eq!(manager.all_pieces, 0);
    manager.update_square(Square(4), KING | WHITE);
    manager.update_square(Square(60), KING | BLACK);
    manager.update_square(Square(12), PAWN | WHITE);
    assert_eq!(manager.white_king, 1 << 4);
    assert_eq!(manager.black_king, 1 << 60);
    assert_eq!(manager.white_pieces, (1 << 4) | (1 << 12));
    assert_eq!(manager.all_pieces, (1 << 4) | (1 << 12) | (1 << 60));
    assert_eq!(manager.get_pieces(WHITE, PAWN), 1 << 12);
    assert_eq!(manager.get_pieces(3, PAWN), 0);
    assert_eq!(manager.get_all_pieces(BLACK), 1 << 60);
    assert_eq!(manager.count_pieces(WHITE, PAWN), 1);
    assert_eq!(manager.find_pieces(WHITE, KING), vec![Square(4)]);
    assert!(manager.is_occupied(Square(12)));
    assert!(!manager.is_occupied(Square(13)));
    assert!(manager.is_occupied_by(Square(60), BLACK));
    assert!(!manager.is_occupied_by(Square(60), WHITE));
    manager.update_square(Square(12), KNIGHT | WHITE);
    assert_eq!(manager.white_pawns, 0);
    assert_eq!(manager.white_knights, 1 << 12);
    manager.update_square(Square(12), 0);
    assert_eq!(manager.white_pieces, 1 << 4);
    let mut squares = [0u8; 64];
    squares[0] = 12;
    squares[63] = 4;
    manager.rebuild_from_squares(&squares);
    assert_eq!(manager.white_rooks, 1);
    assert_eq!(manager.black_rooks, 1 << 63);
    assert_eq!(manager.white_king, 0);
    assert_eq!(manager.all_pieces, 1 | (1 << 63));
}
