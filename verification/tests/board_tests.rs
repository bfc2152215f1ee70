use persa_chess::board_components::{BitBoard, Color, Direction, MagicNumGenerator, Square};
use persa_chess::pieces::bishop::{bishop_attacks_on_fly, mask_bishop_attacks};
use persa_chess::pieces::helper_functions::{get_possible_occupancy, mask_direction};
use persa_chess::pieces::king::mask_king_attacks;
use persa_chess::pieces::knight::mask_knight_attacks;
use persa_chess::pieces::pawn::mask_pawn_attacks;
use persa_chess::pieces::pieces_structs::{build_square_table, Slider, SliderPieceTable};
use persa_chess::pieces::queen::generate_queen_attacks;
use persa_chess::pieces::rook::{mask_rook_attacks, rook_attacks_on_fly};
use persa_chess::pieces::tables::{
    create_king_table, create_knight_table, create_pawn_table, find_magic_number,
    generate_bishop_attacks, generate_king_attacks, generate_knight_attacks,
    generate_rook_attakcs, genereate_pawn_attacks, init_statics,
};
use persa_chess::constants::board_constants::{
    create_bishop_magics, create_bishop_move_counts, create_rook_magics, create_rook_move_counts,
};

#[test]
fn bitboard_sets_and_tests_squares() {
    let mut board = BitBoard::new();
    assert_eq!(board.0, 0);
    board.set_bit(Square(0));
    board.set_bit(Square(63));
    assert!(board.is_square_set(Square(0)));
    assert!(board.is_square_set(Square(63)));
    assert!(!board.is_square_set(Square(1)));
    assert_eq!(board.0, 0x8000000000000001);
    assert_eq!(board.count_ones(), 2);
    board.toggle_bit(Square(0));
    assert_eq!(board.0, 0x8000000000000000);
    board.toggle_bit(Square(5));
    assert_eq!(board.0, 0x8000000000000020);
    assert_eq!(BitBoard::from_u64(7).0, 7);
    assert_eq!(BitBoard::default().0, 0);
}

#[test]
fn bitboard_pops_squares_lowest_first() {
    let mut board = BitBoard(0b1010_0100);
    assert_eq!(board.trailing_zeros(), 2);
    assert_eq!(board.get_lsb_index().0, 2);
    assert_eq!(board.pop_square().0, 2);
    assert_eq!(board.pop_square().0, 5);
    assert_eq!(board.pop_square().0, 7);
    assert_eq!(board.0, 0);
    assert_eq!(board.trailing_zeros(), 64);
    assert_eq!(board.get_lsb_index().0, 64);
    assert_eq!(BitBoard(u64::MAX).count_ones(), 64);
}

#[test]
fn bitboard_shifts_drop_what_leaves_the_board() {
    let mut board = BitBoard(0x00000000000000FF);
    board.shift_board_up(1);
    assert_eq!(board.0, 0x000000000000FF00);
    board.shift_board_up(6);
    assert_eq!(board.0, 0xFF00000000000000);
    board.shift_board_up(1);
    assert_eq!(board.0, 0);
    let mut board = BitBoard(0xFF00000000000000);
    board.shift_board_down(7);
    assert_eq!(board.0, 0x00000000000000FF);
    board.shift_board_left(4);
    assert_eq!(board.0, 0x000000000000000F);
    board.shift_board_right(2);
    assert_eq!(board.0, 0x000000000000003C);
    board.shift_board_right(64);
    assert_eq!(board.0, 0);
    let mut board = BitBoard(5);
    board.shift_board_down(8);
    assert_eq!(board.0, 0);
    let mut board = BitBoard(5);
    board.shift_board_left(200);
    assert_eq!(board.0, 0);
}

#[test]
fn bitboard_set_operations() {
    let a = BitBoard(0b1100);
    let b = BitBoard(0b1010);
    assert_eq!(a.union(b).0, 0b1110);
    assert_eq!(a.intersect(b).0, 0b1000);
    assert_eq!(a.complement().0, !0b1100u64);
}

#[test]
fn squares_know_their_rank_file_and_name() {
    assert_eq!(Square(0).get_rank(), 0);
    assert_eq!(Square(0).get_file(), 0);
    assert_eq!(Square(28).get_rank(), 3);
    assert_eq!(Square(28).get_file(), 4);
    assert_eq!(Square(0).get_name(), "A1");
    assert_eq!(Square(28).get_name(), "E4");
    assert_eq!(Square(63).get_name(), "H8");
    let squares = Square::create_squares(3, 6);
    assert_eq!(squares.len(), 3);
    assert_eq!(squares[0].0, 3);
    assert_eq!(squares[2].0, 5);
    assert_eq!(Square::create_squares(6, 3).len(), 0);
    assert_eq!(Square::create_squares(0, 64).len(), 64);
    assert_eq!(Square(12).plus(Direction(8)).0, 20);
    assert_eq!(Square(12).plus(Direction(-9)).0, 3);
    assert_eq!(Direction(8).times(2).0, 16);
    assert_eq!(Direction(-9).times(3).0, -27);
    assert_eq!(Color::White.other(), Color::Black);
    assert_eq!(Color::Black.other(), Color::White);
}

#[test]
fn generator_follows_its_sequence() {
    let mut generator = MagicNumGenerator::new();
    assert_eq!(generator.get_random_u32(), 1741896308);
    assert_eq!(generator.get_random_u32(), 321584506);
    assert_eq!(generator.get_random_u32(), 3694591032);
    assert_eq!(generator.get_random_u32(), 1972257248);
    let mut generator = MagicNumGenerator::new();
    assert_eq!(generator.get_random_u64(), 0x41e0fc38fd7a3a74);
    let mut generator = MagicNumGenerator::new();
    assert_eq!(generator.gen().0, 0x60800004203010);
}

#[test]
fn rays_stop_at_the_first_blocker() {
    assert_eq!(rook_attacks_on_fly(Square(0), BitBoard(0)).0, 0x01010101010101fe);
    assert_eq!(
        rook_attacks_on_fly(Square(27), BitBoard((1 << 29) | (1 << 11))).0,
        0x0808080837080800
    );
    assert_eq!(bishop_attacks_on_fly(Square(27), BitBoard(0)).0, 0x8041221400142241);
    assert_eq!(
        bishop_attacks_on_fly(Square(27), BitBoard((1 << 45) | (1 << 9))).0,
        0x0001221400142240
    );
    assert_eq!(mask_direction(Square(0), 1, 0).0, 0x0101010101010100);
    assert_eq!(mask_direction(Square(0), -1, 0).0, 0);
    assert_eq!(mask_direction(Square(27), 0, 1).0, 0xF0000000);
}

#[test]
fn relevant_squares_leave_out_the_edges() {
    assert_eq!(mask_rook_attacks(Square(0)).0, 0x000101010101017e);
    assert_eq!(mask_rook_attacks(Square(0)).count_ones(), 12);
    assert_eq!(mask_rook_attacks(Square(27)).count_ones(), 10);
    assert_eq!(mask_bishop_attacks(Square(0)).0, 0x0040201008040200);
    assert_eq!(mask_bishop_attacks(Square(27)).count_ones(), 9);
    let rook_counts = create_rook_move_counts();
    let bishop_counts = create_bishop_move_counts();
    for index in 0..64u8 {
        let square = Square(index);
        assert_eq!(
            mask_rook_attacks(square).count_ones() as u64,
            rook_counts.0[index as usize]
        );
        assert_eq!(
            mask_bishop_attacks(square).count_ones() as u64,
            bishop_counts.0[index as usize]
        );
    }
}

#[test]
fn steps_of_king_knight_and_pawn() {
    assert_eq!(mask_knight_attacks(Square(27)).0, 0x0000142200221400);
    assert_eq!(mask_knight_attacks(Square(7)).0, 0x0000000000402000);
    assert_eq!(mask_king_attacks(Square(0)).0, 0x0000000000000302);
    assert_eq!(mask_king_attacks(Square(27)).count_ones(), 8);
    assert_eq!(mask_pawn_attacks(Color::White, Square(8)).0, 1 << 17);
    assert_eq!(mask_pawn_attacks(Color::White, Square(12)).0, (1 << 19) | (1 << 21));
    assert_eq!(mask_pawn_attacks(Color::Black, Square(12)).0, (1 << 3) | (1 << 5));
    assert_eq!(mask_pawn_attacks(Color::White, Square(60)).0, 0);
    assert_eq!(mask_pawn_attacks(Color::Black, Square(4)).0, 0);
    assert_eq!(mask_pawn_attacks(Color::White, Square(4)).0, (1 << 11) | (1 << 13));
    let kings = create_king_table();
    let knights = create_knight_table();
    let pawns = create_pawn_table();
    assert_eq!(kings.0[0].0, 0x302);
    assert_eq!(knights.0[27].0, 0x0000142200221400);
    assert_eq!(pawns.0 .0[12].0, (1 << 19) | (1 << 21));
    assert_eq!(pawns.1 .0[12].0, (1 << 3) | (1 << 5));
}

#[test]
fn occupancies_are_the_subsets_of_the_mask() {
    let mask = BitBoard(0b1011_0000);
    assert_eq!(get_possible_occupancy(mask, 0).0, 0);
    assert_eq!(get_possible_occupancy(mask, 1).0, 0b0001_0000);
    assert_eq!(get_possible_occupancy(mask, 2).0, 0b0010_0000);
    assert_eq!(get_possible_occupancy(mask, 4).0, 0b1000_0000);
    assert_eq!(get_possible_occupancy(mask, 7).0, 0b1011_0000);
    assert_eq!(get_possible_occupancy(mask, 8).0, 0);
    let mut seen = std::collections::HashSet::new();
    for index in 0..8 {
        let subset = get_possible_occupancy(mask, index).0;
        assert_eq!(subset & !mask.0, 0);
        seen.insert(subset);
    }
    assert_eq!(seen.len(), 8);
}

#[test]
fn tables_agree_with_the_rays_for_every_occupancy_of_the_relevant_squares() {
    let tables = init_statics().unwrap();
    for index in [0u8, 7, 27, 36, 56, 63] {
        let square = Square(index);
        let rook_mask = mask_rook_attacks(square);
        let subsets = 1u64 << rook_mask.count_ones();
        for choice in 0..subsets {
            let occupancy = get_possible_occupancy(rook_mask, choice);
            assert_eq!(
                generate_rook_attakcs(&tables, square, occupancy).0,
                rook_attacks_on_fly(square, occupancy).0
            );
        }
        let bishop_mask = mask_bishop_attacks(square);
        let subsets = 1u64 << bishop_mask.count_ones();
        for choice in 0..subsets {
            let occupancy = get_possible_occupancy(bishop_mask, choice);
            assert_eq!(
                generate_bishop_attacks(&tables, square, occupancy).0,
                bishop_attacks_on_fly(square, occupancy).0
            );
        }
    }
}

#[test]
fn tables_answer_for_occupancies_of_the_whole_board() {
    let tables = init_statics().unwrap();
    let mut generator = MagicNumGenerator::new();
    for index in 0..64u8 {
        let square = Square(index);
        for _ in 0..50 {
            let occupancy = BitBoard(generator.get_random_u64());
            let rook = generate_rook_attakcs(&tables, square, occupancy).0;
            let bishop = generate_bishop_attacks(&tables, square, occupancy).0;
            assert_eq!(rook, rook_attacks_on_fly(square, occupancy).0);
            assert_eq!(bishop, bishop_attacks_on_fly(square, occupancy).0);
            assert_eq!(generate_queen_attacks(&tables, square, occupancy).0, rook | bishop);
        }
        assert_eq!(generate_king_attacks(&tables, square).0, mask_king_attacks(square).0);
        assert_eq!(generate_knight_attacks(&tables, square).0, mask_knight_attacks(square).0);
        assert_eq!(
            genereate_pawn_attacks(&tables, square, Color::White).0,
            mask_pawn_attacks(Color::White, square).0
        );
        assert_eq!(
            genereate_pawn_attacks(&tables, square, Color::Black).0,
            mask_pawn_attacks(Color::Black, square).0
        );
    }
}

#[test]
fn a_colliding_multiplier_is_refused() {
    assert!(build_square_table(
        Slider::Rook,
        Square(0),
        persa_chess::board_components::MagicNum(0),
        12,
        4096
    )
    .is_none());
    let magics = create_rook_magics();
    assert!(build_square_table(Slider::Rook, Square(0), magics.0[0], 12, 4096).is_some());
    let mut broken = create_rook_magics();
    broken.0[5] = persa_chess::board_components::MagicNum(1);
    assert!(SliderPieceTable::<4096>::new(Slider::Rook, create_rook_move_counts(), broken).is_none());
    assert!(SliderPieceTable::<512>::new(
        Slider::Bishop,
        create_bishop_move_counts(),
        create_bishop_magics()
    )
    .is_some());
    assert!(SliderPieceTable::<512>::new(
        Slider::Rook,
        create_rook_move_counts(),
        create_rook_magics()
    )
    .is_none());
}

#[test]
fn the_search_for_a_multiplier_finds_one_that_fills_the_table() {
    for (kind, index, bits) in [(Slider::Bishop, 0u8, 6u64), (Slider::Rook, 27, 10)] {
        let magic = find_magic_number(kind, Square(index)).unwrap();
        let table = build_square_table(kind, Square(index), magic, bits, 4096);
        assert!(table.is_some());
        let again = find_magic_number(kind, Square(index)).unwrap();
        assert_eq!(magic.0, again.0);
    }
}
