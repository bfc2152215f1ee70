use persa_chess::board_components::BitBoard;
use persa_chess::debug::FenString;

#[test]
fn a_board_is_shown_with_its_frame() {
    let margin = " ".repeat(20);
    let mut expected = format!("\n{margin}   +-----------------+\n");
    for rank in (1..=8).rev() {
        let cells = if rank == 1 { "1 0 0 0 0 0 0 0 " } else if rank == 8 { "0 0 0 0 0 0 0 1 " } else { "0 0 0 0 0 0 0 0 " };
        expected += &format!("{margin}{rank}  | {cells}|\n");
    }
    expected += &format!("{margin}   +-----------------+\n\n");
    expected += &format!("{margin}     A B C D E F G H \n\n");
    assert_eq!(BitBoard(0x8000000000000001).to_text(), expected);
    let mut data = ['.'; 64];
    data[28] = 'x';
    let text = BitBoard::get_bitboard_string(&data);
    assert_eq!(text.lines().nth(6).unwrap(), format!("{margin}4  | . . . . x . . . |"));
    assert_eq!(text.chars().filter(|c| *c == 'x').count(), 1);
}

#[test]
fn a_position_is_shown_with_its_fields_and_figures() {
    let fen = "4k3/8/8/8/8/8/4P3/R3K3 w Q - 3 9";
    let text = FenString::new(fen.to_string()).adjust_board_display();
    let lines: Vec<&str> = text.lines().collect();
    assert_eq!(lines[0], "");
    assert_eq!(lines[1], "-".repeat(64));
    assert_eq!(lines[2], "Color: w, Castles: Q, Enpassant: -, Half_move: 3 Full_move: 9");
    assert_eq!(lines[3], fen);
    let margin = " ".repeat(20);
    assert_eq!(lines[6], format!("{margin}8  | . . . . \u{2654} . . . |"));
    assert_eq!(lines[12], format!("{margin}2  | . . . . \u{265F} . . . |"));
    assert_eq!(lines[13], format!("{margin}1  | \u{265C} . . . \u{265A} . . . |"));
    assert_eq!(lines[16], format!("{margin}     A B C D E F G H "));
    // A field that runs off the board is shown as far as it fits.
    let odd = FenString::new("ppppppppp/9/p w - - 0 1".to_string()).adjust_board_display();
    assert_eq!(odd.chars().filter(|c| *c == '\u{2659}').count(), 9);
}
