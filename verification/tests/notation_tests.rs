use persa_chess::board_components::Color;
use persa_chess::debug::{str_to_piece, FenError, FenString};
use persa_chess::pieces::pieces_controller::{BoardSlots, BoardStatus, CastleSlots, Castles};
use persa_chess::pieces::tables::init_statics;
use persa_chess::uci::{get_move, RequestError, UciInformation};
use persa_chess::{get_moves, init_all_statics, is_king_attacked, make_move};

const START: &str = "rnbqkbnr/pppppppp/8/8/8/8/PPPPPPPP/RNBQKBNR w KQkq - 0 1";

fn board(fen: &str) -> BoardStatus {
    FenString::new(fen.to_string()).convert_to_board().unwrap()
}

fn round_trip(fen: &str) -> String {
    FenString::from_board(&board(fen)).get_fen_string()
}

#[test]
fn the_start_position_is_read() {
    let start = board(START);
    assert_eq!(start.board(BoardSlots::WhitePawn).0, 0x000000000000FF00);
    assert_eq!(start.board(BoardSlots::WhiteKnight).0, 0x42);
    assert_eq!(start.board(BoardSlots::WhiteBishop).0, 0x24);
    assert_eq!(start.board(BoardSlots::WhiteRook).0, 0x81);
    assert_eq!(start.board(BoardSlots::WhiteQueen).0, 0x08);
    assert_eq!(start.board(BoardSlots::WhiteKing).0, 0x10);
    assert_eq!(start.board(BoardSlots::BlackPawn).0, 0x00FF000000000000);
    assert_eq!(start.board(BoardSlots::BlackKing).0, 0x1000000000000000);
    assert_eq!(start.board(BoardSlots::WhitePieces).0, 0x000000000000FFFF);
    assert_eq!(start.board(BoardSlots::BlackPieces).0, 0xFFFF000000000000);
    assert_eq!(start.board(BoardSlots::AllPieces).0, 0xFFFF00000000FFFF);
    assert_eq!(start.get_pieces_board(BoardSlots::WhiteQueen).0, 0x000000000000FFFF);
    assert_eq!(start.get_pieces_board(BoardSlots::BlackPawn).0, 0xFFFF000000000000);
    assert_eq!(start.get_color(), Color::White);
    assert_eq!(start.get_other_color(), Color::Black);
    assert_eq!(start.get_enpassant().0, 64);
    assert_eq!(start.get_half_move(), 0);
    assert_eq!(start.get_full_move(), 1);
    assert!(start.can_castle(CastleSlots::WhiteKingSide));
    assert!(start.can_castle(CastleSlots::WhiteQueenSide));
    assert!(start.can_castle(CastleSlots::BlackKingSide));
    assert!(start.can_castle(CastleSlots::BlackQueenSide));
}

#[test]
fn writing_and_reading_a_position_gives_it_back() {
    for fen in [
        START,
        "r3k2r/p1ppqpb1/bn2pnp1/3PN3/1p2P3/2N2Q1p/PPPBBPPP/R3K2R w KQkq - 0 1",
        "8/2p5/3p4/KP5r/1R3p1k/8/4P1P1/8 w - - 0 1",
        "rnbqkbnr/pppp1ppp/8/4p3/4P3/8/PPPP1PPP/RNBQKBNR w KQkq e6 0 2",
        "rnbqkbnr/pppppppp/8/8/4P3/8/PPPP1PPP/RNBQKBNR b KQkq e3 0 1",
        "n1n5/PPPk4/8/8/8/8/4Kppp/5N1N b - - 12 345",
        "4k3/8/8/8/8/8/8/4K2R w K - 7 9",
        "r3k3/8/8/8/8/8/8/4K3 b q - 18446744073709551615 4294967295",
        "8/8/8/8/8/8/8/8 w - - 0 0",
    ] {
        assert_eq!(round_trip(fen), fen);
        let first = board(fen);
        let second = board(&round_trip(fen));
        assert_eq!(first.boards, second.boards);
        assert_eq!(first.color, second.color);
        assert_eq!(first.castles, second.castles);
        assert_eq!(first.enpassant, second.enpassant);
        assert_eq!(first.half_move, second.half_move);
        assert_eq!(first.full_move, second.full_move);
    }
}

#[test]
fn positions_reached_by_legal_moves_are_written_and_read_back() {
    let tables = init_statics().unwrap();
    let mut fen = START.to_string();
    for name in ["e2e4", "c7c5", "g1f3", "d7d6", "f1b5", "c8d7", "e1g1", "d7b5", "d2d4", "c5d4"] {
        fen = make_move(&tables, fen, name.to_string()).unwrap();
        assert_eq!(round_trip(&fen), fen);
    }
    assert_eq!(fen, "rn1qkbnr/pp2pppp/3p4/1b6/3pP3/5N2/PPP2PPP/RNBQ1RK1 w kq - 10 1");
}

#[test]
fn blanks_around_a_notation_do_not_matter() {
    let fen = FenString::new(format!("  \t{}\r\n", START));
    assert_eq!(fen.get_fen_string(), START);
    let wide = FenString::new(format!("\u{3000}\u{a0}\u{85}{}\u{2003}\u{2028}\u{b}", START));
    assert_eq!(wide.get_fen_string(), START);
    for blank in ['\u{9}', '\u{d}', '\u{1680}', '\u{2000}', '\u{200a}', '\u{2029}', '\u{202f}', '\u{205f}'] {
        assert!(blank.is_whitespace());
        let around = FenString::new(format!("{}{}{}", blank, START, blank));
        assert_eq!(around.get_fen_string(), START);
    }
    // What is no white space stays.
    let kept = FenString::new(format!("\u{200b}{}", START));
    assert_eq!(kept.get_fen_string(), format!("\u{200b}{}", START));
    let short = FenString::new("8/8 w".to_string());
    assert_eq!(short.get_fen_string(), "8/8 w    ");
    assert_eq!(short.convert_to_board().unwrap_err(), FenError::Castles);
}

#[test]
fn each_field_that_cannot_be_read_is_named() {
    let read = |fen: &str| FenString::new(fen.to_string()).convert_to_board().map(|_| ());
    assert_eq!(read("8/8/8/8/8/8/8/8 x - - 0 1"), Err(FenError::Color));
    assert_eq!(read("8/8/8/8/8/8/8/8 white - - 0 1"), Err(FenError::Color));
    assert_eq!(read("8/8/8/8/8/8/8/8 w KX - 0 1"), Err(FenError::Castles));
    assert_eq!(read("8/8/8/8/8/8/8/8 w  - 0 1"), Err(FenError::Castles));
    assert_eq!(read("8/8/8/8/8/8/8/8 w - e9 0 1"), Err(FenError::Enpassant));
    assert_eq!(read("8/8/8/8/8/8/8/8 w - i3 0 1"), Err(FenError::Enpassant));
    assert_eq!(read("8/8/8/8/8/8/8/8 w - e 0 1"), Err(FenError::Enpassant));
    assert_eq!(read("8/8/8/8/8/8/8/8 w - - x 1"), Err(FenError::HalfMove));
    assert_eq!(read("8/8/8/8/8/8/8/8 w - - -1 1"), Err(FenError::HalfMove));
    assert_eq!(
        read("8/8/8/8/8/8/8/8 w - - 99999999999999999999999999 1"),
        Err(FenError::HalfMove)
    );
    assert_eq!(read("8/8/8/8/8/8/8/8 w - - 0"), Err(FenError::FullMove));
    assert_eq!(read("8/8/8/8/8/8/8/8 w - - 0 1.5"), Err(FenError::FullMove));
    assert_eq!(read("8/8/8/8/8/8/8 w - - 0 1"), Err(FenError::Board));
    assert_eq!(read("8/8/8/8/8/8/8/8/8 w - - 0 1"), Err(FenError::Board));
    assert_eq!(read("9/8/8/8/8/8/8/8 w - - 0 1"), Err(FenError::Board));
    assert_eq!(read("7/8/8/8/8/8/8/8 w - - 0 1"), Err(FenError::Board));
    assert_eq!(read("pppppppp1/8/8/8/8/8/8/8 w - - 0 1"), Err(FenError::Board));
    assert_eq!(read("ppppppppp/8/8/8/8/8/8/8 w - - 0 1"), Err(FenError::Board));
    assert_eq!(read("8/8/8/8/8/8/8/7x w - - 0 1"), Err(FenError::Board));
    assert_eq!(read("8/8/8/8/8/8/8/08 w - - 0 1"), Err(FenError::Board));
    assert_eq!(read(""), Err(FenError::Color));
    assert_eq!(read("8/8/8/8/8/8/8/8 w - - 0 1"), Ok(()));
    assert_eq!(read("8/8/8/8/8/8/8/8 b Kq-- a1 0 1"), Ok(()));
}

#[test]
fn letters_stand_for_pieces() {
    assert_eq!(str_to_piece("P"), Some(BoardSlots::WhitePawn));
    assert_eq!(str_to_piece("N"), Some(BoardSlots::WhiteKnight));
    assert_eq!(str_to_piece("B"), Some(BoardSlots::WhiteBishop));
    assert_eq!(str_to_piece("R"), Some(BoardSlots::WhiteRook));
    assert_eq!(str_to_piece("Q"), Some(BoardSlots::WhiteQueen));
    assert_eq!(str_to_piece("K"), Some(BoardSlots::WhiteKing));
    assert_eq!(str_to_piece("p"), Some(BoardSlots::BlackPawn));
    assert_eq!(str_to_piece("n"), Some(BoardSlots::BlackKnight));
    assert_eq!(str_to_piece("b"), Some(BoardSlots::BlackBishop));
    assert_eq!(str_to_piece("r"), Some(BoardSlots::BlackRook));
    assert_eq!(str_to_piece("q"), Some(BoardSlots::BlackQueen));
    assert_eq!(str_to_piece("k"), Some(BoardSlots::BlackKing));
    assert_eq!(str_to_piece("x"), None);
    assert_eq!(str_to_piece(""), None);
    assert_eq!(str_to_piece("PP"), None);
}

#[test]
fn castling_rights_are_removed_one_by_one() {
    let mut castles = Castles::new();
    assert_eq!(castles.0, 15);
    castles.remove_castle(CastleSlots::WhiteQueenSide);
    assert_eq!(castles.0, 13);
    castles.remove_castle(CastleSlots::WhiteQueenSide);
    assert_eq!(castles.0, 13);
    castles.remove_castle(CastleSlots::BlackKingSide);
    assert_eq!(castles.0, 9);
    let mut start = board(START);
    start.remove_castle(CastleSlots::BlackQueenSide);
    assert!(!start.can_castle(CastleSlots::BlackQueenSide));
    assert!(start.can_castle(CastleSlots::BlackKingSide));
    start.change_color();
    assert_eq!(start.get_color(), Color::Black);
}

#[test]
fn the_moves_of_a_position_are_named() {
    let tables = init_all_statics().unwrap();
    let mut names = get_moves(&tables, START.to_string()).unwrap();
    names.sort();
    assert_eq!(
        names,
        vec![
            "a2a3", "a2a4", "b1a3", "b1c3", "b2b3", "b2b4", "c2c3", "c2c4", "d2d3", "d2d4",
            "e2e3", "e2e4", "f2f3", "f2f4", "g1f3", "g1h3", "g2g3", "g2g4", "h2h3", "h2h4"
        ]
    );
    let promotions =
        get_moves(&tables, "8/P6k/8/8/8/8/8/K7 w - - 0 1".to_string()).unwrap();
    for name in ["a7a8q", "a7a8r", "a7a8b", "a7a8n", "a1a2", "a1b1", "a1b2"] {
        assert!(promotions.contains(&name.to_string()));
    }
    assert_eq!(promotions.len(), 7);
    assert_eq!(
        get_moves(&tables, "8/8/8/8/8/8/8 w - - 0 1".to_string()),
        Err(FenError::Board)
    );
}

#[test]
fn a_move_is_made_by_its_name_or_refused() {
    let tables = init_statics().unwrap();
    assert_eq!(
        make_move(&tables, START.to_string(), "e2e4".to_string()),
        Ok("rnbqkbnr/pppppppp/8/8/4P3/8/PPPP1PPP/RNBQKBNR b KQkq e3 1 1".to_string())
    );
    assert_eq!(
        make_move(&tables, START.to_string(), "e2e5".to_string()),
        Err(RequestError::IllegalMove)
    );
    assert_eq!(
        make_move(&tables, START.to_string(), "".to_string()),
        Err(RequestError::IllegalMove)
    );
    assert_eq!(
        make_move(&tables, "nonsense".to_string(), "e2e4".to_string()),
        Err(RequestError::Notation(FenError::Color))
    );
    // The knight is pinned against the king: its moves are generated and
    // refused.
    assert_eq!(
        make_move(&tables, "4r2k/8/8/8/8/8/4N3/4K3 w - - 0 1".to_string(), "e2c3".to_string()),
        Err(RequestError::IllegalMove)
    );
    assert_eq!(
        make_move(&tables, "4k3/8/8/8/8/8/8/4K2R w K - 0 1".to_string(), "e1g1".to_string()),
        Ok("4k3/8/8/8/8/8/8/5RK1 b - - 1 1".to_string())
    );
    assert_eq!(
        make_move(&tables, "4k3/8/8/3pP3/8/8/8/4K3 w - d6 0 1".to_string(), "e5d6".to_string()),
        Ok("4k3/8/3P4/8/8/8/8/4K3 b - - 1 1".to_string())
    );
    assert_eq!(
        make_move(&tables, "1n2k3/P7/8/8/8/8/8/4K3 w - - 0 1".to_string(), "a7b8n".to_string()),
        Ok("1N2k3/8/8/8/8/8/8/4K3 b - - 1 1".to_string())
    );
}

#[test]
fn the_king_is_seen_to_be_attacked() {
    let tables = init_statics().unwrap();
    assert_eq!(is_king_attacked(&tables, START.to_string()), Ok(false));
    assert_eq!(
        is_king_attacked(&tables, "4k3/8/8/8/8/8/4r3/4K3 w - - 0 1".to_string()),
        Ok(true)
    );
    assert_eq!(
        is_king_attacked(&tables, "4k3/8/8/8/8/8/4r3/4K3 b - - 0 1".to_string()),
        Ok(false)
    );
    assert_eq!(
        is_king_attacked(&tables, "4k3/8/8/8/8/5n2/8/4K3 w - - 0 1".to_string()),
        Ok(true)
    );
    assert_eq!(
        is_king_attacked(&tables, "4k3/8/8/8/8/8/3p4/4K3 w - - 0 1".to_string()),
        Ok(true)
    );
    assert_eq!(
        is_king_attacked(&tables, "4k3/8/8/8/7b/6P1/8/4K3 w - - 0 1".to_string()),
        Ok(false)
    );
    assert_eq!(
        is_king_attacked(&tables, "8/8/8/8/8/8/8/8 w - - 0 1".to_string()),
        Ok(false)
    );
    assert_eq!(
        is_king_attacked(&tables, "bad".to_string()),
        Err(FenError::Color)
    );
}

#[test]
fn a_named_move_is_found_among_the_legal_moves_only() {
    let tables = init_statics().unwrap();
    let info = UciInformation::new().set_board(board("4r2k/8/8/8/8/8/4N3/4K3 w - - 0 1"));
    assert!(get_move(&info, &tables, "e2c3".to_string()).is_none());
    assert!(get_move(&info, &tables, "e9e9".to_string()).is_none());
    let found = get_move(&info, &tables, "e1d1".to_string()).unwrap();
    assert_eq!(found.get_move_name(), "e1d1");
    assert_eq!(found.get_piece(), BoardSlots::WhiteKing);
}
