use persa_chess::debug::{perft_divide, perft_driver, FenString};
use persa_chess::pieces::tables::init_statics;

const START: &str = "rnbqkbnr/pppppppp/8/8/8/8/PPPPPPPP/RNBQKBNR w KQkq - 0 1";

fn count(fen: &str, depth: usize) -> u64 {
    let tables = init_statics().unwrap();
    let board = FenString::new(fen.to_string()).convert_to_board().unwrap();
    perft_driver(&board, &tables, depth)
}

#[test]
fn perft_start_position() {
    assert_eq!(count(START, 0), 1);
    assert_eq!(count(START, 1), 20);
    assert_eq!(count(START, 2), 400);
    assert_eq!(count(START, 3), 8902);
    assert_eq!(count(START, 4), 197281);
}

#[test]
fn perft_castling_and_pins() {
    let fen = "r3k2r/p1ppqpb1/bn2pnp1/3PN3/1p2P3/2N2Q1p/PPPBBPPP/R3K2R w KQkq - 0 1";
    assert_eq!(count(fen, 1), 48);
    assert_eq!(count(fen, 2), 2039);
    assert_eq!(count(fen, 3), 97862);
}

#[test]
fn perft_en_passant_and_checks() {
    let fen = "8/2p5/3p4/KP5r/1R3p1k/8/4P1P1/8 w - - 0 1";
    assert_eq!(count(fen, 1), 14);
    assert_eq!(count(fen, 2), 191);
    assert_eq!(count(fen, 3), 2812);
    assert_eq!(count(fen, 4), 43238);
}

#[test]
fn perft_promotions() {
    let fen = "n1n5/PPPk4/8/8/8/8/4Kppp/5N1N b - - 0 1";
    assert_eq!(count(fen, 1), 24);
    assert_eq!(count(fen, 2), 496);
    assert_eq!(count(fen, 3), 9483);
}

#[test]
fn perft_divide_adds_up() {
    let tables = init_statics().unwrap();
    let board = FenString::new(START.to_string()).convert_to_board().unwrap();
    let parts = perft_divide(&board, &tables, 3);
    assert_eq!(parts.len(), 20);
    let total: u64 = parts.iter().map(|part| part.1).sum();
    assert_eq!(total, 8902);
}
