use persa_chess::board_components::{Color, Square};
use persa_chess::debug::FenString;
use persa_chess::eveluation::{
    eveluate, find_best_move, first_legal_move, negamax, quiescence, search_root,
};
use persa_chess::pieces::pieces_controller::{
    attackers, is_in_check, is_square_attacked, legal_of, score_move, BoardHistory, BoardSlots,
    BoardStatus, MoveBitField, MoveList,
};
use persa_chess::pieces::tables::{init_statics, AttackTables};
use persa_chess::uci::{
    best_move_name, go, is_raised, limit_passed, position, search_is_over, set_signal,
    GoRequest, RequestError, UciInformation,
};

const START: &str = "rnbqkbnr/pppppppp/8/8/8/8/PPPPPPPP/RNBQKBNR w KQkq - 0 1";

fn board(fen: &str) -> BoardStatus {
    FenString::new(fen.to_string()).convert_to_board().unwrap()
}

fn info(fen: &str) -> UciInformation {
    UciInformation::new().set_board(board(fen))
}

fn names(tables: &AttackTables, info: &UciInformation) -> Vec<String> {
    MoveList::new(info, tables).iterate_moves().iter().map(|mov| mov.get_move_name()).collect()
}

fn words(text: &str) -> Vec<String> {
    text.split_whitespace().map(|word| word.to_string()).collect()
}

#[test]
fn a_move_keeps_its_fields() {
    let mov = MoveBitField::new(BoardSlots::BlackPawn, Square(9), Square(0));
    assert_eq!(mov.get_source().0, 9);
    assert_eq!(mov.get_target().0, 0);
    assert_eq!(mov.get_piece(), BoardSlots::BlackPawn);
    assert_eq!(mov.get_promoted(), BoardSlots::WhitePawn);
    assert!(!MoveBitField::is_move_promoted(mov.get_promoted()));
    assert!(!mov.is_move_capture());
    assert!(!mov.is_move_double());
    assert!(!mov.is_move_enpassant());
    assert!(!mov.is_move_castling());
    assert_eq!(mov.get_score(), 0);
    assert_eq!(mov.get_move_name(), "b2a1");
    let promoted = mov.set_promoted(BoardSlots::BlackQueen).set_capture();
    assert_eq!(promoted.get_promoted(), BoardSlots::BlackQueen);
    assert!(MoveBitField::is_move_promoted(promoted.get_promoted()));
    assert!(promoted.is_move_capture());
    assert_eq!(promoted.get_source().0, 9);
    assert_eq!(promoted.get_piece(), BoardSlots::BlackPawn);
    assert_eq!(promoted.get_move_name(), "b2a1q");
    assert_eq!(promoted.convert_to_string(), "b2a1q BlackPawn Promoted: BlackQueen Capture ");
    let again = promoted.set_promoted(BoardSlots::BlackKnight);
    assert_eq!(again.get_promoted(), BoardSlots::BlackKnight);
    assert_eq!(again.get_move_name(), "b2a1n");
    let double = MoveBitField::new(BoardSlots::WhitePawn, Square(12), Square(28)).set_double();
    assert!(double.is_move_double());
    assert_eq!(double.convert_to_string(), "e2e4 WhitePawn Double ");
    let castle = MoveBitField::new(BoardSlots::WhiteKing, Square(4), Square(6)).set_castling();
    assert!(castle.is_move_castling() && !castle.is_move_double());
    assert_eq!(castle.convert_to_string(), "e1g1 WhiteKing Castling ");
    let passing = MoveBitField::new(BoardSlots::WhitePawn, Square(36), Square(43))
        .set_enpassant()
        .set_capture();
    assert!(passing.is_move_enpassant() && passing.is_move_capture());
    assert_eq!(passing.convert_to_string(), "e5d6 WhitePawn Capture Enpassant ");
    assert_eq!(MoveBitField::no_move().0, 0);
}

#[test]
fn the_score_is_no_part_of_what_a_move_is() {
    let tables = init_statics().unwrap();
    let info = info("4k3/8/8/3p4/4P3/8/8/4K3 w - - 0 1");
    let plain = MoveBitField::new(BoardSlots::WhitePawn, Square(28), Square(35)).set_capture();
    let mut scored = plain;
    scored.set_score(&info, Color::Black);
    assert_eq!(scored.get_score(), 10005);
    assert_eq!(plain.get_score(), 0);
    assert!(scored == plain);
    assert_ne!(scored.0, plain.0);
    assert_eq!(scored.get_move_name(), plain.get_move_name());
    assert_eq!(score_move(&info, scored, Color::Black), 10005);
    let other = MoveBitField::new(BoardSlots::WhitePawn, Square(28), Square(36));
    assert!(other != plain);
    let list = MoveList::new(&info, &tables);
    assert_eq!(list.get(0).get_move_name(), "e4d5");
    assert_eq!(list.get(0).get_score(), 10005);
}

#[test]
fn moves_are_listed_in_the_same_order_each_time() {
    let tables = init_statics().unwrap();
    for fen in [
        START,
        "r3k2r/p1ppqpb1/bn2pnp1/3PN3/1p2P3/2N2Q1p/PPPBBPPP/R3K2R w KQkq - 0 1",
        "3r1k2/pppQ1pp1/2n2nr1/1N1pp1Bp/1b1PPNb1/2Pq2RP/PP3PP1/4KB1R b K - 17 16",
    ] {
        let info = info(fen);
        let first = MoveList::new(&info, &tables);
        let second = MoveList::new(&info, &tables);
        assert_eq!(first.count, second.count);
        assert_eq!(first.count, first.iterate_moves().len());
        let a: Vec<u64> = first.iterate_moves().iter().map(|mov| mov.0).collect();
        let b: Vec<u64> = second.iterate_moves().iter().map(|mov| mov.0).collect();
        assert_eq!(a, b);
        let scores: Vec<u64> = first.iterate_moves().iter().map(|mov| mov.get_score()).collect();
        for pair in scores.windows(2) {
            assert!(pair[0] >= pair[1]);
        }
        let mut seen_quiet = false;
        for mov in first.iterate_moves() {
            if mov.get_score() < 10000 {
                seen_quiet = true;
            } else {
                assert!(mov.is_move_capture());
                assert!(!seen_quiet);
            }
        }
    }
}

#[test]
fn moves_of_equal_score_keep_the_order_of_generation() {
    let tables = init_statics().unwrap();
    let info = info(START);
    assert_eq!(
        names(&tables, &info),
        vec![
            "a2a3", "a2a4", "b2b3", "b2b4", "c2c3", "c2c4", "d2d3", "d2d4", "e2e3", "e2e4",
            "f2f3", "f2f4", "g2g3", "g2g4", "h2h3", "h2h4", "b1a3", "b1c3", "g1f3", "g1h3"
        ]
    );
    let generated: Vec<String> = MoveList::generate(&info.board, &tables)
        .iterate_moves()
        .iter()
        .map(|mov| mov.get_move_name())
        .collect();
    assert_eq!(generated, names(&tables, &info));
}

#[test]
fn killer_moves_come_behind_the_captures_and_before_the_rest() {
    let tables = init_statics().unwrap();
    let mut info = info("4k3/8/8/3p4/4P3/8/8/4K3 w - - 3 1");
    let quiet = MoveBitField::new(BoardSlots::WhiteKing, Square(4), Square(12));
    let older = MoveBitField::new(BoardSlots::WhitePawn, Square(28), Square(36));
    info.board_history.append_killer_move(older, 3);
    info.board_history.append_killer_move(quiet, 3);
    assert!(info.board_history.killers_at(3).0 == quiet);
    assert!(info.board_history.killers_at(3).1 == older);
    assert!(info.board_history.killers_at(2).0 == MoveBitField::no_move());
    assert!(info.board_history.killers_at(64).0 == MoveBitField::no_move());
    let list = MoveList::new(&info, &tables).iterate_moves();
    assert_eq!(list[0].get_move_name(), "e4d5");
    assert_eq!(list[0].get_score(), 10005);
    assert_eq!(list[1].get_move_name(), "e1e2");
    assert_eq!(list[1].get_score(), 9000);
    assert_eq!(list[2].get_move_name(), "e4e5");
    assert_eq!(list[2].get_score(), 8000);
    assert_eq!(list[3].get_score(), 0);
    // The killer moves of another ply do not count.
    info.board.half_move = 4;
    let list = MoveList::new(&info, &tables).iterate_moves();
    assert_eq!(list[1].get_score(), 0);
    // Beyond the last ply that is remembered nothing is, and nothing breaks.
    info.board.half_move = 1000;
    info.board_history.append_killer_move(quiet, 1000);
    assert_eq!(MoveList::new(&info, &tables).iterate_moves()[1].get_score(), 0);
    let mut history = BoardHistory::new();
    history.add_new_best_move(quiet);
    assert!(history.found_best_move == quiet);
}

#[test]
fn legal_moves_are_those_that_leave_the_king_safe() {
    let tables = init_statics().unwrap();
    // The knight on e2 is pinned by the rook: only the king may move.
    let pinned = board("4r2k/8/8/8/8/8/4N3/4K3 w - - 0 1");
    let list = MoveList::generate(&pinned, &tables);
    let legal = legal_of(&pinned, &tables, &list);
    assert_eq!(list.count, 10);
    assert_eq!(legal.len(), 4);
    for mov in list.iterate_moves() {
        let mut copy = pinned;
        let made = copy.make_move(&tables, mov);
        assert_eq!(made, legal.contains(&mov));
        if made {
            assert!(!is_in_check(&copy, &tables, Color::White));
            assert_eq!(copy.get_color(), Color::Black);
        } else {
            assert_eq!(copy.boards, pinned.boards);
            assert_eq!(copy.color, pinned.color);
            assert_eq!(copy.half_move, pinned.half_move);
        }
    }
}

#[test]
fn the_aggregate_boards_stay_the_unions_of_their_pieces() {
    let tables = init_statics().unwrap();
    fn check(board: &BoardStatus) {
        let mut white = 0u64;
        let mut black = 0u64;
        let mut count = 0;
        for piece in BoardSlots::iterate_color_pieces(Color::White) {
            white |= board.board(piece).0;
            count += board.board(piece).count_ones();
        }
        for piece in BoardSlots::iterate_color_pieces(Color::Black) {
            black |= board.board(piece).0;
            count += board.board(piece).count_ones();
        }
        assert_eq!(board.board(BoardSlots::WhitePieces).0, white);
        assert_eq!(board.board(BoardSlots::BlackPieces).0, black);
        assert_eq!(board.board(BoardSlots::AllPieces).0, white | black);
        assert_eq!((white | black).count_ones(), count);
    }
    fn walk(board: &BoardStatus, tables: &AttackTables, depth: usize) {
        check(board);
        if depth == 0 {
            return;
        }
        for mov in MoveList::generate(board, tables).iterate_moves() {
            let mut next = *board;
            if next.make_move(tables, mov) {
                walk(&next, tables, depth - 1);
            }
        }
    }
    walk(&board("r3k2r/p1ppqpb1/bn2pnp1/3PN3/1p2P3/2N2Q1p/PPPBBPPP/R3K2R w KQkq - 0 1"), &tables, 2);
    walk(&board("n1n5/PPPk4/8/8/8/8/4Kppp/5N1N b - - 0 1"), &tables, 2);
    walk(&board("rnbqkbnr/ppp1pppp/8/8/3pP3/8/PPPP1PPP/RNBQKBNR b KQkq e3 0 1"), &tables, 2);
    assert_eq!(BoardSlots::iterate_pieces().len(), 12);
    assert_eq!(BoardSlots::iterate_all_slots().len(), 15);
    assert_eq!(
        BoardSlots::iterate_board_slots(BoardSlots::WhiteRook, BoardSlots::BlackPawn),
        vec![
            BoardSlots::WhiteRook,
            BoardSlots::WhiteQueen,
            BoardSlots::WhiteKing,
            BoardSlots::BlackPawn
        ]
    );
    assert_eq!(BoardSlots::from_index(9), BoardSlots::BlackRook);
    assert_eq!(BoardSlots::from_index(99), BoardSlots::AllPieces);
    assert_eq!(BoardSlots::BlackRook.index(), 9);
}

#[test]
fn pieces_are_put_and_taken() {
    let mut board = BoardStatus::new();
    assert_eq!(board.board(BoardSlots::AllPieces).0, 0);
    assert_eq!(board.get_enpassant().0, 64);
    board.set_piece_bit(BoardSlots::WhiteKnight, Square(18));
    board.set_piece_bit(BoardSlots::BlackRook, Square(60));
    assert_eq!(board.board(BoardSlots::WhiteKnight).0, 1 << 18);
    assert_eq!(board.board(BoardSlots::WhitePieces).0, 1 << 18);
    assert_eq!(board.board(BoardSlots::BlackPieces).0, 1 << 60);
    assert_eq!(board.board(BoardSlots::AllPieces).0, (1 << 18) | (1 << 60));
    assert_eq!(board.piece_on(Square(18)), Some(1));
    assert_eq!(board.piece_on(Square(60)), Some(9));
    assert_eq!(board.piece_on(Square(0)), None);
    board.remove_piece(BoardSlots::WhiteKnight, Square(18));
    assert_eq!(board.board(BoardSlots::WhiteKnight).0, 0);
    assert_eq!(board.board(BoardSlots::WhitePieces).0, 0);
    assert_eq!(board.board(BoardSlots::AllPieces).0, 1 << 60);
    board.remove_piece(BoardSlots::WhiteKnight, Square(18));
    assert_eq!(board.board(BoardSlots::AllPieces).0, 1 << 60);
}

#[test]
fn attackers_of_a_square_are_found() {
    let tables = init_statics().unwrap();
    let board = board("4k3/8/8/8/1b6/5n2/3P4/R3K3 w - - 0 1");
    // Black attacks e1 with the knight; the bishop is blocked by the pawn.
    assert_eq!(attackers(&board, &tables, Color::Black, Square(4)).0, 1 << 21);
    assert!(is_square_attacked(&board, &tables, Color::Black, Square(4)));
    assert!(is_in_check(&board, &tables, Color::White));
    assert!(!is_in_check(&board, &tables, Color::Black));
    // White attacks d1 with rook and king, c3 and e3 with the pawn.
    assert_eq!(attackers(&board, &tables, Color::White, Square(3)).0, (1 << 0) | (1 << 4));
    assert_eq!(attackers(&board, &tables, Color::White, Square(18)).0, 1 << 11);
    assert_eq!(attackers(&board, &tables, Color::White, Square(19)).0, 0);
}

#[test]
fn the_worth_of_a_position_is_counted_from_its_pieces() {
    assert_eq!(eveluate(&board(START)), 0);
    assert_eq!(eveluate(&board("4k3/8/8/8/4P3/8/8/4K3 w - - 0 1")), 120);
    assert_eq!(eveluate(&board("4k3/8/8/8/4P3/8/8/4K3 b - - 0 1")), -120);
    assert_eq!(eveluate(&board("4k3/8/8/4p3/8/8/8/4K3 w - - 0 1")), -120);
    assert_eq!(eveluate(&board("4k3/8/8/8/8/8/8/Q3K3 w - - 0 1")), 1000);
    assert_eq!(eveluate(&board("4k3/8/8/8/8/8/8/R3K3 w - - 0 1")), 500);
    assert_eq!(eveluate(&board("4k3/8/8/8/8/8/8/4K1N1 w - - 0 1")), 290);
    assert_eq!(eveluate(&board("4k3/8/8/8/8/8/1B6/4K3 w - - 0 1")), 380);
    assert_eq!(eveluate(&board("8/8/8/8/8/8/8/8 w - - 0 1")), 0);
}

#[test]
fn the_search_finds_a_mate_in_one() {
    let tables = init_statics().unwrap();
    let mut info = info("6k1/5ppp/8/8/8/8/8/R3K3 w - - 0 1").set_depth_limit(2);
    assert_eq!(find_best_move(&mut info, &tables), 2);
    assert_eq!(info.board_history.found_best_move.get_move_name(), "a1a8");
    let found = search_root(&mut info, &tables, 2).unwrap();
    assert_eq!(found.0.get_move_name(), "a1a8");
    assert_eq!(found.1, 50001);
}

#[test]
fn the_search_takes_the_only_legal_move() {
    let tables = init_statics().unwrap();
    let mut info = info("k7/8/1K6/8/8/8/8/7R b - - 0 1").set_depth_limit(3);
    let legal = legal_of(&info.board, &tables, &MoveList::generate(&info.board, &tables));
    assert_eq!(legal.len(), 1);
    assert_eq!(find_best_move(&mut info, &tables), 3);
    assert!(info.board_history.found_best_move == legal[0]);
    assert_eq!(info.board_history.found_best_move.get_move_name(), "a8b8");
}

#[test]
fn a_side_without_moves_is_mated_or_stalemated() {
    let tables = init_statics().unwrap();
    let mut mated = info("R5k1/5ppp/8/8/8/8/8/4K3 b - - 0 1").set_depth_limit(3);
    let before = mated.board;
    assert_eq!(negamax(&mut mated, &tables, 1000000, -1000000, 3), Some(-50003));
    assert_eq!(negamax(&mut mated, &tables, 1000000, -1000000, 1), Some(-50001));
    assert_eq!(negamax(&mut mated, &tables, 10, -10, 2), Some(-50002));
    assert_eq!(mated.board.boards, before.boards);
    assert_eq!(find_best_move(&mut mated, &tables), 3);
    assert!(mated.board_history.found_best_move == MoveBitField::no_move());
    let mut stale = info("k7/8/1Q6/8/8/8/8/4K3 b - - 0 1");
    assert_eq!(negamax(&mut stale, &tables, 1000000, -1000000, 2), Some(0));
    assert!(search_root(&mut stale, &tables, 1).unwrap().0 == MoveBitField::no_move());
}

#[test]
fn the_search_keeps_within_its_bounds() {
    let tables = init_statics().unwrap();
    let mut info = info("4k3/8/8/3q4/4P3/8/8/4K3 w - - 0 1");
    // The pawn takes the queen and is then a pawn up.
    let full = quiescence(&mut info, &tables, 1000000, -1000000, 64).unwrap();
    assert_eq!(full, 120);
    assert_eq!(quiescence(&mut info, &tables, 100, -100, 64), Some(100));
    assert_eq!(quiescence(&mut info, &tables, 1000, 500, 64), Some(500));
    assert_eq!(quiescence(&mut info, &tables, 1000000, -1000000, 0), Some(-880));
    assert_eq!(negamax(&mut info, &tables, 1000000, -1000000, 0), Some(120));
    let deep = negamax(&mut info, &tables, 1000000, -1000000, 2).unwrap();
    assert_eq!(negamax(&mut info, &tables, deep - 5, -1000000, 2), Some(deep - 5));
    assert_eq!(negamax(&mut info, &tables, 1000000, deep + 5, 2), Some(deep + 5));
    assert_eq!(negamax(&mut info, &tables, deep + 1, deep - 1, 2), Some(deep));
}

#[test]
fn a_search_that_is_told_to_end_has_a_legal_move_to_give() {
    let tables = init_statics().unwrap();
    // A move of another position, remembered from before.
    let marker = MoveBitField::new(BoardSlots::WhitePawn, Square(12), Square(28));
    for limit in [1, 2] {
        let mut limited = info(START).set_depth_limit(4).set_nodes_limit(limit);
        limited.board_history.add_new_best_move(marker);
        let before = limited.board;
        assert_eq!(find_best_move(&mut limited, &tables), 0);
        assert_eq!(limited.board_history.found_best_move.get_move_name(), "a2a3");
        assert_eq!(best_move_name(&limited.board_history.found_best_move), "a2a3");
        assert_eq!(limited.board.boards, before.boards);
        assert!(limited.is_search_fnished());
        assert!(search_root(&mut limited, &tables, 1).is_none());
    }
    // Without a legal move nothing is asked, and the search comes to its end
    // even where every answer would tell it to end.
    let mut mated = info("R5k1/5ppp/8/8/8/8/8/4K3 b - - 0 1").set_depth_limit(4).set_nodes_limit(1);
    mated.board_history.add_new_best_move(marker);
    assert_eq!(find_best_move(&mut mated, &tables), 4);
    assert!(mated.board_history.found_best_move == MoveBitField::no_move());
    assert_eq!(best_move_name(&mated.board_history.found_best_move), "0000");
    assert!(search_root(&mut mated, &tables, 1).is_some());
    let mut stopped = info(START).set_depth_limit(4);
    stopped.board_history.add_new_best_move(marker);
    set_signal(&stopped.stop_signal, true);
    assert!(is_raised(&stopped.stop_signal));
    assert!(stopped.is_search_fnished());
    assert_eq!(find_best_move(&mut stopped, &tables), 0);
    let given = stopped.board_history.found_best_move;
    assert!(legal_of(&stopped.board, &tables, &MoveList::generate(&stopped.board, &tables))
        .contains(&given));
    assert_eq!(first_legal_move(&stopped, &tables).get_move_name(), "a2a3");
    let mut unasked = info(START).set_depth_limit(0);
    unasked.board_history.add_new_best_move(marker);
    set_signal(&unasked.stop_signal, true);
    assert_eq!(find_best_move(&mut unasked, &tables), 0);
    assert!(unasked.board_history.found_best_move == marker);
    assert_eq!(negamax(&mut stopped, &tables, 100, -100, 2), None);
    set_signal(&stopped.stop_signal, false);
    assert!(!stopped.is_search_fnished());
    assert_eq!(find_best_move(&mut stopped, &tables), 4);
    let mut some = info(START).set_depth_limit(6).set_nodes_limit(2000);
    let done = find_best_move(&mut some, &tables);
    assert!(done >= 1 && done < 6);
    assert!(some.board_history.found_best_move != MoveBitField::no_move());
    let mut none = info(START).set_depth_limit(0);
    assert_eq!(find_best_move(&mut none, &tables), 0);
    let mut negative = info(START).set_depth_limit(-3);
    assert_eq!(find_best_move(&mut negative, &tables), 0);
    let copy = some.copy();
    assert_eq!(copy.node_count, some.node_count);
    set_signal(&some.quit_signal, true);
    assert!(copy.is_search_fnished());
}

#[test]
fn settings_are_set_one_by_one() {
    let info = UciInformation::new();
    assert_eq!(info.depth_limit, 1);
    assert_eq!(info.wtime, usize::MAX);
    assert_eq!(info.nodes_limit, None);
    let info = info
        .set_wtime(1)
        .set_btime(2)
        .set_winc(3)
        .set_binc(4)
        .set_moves_to_go(5)
        .set_depth_limit(6)
        .set_nodes_limit(7)
        .set_search_until_mate();
    assert_eq!(
        (info.wtime, info.btime, info.winc, info.binc, info.moves_to_go, info.depth_limit),
        (1, 2, 3, 4, Some(5), 6)
    );
    assert_eq!(info.nodes_limit, Some(7));
    assert!(info.search_until_mate);
    let info = info.set_ponder();
    assert!(info.ponder_search && info.depth_limit == isize::MAX);
    let info = UciInformation::new().set_infinite();
    assert!(info.infinity_search && info.depth_limit == isize::MAX);
}

#[test]
fn a_search_request_is_read() {
    let mut info = UciInformation::new();
    assert_eq!(
        go(&words("wtime 10 btime 20 winc 1 binc 2 depth 7 movestogo 3 nodes 99 movetime 50"), &mut info),
        Ok(GoRequest::Search)
    );
    assert_eq!((info.wtime, info.btime, info.winc, info.binc), (10, 20, 1, 2));
    assert_eq!(info.depth_limit, 7);
    assert_eq!(info.moves_to_go, Some(3));
    assert_eq!(info.nodes_limit, Some(99));
    assert_eq!(info.time_limit, Some(50));
    assert!(is_raised(&info.find_move_signal));
    let mut info = UciInformation::new();
    assert_eq!(go(&words("ponder infinite mate 4 what depth 9"), &mut info), Ok(GoRequest::Search));
    assert!(info.ponder_search && info.infinity_search);
    assert_eq!(info.moves_to_go, Some(4));
    assert_eq!(info.depth_limit, 1);
    let mut info = UciInformation::new();
    assert_eq!(go(&words("perft 3"), &mut info), Ok(GoRequest::Perft(3)));
    assert!(!is_raised(&info.find_move_signal));
    assert_eq!(go(&words("depth 4 perft"), &mut info), Err(RequestError::Number));
    assert_eq!(info.depth_limit, 1);
    assert_eq!(go(&words("depth 4 nodes x"), &mut info), Err(RequestError::Number));
    assert_eq!(info.depth_limit, 1);
    assert_eq!(go(&words("depth"), &mut info), Err(RequestError::Number));
    assert_eq!(go(&words(""), &mut info), Ok(GoRequest::Search));
}

#[test]
fn a_position_is_set_up_and_moves_are_played_on_it() {
    let tables = init_statics().unwrap();
    let mut info = UciInformation::new();
    assert_eq!(position(&words("startpos"), &mut info, &tables), Ok(()));
    assert_eq!(FenString::from_board(&info.board).get_fen_string(), START);
    assert_eq!(position(&words("startpos moves e2e4 e7e5 g1f3"), &mut info, &tables), Ok(()));
    assert_eq!(
        FenString::from_board(&info.board).get_fen_string(),
        "rnbqkbnr/pppp1ppp/8/4p3/4P3/5N2/PPPP1PPP/RNBQKB1R b KQkq - 3 1"
    );
    let before = FenString::from_board(&info.board).get_fen_string();
    assert_eq!(
        position(&words("startpos moves e2e4 e7e5 e1e2 a1a8"), &mut info, &tables),
        Err(RequestError::IllegalMove)
    );
    assert_eq!(FenString::from_board(&info.board).get_fen_string(), before);
    assert_eq!(position(&words("nothing"), &mut info, &tables), Err(RequestError::Command));
    assert_eq!(position(&words("fen 8/8 w"), &mut info, &tables), Err(RequestError::Command));
    assert_eq!(position(&words(""), &mut info, &tables), Err(RequestError::Command));
    assert_eq!(
        position(&words("fen 8/8/8/8/8/8/8/8 w - - zero 1"), &mut info, &tables),
        Err(RequestError::Notation(persa_chess::debug::FenError::HalfMove))
    );
    assert_eq!(FenString::from_board(&info.board).get_fen_string(), before);
    assert_eq!(
        position(&words("fen 4k3/8/8/8/8/8/8/4K2R w K - 0 1 moves e1g1"), &mut info, &tables),
        Ok(())
    );
    assert_eq!(
        FenString::from_board(&info.board).get_fen_string(),
        "4k3/8/8/8/8/8/8/5RK1 b - - 1 1"
    );
    assert_eq!(
        position(&words("fen 4k3/8/8/8/8/8/8/4K2R w K - 0 1 stop e1g1"), &mut info, &tables),
        Ok(())
    );
    assert_eq!(
        FenString::from_board(&info.board).get_fen_string(),
        "4k3/8/8/8/8/8/8/4K2R w K - 0 1"
    );
}

fn after(tables: &AttackTables, fen: &str, name: &str) -> String {
    persa_chess::make_move(tables, fen.to_string(), name.to_string()).unwrap()
}

#[test]
fn castling_rights_go_with_king_and_rook() {
    let tables = init_statics().unwrap();
    let fen = "r3k2r/8/8/8/8/8/8/R3K2R w KQkq - 0 1";
    assert_eq!(after(&tables, fen, "e1g1"), "r3k2r/8/8/8/8/8/8/R4RK1 b kq - 1 1");
    assert_eq!(after(&tables, fen, "e1c1"), "r3k2r/8/8/8/8/8/8/2KR3R b kq - 1 1");
    assert_eq!(after(&tables, fen, "e1e2"), "r3k2r/8/8/8/8/8/4K3/R6R b kq - 1 1");
    assert_eq!(after(&tables, fen, "h1h2"), "r3k2r/8/8/8/8/8/7R/R3K3 b Qkq - 1 1");
    assert_eq!(after(&tables, fen, "a1a8"), "R3k2r/8/8/8/8/8/8/4K2R b Kk - 1 1");
    assert_eq!(after(&tables, fen, "h1h8"), "r3k2R/8/8/8/8/8/8/R3K3 b Qq - 1 1");
    let black = "r3k2r/8/8/8/8/8/8/R3K2R b KQkq - 0 1";
    assert_eq!(after(&tables, black, "e8g8"), "r4rk1/8/8/8/8/8/8/R3K2R w KQ - 1 1");
    assert_eq!(after(&tables, black, "e8c8"), "2kr3r/8/8/8/8/8/8/R3K2R w KQ - 1 1");
    // No castling out of check, through an attacked square, or over a piece.
    let names = |fen: &str| persa_chess::get_moves(&tables, fen.to_string()).unwrap();
    assert!(!names("r3k2r/8/8/8/8/8/4r3/R3K2R w KQkq - 0 1").contains(&"e1g1".to_string()));
    assert!(!names("r3k2r/8/8/8/8/8/5r2/R3K2R w KQkq - 0 1").contains(&"e1g1".to_string()));
    assert!(names("r3k2r/8/8/8/8/8/5r2/R3K2R w KQkq - 0 1").contains(&"e1c1".to_string()));
    assert!(!names("r3k2r/8/8/8/8/8/8/RN2K2R w KQkq - 0 1").contains(&"e1c1".to_string()));
    assert!(!names("r3k2r/8/8/8/8/8/8/R3K2R w kq - 0 1").contains(&"e1g1".to_string()));
    // A right without the rook on its corner, or the king on its square,
    // gives no castling move.
    assert!(!names("4k3/8/8/8/8/8/8/4K3 w KQ - 0 1").contains(&"e1g1".to_string()));
    assert!(!names("4k3/8/8/8/8/8/8/R2K3R w KQ - 0 1").contains(&"e1g1".to_string()));
}

#[test]
fn pawns_push_capture_and_promote() {
    let tables = init_statics().unwrap();
    let fen = "4k3/8/8/8/8/8/4P3/4K3 w - - 0 1";
    assert_eq!(after(&tables, fen, "e2e4"), "4k3/8/8/8/4P3/8/8/4K3 b - e3 1 1");
    assert_eq!(after(&tables, fen, "e2e3"), "4k3/8/8/8/8/4P3/8/4K3 b - - 1 1");
    let black = "4k3/4p3/8/8/8/8/8/4K3 b - - 0 1";
    assert_eq!(after(&tables, black, "e7e5"), "4k3/8/8/4p3/8/8/8/4K3 w - e6 1 1");
    let names = |fen: &str| persa_chess::get_moves(&tables, fen.to_string()).unwrap();
    // A blocked pawn does not push, and does not jump over a piece.
    assert!(!names("4k3/8/8/8/8/4n3/4P3/4K3 w - - 0 1").contains(&"e2e3".to_string()));
    assert!(!names("4k3/8/8/8/8/4n3/4P3/4K3 w - - 0 1").contains(&"e2e4".to_string()));
    assert!(!names("4k3/8/8/8/4n3/8/4P3/4K3 w - - 0 1").contains(&"e2e4".to_string()));
    assert!(names("4k3/8/8/8/4n3/8/4P3/4K3 w - - 0 1").contains(&"e2e3".to_string()));
    // Captures in passing, for either side, and only onto the square given.
    assert_eq!(
        after(&tables, "4k3/8/8/8/3pP3/8/8/4K3 b - e3 0 1", "d4e3"),
        "4k3/8/8/8/8/4p3/8/4K3 w - - 1 1"
    );
    assert!(!names("4k3/8/8/8/3pP3/8/8/4K3 b - - 0 1").contains(&"d4e3".to_string()));
    assert!(!names("4k3/8/8/8/3p4/8/8/4K3 b - e3 0 1").contains(&"d4e3".to_string()));
    // Promotions, with and without a capture.
    let promoting = "1n2k3/P7/8/8/8/8/8/4K3 w - - 0 1";
    assert_eq!(after(&tables, promoting, "a7a8q"), "Qn2k3/8/8/8/8/8/8/4K3 b - - 1 1");
    assert_eq!(after(&tables, promoting, "a7b8r"), "1R2k3/8/8/8/8/8/8/4K3 b - - 1 1");
    assert_eq!(
        after(&tables, "4k3/8/8/8/8/8/p7/1N2K3 b - - 0 1", "a2b1b"),
        "4k3/8/8/8/8/8/8/1b2K3 w - - 1 1"
    );
    assert_eq!(names(promoting).iter().filter(|name| name.len() == 5).count(), 8);
}

#[test]
fn a_search_ends_by_signal_clock_or_count_of_nodes() {
    assert!(!limit_passed(4, None));
    assert!(!limit_passed(4, Some(5)));
    assert!(limit_passed(5, Some(5)));
    assert!(limit_passed(6, Some(5)));
    assert!(!search_is_over(false, false, false, None, 7));
    assert!(!search_is_over(false, false, false, Some(8), 7));
    assert!(search_is_over(false, false, false, Some(7), 7));
    assert!(search_is_over(true, false, false, None, 0));
    assert!(search_is_over(false, true, false, None, 0));
    assert!(search_is_over(false, false, true, Some(9), 0));
    let tables = init_statics().unwrap();
    let mut info = info(START).set_depth_limit(2);
    assert!(!info.time_is_up());
    assert!(!info.is_search_fnished());
    assert!(!info.ask());
    info.time_limit = Some(usize::MAX);
    assert!(!info.time_is_up());
    assert_eq!(find_best_move(&mut info, &tables), 2);
    info.time_limit = Some(0);
    assert!(info.time_is_up());
    assert!(info.is_search_fnished());
    assert!(info.ask());
    assert_eq!(find_best_move(&mut info, &tables), 0);
    assert_eq!(negamax(&mut info, &tables, 100, -100, 0), None);
    assert_eq!(quiescence(&mut info, &tables, 100, -100, 3), None);
    assert!(search_root(&mut info, &tables, 1).is_none());
    info.time_limit = None;
    info.nodes_limit = Some(info.node_count + 1);
    assert_eq!(negamax(&mut info, &tables, 100, -100, 2), None);
    set_signal(&info.quit_signal, true);
    info.nodes_limit = None;
    assert!(info.is_search_fnished());
}

#[test]
fn a_quiet_move_that_cuts_the_search_short_becomes_the_first_killer_move() {
    let tables = init_statics().unwrap();
    // Every move of White is good enough for so low a bound: the first cuts.
    let mut first = info(START);
    assert_eq!(negamax(&mut first, &tables, -500, -600, 1), Some(-500));
    let killers = first.board_history.killers_at(0);
    assert_eq!(killers.0.get_move_name(), "a2a3");
    assert!(killers.1 == MoveBitField::no_move());
    assert!(first.board_history.killers_at(1).0 == MoveBitField::no_move());
    // The killer move is now tried first, cuts again, and the former first
    // becomes the second.
    let other = MoveBitField::new(BoardSlots::WhiteKnight, Square(6), Square(21));
    first.board_history.append_killer_move(other, 0);
    assert_eq!(negamax(&mut first, &tables, -500, -600, 1), Some(-500));
    let killers = first.board_history.killers_at(0);
    assert_eq!(killers.0.get_move_name(), "g1f3");
    assert_eq!(killers.1.get_move_name(), "g1f3");
    // A capture that cuts is no killer move, and neither is a move at a
    // node where nothing cuts.
    let mut taking = info("4k3/8/8/3q4/4P3/8/8/4K3 w - - 0 1");
    assert_eq!(negamax(&mut taking, &tables, 100, -100, 1), Some(100));
    assert!(taking.board_history.killers_at(0).0 == MoveBitField::no_move());
    let mut open = info(START);
    let value = negamax(&mut open, &tables, 1000000, -1000000, 1).unwrap();
    assert!(value > -500 && value < 500);
    assert!(open.board_history.killers_at(0).0 == MoveBitField::no_move());
    // A search that is told to end leaves the killer moves of its ply.
    let mut ended = info(START).set_nodes_limit(3);
    assert_eq!(negamax(&mut ended, &tables, -500, -600, 2), None);
    assert!(ended.board_history.killers_at(0).0 == MoveBitField::no_move());
}

#[test]
fn no_move_is_listed_twice_and_no_name_is_given_twice() {
    let tables = init_statics().unwrap();
    for (fen, count) in [
        (START, 20),
        ("r3k2r/p1ppqpb1/bn2pnp1/3PN3/1p2P3/2N2Q1p/PPPBBPPP/R3K2R w KQkq - 0 1", 48),
        ("n1n5/PPPk4/8/8/8/8/4Kppp/5N1N b - - 0 1", 24),
        ("rnbqkbnr/ppp1p1pp/8/3pPp2/8/8/PPPP1PPP/RNBQKBNR w KQkq f6 0 3", 31),
        ("8/2p5/3p4/KP5r/1R3p1k/8/4P1P1/8 w - - 0 1", 14),
    ] {
        let info = info(fen);
        let list = MoveList::new(&info, &tables);
        let generated = MoveList::generate(&info.board, &tables);
        assert_eq!(list.count, generated.count);
        let moves = list.iterate_moves();
        for i in 0..moves.len() {
            for j in (i + 1)..moves.len() {
                assert_ne!(moves[i].0 & 0xffffff, moves[j].0 & 0xffffff);
                assert!(moves[i].get_score() >= moves[j].get_score());
            }
        }
        for mov in generated.iterate_moves() {
            assert_eq!(mov.get_score(), 0);
            assert_eq!(moves.iter().filter(|other| other.0 & 0xffffff == mov.0).count(), 1);
        }
        let names = persa_chess::get_moves(&tables, fen.to_string()).unwrap();
        assert_eq!(names.len(), count);
        for i in 0..names.len() {
            for j in (i + 1)..names.len() {
                assert_ne!(names[i], names[j]);
            }
        }
    }
}

#[test]
fn a_list_holds_every_move_of_a_position_however_many_there_are() {
    let tables = init_statics().unwrap();
    let info = info("QQQQQQQQ/Q6Q/Q6Q/Q6Q/Q6Q/Q6Q/Q6Q/QQQQQQQQ w - - 0 1");
    let list = MoveList::new(&info, &tables);
    assert_eq!(list.count, 288);
    assert_eq!(list.iterate_moves().len(), 288);
    let moves = list.iterate_moves();
    for i in 0..moves.len() {
        for j in (i + 1)..moves.len() {
            assert_ne!(moves[i].0 & 0xffffff, moves[j].0 & 0xffffff);
        }
    }
}

#[test]
fn every_node_that_a_search_comes_to_is_counted() {
    let tables = init_statics().unwrap();
    let mut quiet = info(START);
    assert!(quiescence(&mut quiet, &tables, 1000000, -1000000, 4).is_some());
    assert_eq!(quiet.node_count, 1);
    let mut one = info(START);
    assert!(negamax(&mut one, &tables, 1000000, -1000000, 1).is_some());
    assert_eq!(one.node_count, 21);
    let mut two = info(START);
    assert!(negamax(&mut two, &tables, 1000000, -1000000, 1).is_some());
    assert!(negamax(&mut two, &tables, 1000000, -1000000, 1).is_some());
    assert_eq!(two.node_count, 42);
    let mut root = info(START);
    root.node_count = 17;
    assert!(search_root(&mut root, &tables, 1).is_some());
    assert_eq!(root.node_count, 21);
    let mut mated = info("R5k1/5ppp/8/8/8/8/8/4K3 b - - 0 1");
    assert!(search_root(&mut mated, &tables, 3).is_some());
    assert_eq!(mated.node_count, 1);
}
