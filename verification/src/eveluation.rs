//! The evaluation of a position and the search for the best move.

use vstd::prelude::*;
use crate::bits::{drop_lowest, lemma_lowest, lemma_popcount, lowest, popcount};
use crate::board_components::{BitBoard, Color};
use crate::constants::eveluation_constants::{
    lemma_square_scores, piece_value, value_of_piece, INFINITY_SCORE, MATE_SCORE, MAX_DEPTH,
    QUIET_PLIES,
};
use crate::pieces::pieces_controller::{is_in_check, BoardStatus, MoveBitField, MoveList, Position};
use crate::pieces::tables::AttackTables;
use crate::search_value::{
    best_over, clamped, covers, greater, has_move, lemma_best_over_same, lemma_best_over_upper,
    first_cut, first_legal, first_safe, killers_after, lemma_first_legal_pick,
    lemma_node_value_bound, lemma_ordered_covers, lemma_quiet_over_same, lemma_quiet_over_upper,
    lemma_quiet_over_witness, lemma_root_choice_pick, lemma_search_result_tells, lemma_some_legal,
    node_value, quiet_over, quiet_value, reply_value, root_choice, root_pick, search_result,
    VALUE_BOUND,
};
use crate::uci::{lemma_went_on, was_stopped, went_on, UciInformation};

verus! {

/// The square that mirrors `s` across the middle of the board: the same
/// file, the rank counted from the other side.
pub open spec fn mirrored(s: int) -> int {
    8 * (7 - s / 8) + s % 8
}

/// What the pieces of kind `kind` on the squares of `mask` are worth
/// together, as white pieces on their squares or, for `mirror`, on the
/// mirrored squares.
pub open spec fn board_value(mask: u64, kind: int, mirror: bool) -> int
    decreases mask,
    via board_value_decreases
{
    if mask == 0 {
        0
    } else {
        piece_value(
            kind,
            if mirror {
                mirrored(lowest(mask))
            } else {
                lowest(mask)
            },
        ) + board_value(drop_lowest(mask), kind, mirror)
    }
}

/// A mask without its lowest square is a smaller number.
#[via_fn]
proof fn board_value_decreases(mask: u64, kind: int, mirror: bool) {
    if mask != 0 {
        lemma_lowest(mask);
    }
}

/// What the six kinds of pieces from place `first` on are worth together.
pub open spec fn side_value(pos: Position, first: int, mirror: bool) -> int {
    board_value(pos.slot(first), 0, mirror) + board_value(pos.slot(first + 1), 1, mirror)
        + board_value(pos.slot(first + 2), 2, mirror) + board_value(pos.slot(first + 3), 3, mirror)
        + board_value(pos.slot(first + 4), 4, mirror) + board_value(pos.slot(first + 5), 5, mirror)
}

/// The worth of a position to the side that is to move: what its own
/// pieces are worth less what the other side's are, each piece by its
/// material and its square, Black's squares seen from Black's side.
#[verifier::opaque]
pub open spec fn evaluation(pos: Position) -> int {
    let white = side_value(pos, 0, false) - side_value(pos, 6, true);
    match pos.color {
        Color::White => white,
        Color::Black => -white,
    }
}

/// No board of pieces is worth more than eleven hundred for each of its
/// pieces.
pub proof fn lemma_board_value(mask: u64, kind: int, mirror: bool)
    ensures
        -1100 * popcount(mask) <= board_value(mask, kind, mirror) <= 1100 * popcount(mask),
        popcount(mask) <= 64,
    decreases mask,
{
    lemma_popcount(mask);
    if mask != 0 {
        lemma_lowest(mask);
        let s = lowest(mask);
        lemma_square_scores(s);
        lemma_square_scores(mirrored(s));
        lemma_board_value(drop_lowest(mask), kind, mirror);
    }
}

/// No position is worth more to either side than all boards full of
/// pieces would be.
pub proof fn lemma_evaluation(pos: Position)
    ensures
        -844800 <= evaluation(pos) <= 844800,
{
    reveal(evaluation);
    lemma_board_value(pos.slot(0), 0, false);
    lemma_board_value(pos.slot(1), 1, false);
    lemma_board_value(pos.slot(2), 2, false);
    lemma_board_value(pos.slot(3), 3, false);
    lemma_board_value(pos.slot(4), 4, false);
    lemma_board_value(pos.slot(5), 5, false);
    lemma_board_value(pos.slot(6), 0, true);
    lemma_board_value(pos.slot(7), 1, true);
    lemma_board_value(pos.slot(8), 2, true);
    lemma_board_value(pos.slot(9), 3, true);
    lemma_board_value(pos.slot(10), 4, true);
    lemma_board_value(pos.slot(11), 5, true);
}

/// What the pieces of one kind on the squares of `mask` are worth together.
pub fn value_of_board(mask: u64, kind: usize, mirror: bool) -> (r: isize)
    ensures
        r == board_value(mask, kind as int, mirror),
        -70400 <= r <= 70400,
{
    let mut rest = BitBoard(mask);
    let mut score: isize = 0;
    let mut seen: isize = 0;
    proof {
        lemma_popcount(mask);
    }
    while rest.0 != 0
        invariant
            0 <= seen,
            seen + popcount(rest.0) == popcount(mask),
            popcount(mask) <= 64,
            -1100 * seen <= score <= 1100 * seen,
            score + board_value(rest.0, kind as int, mirror) == board_value(
                mask,
                kind as int,
                mirror,
            ),
        decreases rest.0,
    {
        let square = rest.pop_square();
        let at: u8 = if mirror {
            8 * (7 - square.0 / 8) + square.0 % 8
        } else {
            square.0
        };
        score = score + value_of_piece(kind, at);
        seen = seen + 1;
    }
    score
}

/// What the six kinds of pieces of one side are worth together.
pub fn value_of_side(board_status: &BoardStatus, first: usize, mirror: bool) -> (r: isize)
    requires
        first + 6 <= 15,
    ensures
        r == side_value(board_status@, first as int, mirror),
        -422400 <= r <= 422400,
{
    value_of_board(board_status.mask(first), 0, mirror) + value_of_board(
        board_status.mask(first + 1),
        1,
        mirror,
    ) + value_of_board(board_status.mask(first + 2), 2, mirror) + value_of_board(
        board_status.mask(first + 3),
        3,
        mirror,
    ) + value_of_board(board_status.mask(first + 4), 4, mirror) + value_of_board(
        board_status.mask(first + 5),
        5,
        mirror,
    )
}

/// The worth of the position to the side that is to move.
pub fn eveluate(board_status: &BoardStatus) -> (r: isize)
    ensures
        r == evaluation(board_status@),
        -844800 <= r <= 844800,
{
    proof {
        reveal(evaluation);
    }
    let score = value_of_side(board_status, 0, false) - value_of_side(board_status, 6, true);
    match board_status.get_color() {
        Color::White => score,
        Color::Black => -score,
    }
}

impl UciInformation {
    /// The two searches differ in nothing but, possibly, the count of nodes,
    /// what the search remembers, and the answers it was given when it asked
    /// whether it has to end.
    pub open spec fn same_search(&self, other: &UciInformation) -> bool {
        *self == (UciInformation {
            node_count: self.node_count,
            board_history: self.board_history,
            answers: self.answers,
            ..*other
        })
    }

    /// What a search that may be told to end has to say of its answers: where
    /// it comes to a result, it was told to go on each time it asked; where it
    /// comes to none, the last answer it was given told it to end, and the
    /// answers before told it to go on.
    pub open spec fn heard(&self, before: &UciInformation, done: bool) -> bool {
        if done {
            went_on(before.answers@, self.answers@)
        } else {
            was_stopped(before.answers@, self.answers@)
        }
    }

    /// The two searches differ in nothing but, possibly, the count of nodes
    /// and the killer moves that the search remembers.
    pub open spec fn same_but_killers(&self, other: &UciInformation) -> bool {
        &&& self.same_search(other)
        &&& self.board_history.found_best_move == other.board_history.found_best_move
    }

    /// The node that is searched next is the last that the node limit, if
    /// there is one, allows, or is beyond it.
    pub open spec fn at_node_limit(&self) -> bool {
        self.nodes_limit matches Some(limit) && self.node_count + 1 >= limit
    }

    /// The killer moves of the plies before the ply `upto` are those that
    /// `before` remembers.
    pub open spec fn kept_killers(&self, before: &UciInformation, upto: nat) -> bool {
        forall|p: nat|
            p < upto ==> #[trigger] self.board_history.killers(p) == before.board_history.killers(
                p,
            )
    }

    /// The node limit allows no node below the root: it is two at most, the
    /// root being the first node.
    pub open spec fn tight_node_limit(&self) -> bool {
        self.nodes_limit matches Some(limit) && limit <= 2
    }

    /// The search has counted one node for each time that it asked since
    /// `before`: at every node it comes to it counts the node and asks once.
    pub open spec fn counted_since(&self, before: &UciInformation) -> bool {
        self.node_count == nodes_after(
            before.node_count as int,
            self.answers@.len() - before.answers@.len(),
        )
    }

    /// Counts one more node, unless the counter is at its limit.
    pub fn count_node(&mut self)
        ensures
            *final(self) == (UciInformation { node_count: final(self).node_count, ..*old(self) }),
            final(self).node_count == if old(self).node_count < usize::MAX {
                old(self).node_count + 1
            } else {
                old(self).node_count as int
            },
    {
        if self.node_count < usize::MAX {
            self.node_count = self.node_count + 1;
        }
    }
}

/// The count of nodes once `more` nodes have been counted on top of `from`:
/// one more for each, as far as the counter goes.
pub open spec fn nodes_after(from: int, more: int) -> int {
    if from + more <= usize::MAX {
        from + more
    } else {
        usize::MAX as int
    }
}

/// The search for a quiet position: the worth of the position as it
/// stands, bettered by what its best legal capture leads to, held within
/// the bounds `alpha` and `beta`. It counts every node it comes to and asks
/// there whether it has to end: it comes to its result where it is told to
/// go on each time, and to `None` as soon as it is told to end.
pub fn quiescence(
    uci_info: &mut UciInformation,
    tables: &AttackTables,
    beta: isize,
    alpha: isize,
    plies: usize,
) -> (r: Option<isize>)
    requires
        tables.wf(),
        -INFINITY_SCORE <= alpha < beta <= INFINITY_SCORE,
    ensures
        final(uci_info).same_but_killers(old(uci_info)),
        final(uci_info).board_history == old(uci_info).board_history,
        final(uci_info).heard(old(uci_info), r is Some),
        final(uci_info).counted_since(old(uci_info)),
        old(uci_info).at_node_limit() ==> r is None,
        r matches Some(v) ==> v == clamped(
            quiet_value(old(uci_info).board@, plies as nat),
            alpha as int,
            beta as int,
        ),
    decreases plies,
{
    let ghost pos = uci_info.board@;
    let ghost first = uci_info.answers@;
    uci_info.count_node();
    if uci_info.ask() {
        return None;
    }
    let stdpt = eveluate(&uci_info.board);
    let move_list = MoveList::new(uci_info, tables);
    let ghost killers = uci_info.board_history.killers(pos.half_move);
    let ghost list = move_list@;
    proof {
        lemma_ordered_covers(pos, killers);
        lemma_quiet_over_same(pos, list, pos.generated(), plies as nat, stdpt as int);
        let at = lemma_quiet_over_witness(pos, list, plies as nat, stdpt as int);
    }
    if stdpt >= beta {
        return Some(beta);
    }
    let mut best = if stdpt > alpha {
        stdpt
    } else {
        alpha
    };
    if plies == 0 {
        return Some(best);
    }
    let old_board = uci_info.board;
    let mut i: usize = 0;
    while i < move_list.moves.len()
        invariant
            tables.wf(),
            plies > 0,
            i <= list.len(),
            list == move_list@,
            pos == old_board@,
            uci_info.same_but_killers(old(uci_info)),
            uci_info.board_history == old(uci_info).board_history,
            first == old(uci_info).answers@,
            went_on(first, uci_info.answers@),
            uci_info.counted_since(old(uci_info)),
            !old(uci_info).at_node_limit(),
            uci_info.board == old_board,
            -INFINITY_SCORE <= alpha <= best < beta <= INFINITY_SCORE,
            stdpt == evaluation(pos),
            quiet_over(pos, list.take(i as int), plies as nat, stdpt as int) < beta,
            best == greater(
                alpha as int,
                quiet_over(pos, list.take(i as int), plies as nat, stdpt as int),
            ),
            quiet_value(pos, plies as nat) == quiet_over(pos, list, plies as nat, stdpt as int),
        decreases list.len() - i,
    {
        let mov = move_list.moves[i];
        proof {
            let upto = list.take(i + 1);
            assert(upto.drop_last() =~= list.take(i as int));
            assert(upto.last() == mov);
        }
        if mov.is_move_capture() {
            if uci_info.board.make_move(tables, mov) {
                let ghost asked = uci_info.answers@;
                let reply = quiescence(uci_info, tables, -best, -beta, plies - 1);
                uci_info.board = old_board;
                proof {
                    lemma_went_on(first, asked, uci_info.answers@);
                }
                match reply {
                    None => {
                        return None;
                    },
                    Some(value) => {
                        let score = -value;
                        if score >= beta {
                            proof {
                                lemma_quiet_over_upper(
                                    pos,
                                    list,
                                    plies as nat,
                                    stdpt as int,
                                    i as int,
                                );
                            }
                            return Some(beta);
                        }
                        if score > best {
                            best = score;
                        }
                    },
                }
            }
        }
        i = i + 1;
    }
    proof {
        assert(list.take(list.len() as int) =~= list);
    }
    Some(best)
}

/// The search to the depth `depth`: the value of the position under best
/// play, held within the bounds `alpha` and `beta`; but the value as it is
/// where the side to move has no legal move. It counts every node it comes
/// to and asks there whether it has to end: it comes to its result where it
/// is told to go on each time, and to `None` as soon as it is told to end.
/// A quiet move that reaches `beta` becomes the first killer move of the
/// ply, and the first before it the second.
pub fn negamax(
    uci_info: &mut UciInformation,
    tables: &AttackTables,
    beta: isize,
    alpha: isize,
    depth: isize,
) -> (r: Option<isize>)
    requires
        tables.wf(),
        0 <= depth <= MAX_DEPTH,
        -INFINITY_SCORE <= alpha < beta <= INFINITY_SCORE,
    ensures
        final(uci_info).same_but_killers(old(uci_info)),
        final(uci_info).heard(old(uci_info), r is Some),
        final(uci_info).counted_since(old(uci_info)),
        final(uci_info).kept_killers(old(uci_info), old(uci_info).board@.half_move),
        final(uci_info).board_history.killers(old(uci_info).board@.half_move) == (if r is Some {
            killers_after(
                old(uci_info).board@,
                old(uci_info).board_history.killers(old(uci_info).board@.half_move),
                depth as nat,
                beta as int,
            )
        } else {
            old(uci_info).board_history.killers(old(uci_info).board@.half_move)
        }),
        old(uci_info).at_node_limit() ==> r is None,
        r matches Some(v) ==> v == search_result(
            old(uci_info).board@,
            depth as nat,
            alpha as int,
            beta as int,
        ),
    decreases depth,
{
    if depth == 0 {
        return quiescence(uci_info, tables, beta, alpha, QUIET_PLIES);
    }
    let ghost pos = uci_info.board@;
    let ghost first = uci_info.answers@;
    uci_info.count_node();
    if uci_info.ask() {
        return None;
    }
    let move_list = MoveList::new(uci_info, tables);
    let ghost killers = uci_info.board_history.killers(pos.half_move);
    let ghost list = move_list@;
    proof {
        lemma_ordered_covers(pos, killers);
        lemma_best_over_same(pos, list, pos.generated(), depth as nat);
    }
    let mut move_count: usize = 0;
    let old_board = uci_info.board;
    let mut best = alpha;
    let mut i: usize = 0;
    while i < move_list.moves.len()
        invariant
            tables.wf(),
            0 < depth <= MAX_DEPTH,
            i <= list.len(),
            list == move_list@,
            pos == old_board@,
            uci_info.same_but_killers(old(uci_info)),
            killers == old(uci_info).board_history.killers(pos.half_move),
            list == pos.ordered_moves(killers),
            uci_info.kept_killers(old(uci_info), pos.half_move + 1),
            first_cut(pos, list, depth as nat, beta as int, 0) == first_cut(
                pos,
                list,
                depth as nat,
                beta as int,
                i as int,
            ),
            first == old(uci_info).answers@,
            went_on(first, uci_info.answers@),
            uci_info.counted_since(old(uci_info)),
            !old(uci_info).at_node_limit(),
            uci_info.board == old_board,
            move_count <= i,
            -INFINITY_SCORE <= alpha <= best < beta <= INFINITY_SCORE,
            move_count == 0 <==> best_over(pos, list.take(i as int), depth as nat) is None,
            best == (match best_over(pos, list.take(i as int), depth as nat) {
                Some(v) => greater(alpha as int, v),
                None => alpha as int,
            }),
            best_over(pos, list.take(i as int), depth as nat) matches Some(v) ==> v < beta,
            best_over(pos, pos.generated(), depth as nat) == best_over(pos, list, depth as nat),
        decreases list.len() - i,
    {
        let mov = move_list.moves[i];
        proof {
            let upto = list.take(i + 1);
            assert(upto.drop_last() =~= list.take(i as int));
            assert(upto.last() == mov);
        }
        if uci_info.board.make_move(tables, mov) {
            let ghost asked = uci_info.answers@;
            let ghost remembered = uci_info.board_history;
            let reply = negamax(uci_info, tables, -best, -beta, depth - 1);
            uci_info.board = old_board;
            proof {
                lemma_went_on(first, asked, uci_info.answers@);
                pos.lemma_moved_counters(mov);
                assert forall|p: nat| p < pos.half_move + 1 implies #[trigger]
                    uci_info.board_history.killers(p) == old(uci_info).board_history.killers(
                    p,
                ) by {
                    assert(remembered.killers(p) == old(uci_info).board_history.killers(p));
                    if p < pos.moved(mov).half_move {
                        assert(uci_info.board_history.killers(p) == remembered.killers(p));
                    }
                }
            }
            match reply {
                None => {
                    return None;
                },
                Some(value) => {
                    proof {
                        lemma_search_result_tells(
                            pos.moved(mov),
                            (depth - 1) as nat,
                            -beta as int,
                            -best as int,
                        );
                    }
                    let score = -value;
                    if score >= beta {
                        if !mov.is_move_capture() {
                            uci_info.board_history.append_killer_move(
                                mov,
                                old_board.get_half_move(),
                            );
                        }
                        proof {
                            lemma_best_over_upper(pos, list, depth as nat, i as int);
                        }
                        return Some(beta);
                    }
                    if score > best {
                        best = score;
                    }
                    move_count = move_count + 1;
                },
            }
        }
        i = i + 1;
    }
    proof {
        assert(list.take(list.len() as int) =~= list);
    }
    if move_count == 0 {
        if is_in_check(&uci_info.board, tables, uci_info.board.get_color()) {
            return Some(-MATE_SCORE - depth);
        }
        return Some(0);
    }
    Some(best)
}

/// The search of the root to the depth `depth`: the best move of the
/// position and its value. It comes to them where the search below the root
/// is told to go on each time it asks whether it has to end, and to `None` as
/// soon as that search is told to end. The root is the first node counted.
pub fn search_root(uci_info: &mut UciInformation, tables: &AttackTables, depth: isize) -> (r:
    Option<(MoveBitField, isize)>)
    requires
        tables.wf(),
        1 <= depth <= MAX_DEPTH,
    ensures
        final(uci_info).same_but_killers(old(uci_info)),
        final(uci_info).heard(old(uci_info), r is Some),
        final(uci_info).node_count == nodes_after(
            1,
            final(uci_info).answers@.len() - old(uci_info).answers@.len(),
        ),
        old(uci_info).board@.legal_moves().len() == 0 ==> r is Some && final(uci_info).answers@
            == old(uci_info).answers@,
        old(uci_info).tight_node_limit() && old(uci_info).board@.legal_moves().len() > 0 ==> r
            is None,
        r matches Some(found) ==> root_choice(
            old(uci_info).board@,
            depth as nat,
            found.0,
            found.1 as int,
        ),
{
    let ghost pos = uci_info.board@;
    let ghost first = uci_info.answers@;
    uci_info.node_count = 1;
    let move_list = MoveList::new(uci_info, tables);
    let ghost killers = uci_info.board_history.killers(pos.half_move);
    let ghost list = move_list@;
    proof {
        lemma_ordered_covers(pos, killers);
        lemma_best_over_same(pos, list, pos.generated(), depth as nat);
        lemma_some_legal(pos, depth as nat);
    }
    let mut best_move = MoveBitField::no_move();
    let beta: isize = INFINITY_SCORE;
    let mut alpha: isize = -INFINITY_SCORE;
    let old_board = uci_info.board;
    let mut i: usize = 0;
    while i < move_list.moves.len()
        invariant
            tables.wf(),
            1 <= depth <= MAX_DEPTH,
            i <= list.len(),
            list == move_list@,
            pos == old_board@,
            covers(list, pos.generated()),
            uci_info.same_but_killers(old(uci_info)),
            first == old(uci_info).answers@,
            went_on(first, uci_info.answers@),
            uci_info.node_count == nodes_after(1, uci_info.answers@.len() - first.len()),
            best_over(pos, list.take(i as int), depth as nat) is None ==> uci_info.answers@
                == first && uci_info.node_count == 1,
            old(uci_info).tight_node_limit() ==> best_over(
                pos,
                list.take(i as int),
                depth as nat,
            ) is None,
            best_over(pos, pos.generated(), depth as nat) is Some <==> pos.legal_moves().len()
                > 0,
            uci_info.board == old_board,
            beta == INFINITY_SCORE,
            match best_over(pos, list.take(i as int), depth as nat) {
                Some(v) => {
                    &&& alpha == v
                    &&& -VALUE_BOUND <= v <= VALUE_BOUND
                    &&& has_move(pos.generated(), best_move)
                    &&& pos.leaves_king_safe(best_move)
                    &&& reply_value(pos, best_move, depth as nat) == v
                },
                None => alpha == -INFINITY_SCORE && best_move.0 == 0,
            },
            best_over(pos, pos.generated(), depth as nat) == best_over(pos, list, depth as nat),
        decreases list.len() - i,
    {
        let mov = move_list.moves[i];
        proof {
            let upto = list.take(i + 1);
            assert(upto.drop_last() =~= list.take(i as int));
            assert(upto.last() == mov);
        }
        if uci_info.board.make_move(tables, mov) {
            let ghost asked = uci_info.answers@;
            let reply = negamax(uci_info, tables, -alpha, -beta, depth - 1);
            uci_info.board = old_board;
            proof {
                lemma_went_on(first, asked, uci_info.answers@);
                lemma_best_over_upper(pos, list, depth as nat, i as int);
            }
            match reply {
                None => {
                    return None;
                },
                Some(value) => {
                    proof {
                        lemma_search_result_tells(
                            pos.moved(mov),
                            (depth - 1) as nat,
                            -beta as int,
                            -alpha as int,
                        );
                        lemma_node_value_bound(pos.moved(mov), (depth - 1) as nat);
                    }
                    let score = -value;
                    if score > alpha {
                        alpha = score;
                        best_move = mov;
                        proof {
                            assert(has_move(pos.generated(), list[i as int]));
                        }
                    }
                },
            }
        }
        i = i + 1;
    }
    proof {
        assert(list.take(list.len() as int) =~= list);
        if best_over(pos, list, depth as nat) is Some {
            assert(node_value(pos, depth as nat) == best_over(
                pos,
                pos.generated(),
                depth as nat,
            )->0);
        }
    }
    Some((best_move, alpha))
}

/// The depth to which a search with the depth limit `limit` goes if it is
/// not told to end: the limit, but no less than none and no more than the
/// greatest depth there is.
pub open spec fn depth_aim(limit: isize) -> int {
    if limit > MAX_DEPTH {
        MAX_DEPTH as int
    } else if limit < 0 {
        0
    } else {
        limit as int
    }
}

/// The first legal move of the position of `uci_info` in the order in
/// which the search tries the moves; no move where none is legal.
pub fn first_legal_move(uci_info: &UciInformation, tables: &AttackTables) -> (r: MoveBitField)
    requires
        tables.wf(),
    ensures
        r == first_legal(
            uci_info.board@,
            uci_info.board_history.killers(uci_info.board@.half_move),
        ),
        root_pick(uci_info.board@, r),
{
    let moves = MoveList::new(uci_info, tables);
    let ghost pos = uci_info.board@;
    let ghost killers = uci_info.board_history.killers(pos.half_move);
    proof {
        lemma_first_legal_pick(pos, killers);
    }
    let mut i: usize = 0;
    while i < moves.moves.len()
        invariant
            tables.wf(),
            i <= moves@.len(),
            pos == uci_info.board@,
            moves@ == pos.ordered_moves(killers),
            killers == uci_info.board_history.killers(pos.half_move),
            root_pick(pos, first_legal(pos, killers)),
            first_safe(pos, moves@, 0) == first_safe(pos, moves@, i as int),
        decreases moves@.len() - i,
    {
        let mov = moves.moves[i];
        let mut scratch = uci_info.board;
        if scratch.make_move(tables, mov) {
            return mov;
        }
        i = i + 1;
    }
    MoveBitField::no_move()
}

/// Searches the position of `uci_info` one depth after another, up to its
/// depth limit and to the greatest depth there is, and remembers the best
/// move of the last depth that it searched to its end; until a depth is
/// searched to its end it remembers the first legal move, so that a search
/// that is told to end has a legal move to give wherever there is one.
/// Returns the last depth searched to its end: the depth it aimed at where
/// it was told to go on each time it asked, and a lesser one where it was
/// told to end. With a depth limit below one nothing is searched and
/// nothing changes.
pub fn find_best_move(uci_info: &mut UciInformation, tables: &AttackTables) -> (r: isize)
    requires
        tables.wf(),
    ensures
        final(uci_info).same_search(old(uci_info)),
        0 <= r <= depth_aim(old(uci_info).depth_limit),
        final(uci_info).heard(old(uci_info), r == depth_aim(old(uci_info).depth_limit)),
        old(uci_info).depth_limit < 1 ==> *final(uci_info) == *old(uci_info),
        old(uci_info).depth_limit >= 1 ==> 1 <= final(uci_info).node_count <= nodes_after(
            1,
            final(uci_info).answers@.len() - old(uci_info).answers@.len(),
        ),
        old(uci_info).depth_limit >= 1 ==> root_pick(
            old(uci_info).board@,
            final(uci_info).board_history.found_best_move,
        ),
        old(uci_info).board@.legal_moves().len() == 0 ==> r == depth_aim(
            old(uci_info).depth_limit,
        ) && final(uci_info).answers@ == old(uci_info).answers@,
        old(uci_info).tight_node_limit() && old(uci_info).depth_limit >= 1 && old(
            uci_info,
        ).board@.legal_moves().len() > 0 ==> r == 0,
        r >= 1 ==> root_choice(
            old(uci_info).board@,
            r as nat,
            final(uci_info).board_history.found_best_move,
            node_value(old(uci_info).board@, r as nat),
        ),
{
    if uci_info.depth_limit < 1 {
        return 0;
    }
    let limit: isize = if uci_info.depth_limit > MAX_DEPTH {
        MAX_DEPTH
    } else {
        uci_info.depth_limit
    };
    let ghost pos = uci_info.board@;
    let ghost first = uci_info.answers@;
    let fallback = first_legal_move(uci_info, tables);
    uci_info.board_history.add_new_best_move(fallback);
    let mut depth: isize = 1;
    let mut done: isize = 0;
    while depth <= limit
        invariant
            tables.wf(),
            1 <= depth,
            done == depth - 1,
            done <= limit,
            1 <= limit <= MAX_DEPTH,
            limit == depth_aim(old(uci_info).depth_limit),
            pos == uci_info.board@,
            uci_info.same_search(old(uci_info)),
            first == old(uci_info).answers@,
            went_on(first, uci_info.answers@),
            depth > 1 ==> 1 <= uci_info.node_count <= nodes_after(
                1,
                uci_info.answers@.len() - first.len(),
            ),
            pos.legal_moves().len() == 0 ==> uci_info.answers@ == first,
            old(uci_info).tight_node_limit() && pos.legal_moves().len() > 0 ==> done == 0,
            root_pick(pos, uci_info.board_history.found_best_move),
            done >= 1 ==> root_choice(
                pos,
                done as nat,
                uci_info.board_history.found_best_move,
                node_value(pos, done as nat),
            ),
        decreases limit + 1 - depth,
    {
        let ghost asked = uci_info.answers@;
        let found = search_root(uci_info, tables, depth);
        proof {
            lemma_went_on(first, asked, uci_info.answers@);
        }
        match found {
            None => {
                return done;
            },
            Some(found) => {
                uci_info.board_history.add_new_best_move(found.0);
                proof {
                    assert(root_choice(pos, depth as nat, found.0, found.1 as int));
                    lemma_root_choice_pick(pos, depth as nat, found.0, found.1 as int);
                }
            },
        }
        done = depth;
        depth = depth + 1;
    }
    done
}

} // verus!
