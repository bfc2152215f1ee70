//! What holds of the moves of every position: of the legal moves among
//! those generated, and of the order in which the search tries them.

use vstd::prelude::*;
use crate::board_components::{opponent, Color};
use crate::constants::eveluation_constants::mmv_lva_score;
use crate::pieces::move_bits::{lemma_field_bounds, lemma_with_score};
use crate::pieces::pieces_controller::{
    first_piece, insert_by_score, insertion_point, MoveBitField, Position,
};
use crate::uci::UciInformation;

verus! {

impl Position {
    /// The legal moves among `moves` are those of `moves` that leave the
    /// king of the side that moves safe: none of them leaves it attacked, and
    /// none that leaves it safe is left out.
    pub proof fn lemma_legal_among(self, moves: Seq<MoveBitField>, m: MoveBitField)
        ensures
            self.legal_among(moves).contains(m) <==> moves.contains(m) && self.leaves_king_safe(
                m,
            ),
        decreases moves.len(),
    {
        let legal = self.legal_among(moves);
        if moves.len() == 0 {
            assert(!moves.contains(m));
            assert(!legal.contains(m));
        } else {
            let head = moves.drop_last();
            let last = moves.last();
            self.lemma_legal_among(head, m);
            if legal.contains(m) {
                let i = choose|i: int| 0 <= i < legal.len() && legal[i] == m;
                if self.leaves_king_safe(last) && i == legal.len() - 1 {
                    assert(moves[moves.len() - 1] == m);
                } else {
                    assert(self.legal_among(head)[i] == m);
                    let k = choose|k: int| 0 <= k < head.len() && head[k] == m;
                    assert(moves[k] == m);
                }
            }
            if moves.contains(m) && self.leaves_king_safe(m) {
                let k = choose|k: int| 0 <= k < moves.len() && moves[k] == m;
                if k == moves.len() - 1 {
                    assert(legal[legal.len() - 1] == m);
                } else {
                    assert(head[k] == m);
                    let i = choose|i: int|
                        0 <= i < self.legal_among(head).len() && self.legal_among(head)[i] == m;
                    assert(legal[i] == m);
                }
            }
        }
    }

    /// A move is among the legal moves of the position exactly when it is
    /// generated and the position after it does not have the king of the
    /// side that moved attacked.
    pub proof fn lemma_legal_moves(self, m: MoveBitField)
        ensures
            self.legal_moves().contains(m) <==> self.generated().contains(m) && !self.moved(
                m,
            ).in_check(self.color),
    {
        reveal(Position::leaves_king_safe);
        self.lemma_legal_among(self.generated(), m);
    }

    /// Where a scored move goes into a list ordered by falling score, the
    /// list stays so ordered, and holds what it held and the move.
    pub proof fn lemma_insert_by_score(list: Seq<MoveBitField>, mov: MoveBitField)
        requires
            forall|i: int, j: int|
                0 <= i <= j < list.len() ==> list[i].score() >= list[j].score(),
        ensures
            insert_by_score(list, mov).len() == list.len() + 1,
            forall|i: int, j: int|
                0 <= i <= j < insert_by_score(list, mov).len() ==> insert_by_score(
                    list,
                    mov,
                )[i].score() >= insert_by_score(list, mov)[j].score(),
            forall|x: MoveBitField|
                insert_by_score(list, mov).contains(x) <==> list.contains(x) || x == mov,
    {
        let at = insertion_point(list, mov.score(), 0);
        lemma_insertion_point(list, mov.score(), 0);
        let out = insert_by_score(list, mov);
        assert(out == list.insert(at, mov));
        assert forall|i: int, j: int| 0 <= i <= j < out.len() implies out[i].score()
            >= out[j].score() by {
            if i < at && j > at {
                assert(out[i] == list[i]);
                assert(out[j] == list[j - 1]);
            }
        }
        assert forall|x: MoveBitField| out.contains(x) <==> list.contains(x) || x == mov by {
            if out.contains(x) {
                let i = choose|i: int| 0 <= i < out.len() && out[i] == x;
                if i < at {
                    assert(list[i] == x);
                } else if i > at {
                    assert(list[i - 1] == x);
                }
            }
            if list.contains(x) {
                let i = choose|i: int| 0 <= i < list.len() && list[i] == x;
                if i < at {
                    assert(out[i] == x);
                } else {
                    assert(out[i + 1] == x);
                }
            }
            if x == mov {
                assert(out[at] == x);
            }
        }
    }

    /// The moves in the order in which the search tries them come by
    /// falling score, and they are the moves given, each with its score.
    pub proof fn lemma_ranked(self, killers: (MoveBitField, MoveBitField), moves: Seq<MoveBitField>)
        ensures
            self.ranked(killers, moves).len() == moves.len(),
            forall|i: int, j: int|
                0 <= i <= j < moves.len() ==> self.ranked(killers, moves)[i].score()
                    >= self.ranked(killers, moves)[j].score(),
            forall|x: MoveBitField|
                self.ranked(killers, moves).contains(x) <==> exists|k: int|
                    0 <= k < moves.len() && x == self.scored(
                        opponent(self.color),
                        killers,
                        #[trigger] moves[k],
                    ),
        decreases moves.len(),
    {
        let out = self.ranked(killers, moves);
        if moves.len() == 0 {
            assert forall|x: MoveBitField| !out.contains(x) by {}
        } else {
            let head = moves.drop_last();
            let last = self.scored(opponent(self.color), killers, moves.last());
            self.lemma_ranked(killers, head);
            let sorted = self.ranked(killers, head);
            Self::lemma_insert_by_score(sorted, last);
            assert forall|x: MoveBitField|
                out.contains(x) <==> exists|k: int|
                    0 <= k < moves.len() && x == self.scored(
                        opponent(self.color),
                        killers,
                        #[trigger] moves[k],
                    ) by {
                assert(out.contains(x) <==> sorted.contains(x) || x == last);
                if out.contains(x) {
                    if x == last {
                        assert(moves[moves.len() - 1] == moves.last());
                        assert(x == self.scored(
                            opponent(self.color),
                            killers,
                            moves[moves.len() - 1],
                        ));
                    } else {
                        assert(sorted.contains(x));
                        let k = choose|k: int|
                            0 <= k < head.len() && x == self.scored(
                                opponent(self.color),
                                killers,
                                #[trigger] head[k],
                            );
                        assert(moves[k] == head[k]);
                    }
                }
                if exists|k: int|
                    0 <= k < moves.len() && x == self.scored(
                        opponent(self.color),
                        killers,
                        #[trigger] moves[k],
                    ) {
                    let k = choose|k: int|
                        0 <= k < moves.len() && x == self.scored(
                            opponent(self.color),
                            killers,
                            #[trigger] moves[k],
                        );
                    if k < head.len() {
                        assert(head[k] == moves[k]);
                        assert(x == self.scored(opponent(self.color), killers, head[k]));
                        assert(sorted.contains(x));
                    } else {
                        assert(moves[k] == moves.last());
                        assert(x == last);
                    }
                }
            }
        }
    }

    /// Each move in the order in which the search tries them is one of the
    /// moves given, with its score.
    pub proof fn lemma_ranked_source(
        self,
        killers: (MoveBitField, MoveBitField),
        moves: Seq<MoveBitField>,
        i: int,
    ) -> (k: int)
        requires
            0 <= i < self.ranked(killers, moves).len(),
        ensures
            0 <= k < moves.len(),
            self.ranked(killers, moves)[i] == self.scored(
                opponent(self.color),
                killers,
                moves[k],
            ),
            self.ranked(killers, moves)[i].same_move(moves[k]),
    {
        self.lemma_ranked(killers, moves);
        let x = self.ranked(killers, moves)[i];
        assert(self.ranked(killers, moves).contains(x));
        let k = choose|k: int|
            0 <= k < moves.len() && x == self.scored(
                opponent(self.color),
                killers,
                #[trigger] moves[k],
            );
        self.lemma_scored(opponent(self.color), killers, moves[k]);
        k
    }

    /// Each of the moves given is, with its score, one of the moves in the
    /// order in which the search tries them.
    pub proof fn lemma_ranked_target(
        self,
        killers: (MoveBitField, MoveBitField),
        moves: Seq<MoveBitField>,
        k: int,
    ) -> (i: int)
        requires
            0 <= k < moves.len(),
        ensures
            0 <= i < self.ranked(killers, moves).len(),
            self.ranked(killers, moves)[i] == self.scored(
                opponent(self.color),
                killers,
                moves[k],
            ),
            moves[k].same_move(self.ranked(killers, moves)[i]),
    {
        self.lemma_ranked(killers, moves);
        let x = self.scored(opponent(self.color), killers, moves[k]);
        self.lemma_scored(opponent(self.color), killers, moves[k]);
        assert(self.ranked(killers, moves).contains(x));
        let i = choose|i: int|
            0 <= i < self.ranked(killers, moves).len() && self.ranked(killers, moves)[i] == x;
        i
    }

    /// The score written into a move is the score of the move, and leaves
    /// it the same move.
    pub proof fn lemma_scored(self, enemy: Color, killers: (MoveBitField, MoveBitField), m: MoveBitField)
        ensures
            self.scored(enemy, killers, m).score() == self.score_of(enemy, killers, m),
            self.scored(enemy, killers, m).same_move(m),
            0 <= self.score_of(enemy, killers, m) <= 60005,
            self.score_of(enemy, killers, m) >= 10000 <==> m.capture() && self.holder(
                first_piece(enemy),
                6,
                m.target(),
            ) >= 0,
    {
        reveal(Position::score_of);
        let victim = self.holder(first_piece(enemy), 6, m.target());
        self.lemma_holder_range(first_piece(enemy), 6, m.target());
        lemma_field_bounds(m.0);
        let score = self.score_of(enemy, killers, m);
        assert(0 <= score <= 60005) by {
            if m.capture() && victim >= 0 {
                assert(score == mmv_lva_score(m.piece_slot(), victim));
                assert(0 <= victim % 6 <= 5);
                assert(0 <= m.piece_slot() % 6 <= 5);
            }
        }
        lemma_with_score(m.0, score as u64);
    }

    /// In the order in which the search tries the moves, every capture of a
    /// piece comes before every move that takes none.
    pub proof fn lemma_captures_first(
        self,
        killers: (MoveBitField, MoveBitField),
        i: int,
        j: int,
    )
        requires
            0 <= i < self.ordered_moves(killers).len(),
            0 <= j < self.ordered_moves(killers).len(),
            self.ordered_moves(killers)[i].score() >= 10000,
            self.ordered_moves(killers)[j].score() < 10000,
        ensures
            i < j,
    {
        self.lemma_ranked(killers, self.generated());
    }
}

/// The first place from `from` on where a move scores less than `score`
/// has only moves that score at least as much between `from` and it.
pub proof fn lemma_insertion_point(list: Seq<MoveBitField>, score: int, from: int)
    requires
        0 <= from <= list.len(),
    ensures
        from <= insertion_point(list, score, from) <= list.len(),
        forall|i: int|
            from <= i < insertion_point(list, score, from) ==> list[i].score() >= score,
        insertion_point(list, score, from) < list.len() ==> list[insertion_point(
            list,
            score,
            from,
        )].score() < score,
    decreases list.len() - from,
{
    if from < list.len() && list[from].score() >= score {
        lemma_insertion_point(list, score, from + 1);
    }
}

/// Two searches that hold the same position and remember the same killer
/// moves for its ply are given the same moves in the same order.
pub proof fn lemma_ordering_determined(a: UciInformation, b: UciInformation)
    requires
        a.board@ == b.board@,
        a.board_history.killers(a.board@.half_move) == b.board_history.killers(
            b.board@.half_move,
        ),
    ensures
        a.board@.ordered_moves(a.board_history.killers(a.board@.half_move))
            == b.board@.ordered_moves(b.board_history.killers(b.board@.half_move)),
{
}

} // verus!
