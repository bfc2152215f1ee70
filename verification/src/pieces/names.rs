//! The names of the moves of a position tell them apart: no two moves of the
//! rules of a sound position have the same name.

use vstd::prelude::*;
use crate::bits::isset;
use crate::board_components::{opponent, Color};
use crate::debug::square_name;
use crate::pieces::generation_laws::{lemma_flagged_move, lemma_promotion};
use crate::pieces::move_bits::{
    lemma_field_bounds, lemma_identity, CASTLING_FLAG, DOUBLE_FLAG, ENPASSANT_FLAG,
};
use crate::pieces::pieces_controller::{
    finish_rank, first_piece, home_square, kind_letter, pawn_push, promotion, side_slot,
    BoardSlots, MoveBitField, Position,
};
use crate::pieces::rules::arrives;
use crate::round_trip::lemma_square_back;

verus! {

/// The letter that the name of a move ends in where the move promotes.
pub open spec fn promoted_letter(m: MoveBitField) -> char {
    kind_letter(BoardSlots::of(m.promoted()).idx() % 6)
}

/// Two moves of the same name agree in their squares and in whether they
/// promote, and to the letter in what they promote to.
pub proof fn lemma_name_parts(a: MoveBitField, b: MoveBitField)
    requires
        a.name() == b.name(),
    ensures
        a.source() == b.source(),
        a.target() == b.target(),
        (a.promoted() == 0) == (b.promoted() == 0),
        a.promoted() != 0 ==> promoted_letter(a) == promoted_letter(b),
{
    lemma_field_bounds(a.0);
    lemma_field_bounds(b.0);
    let n = a.name();
    let m = b.name();
    assert(n.subrange(0, 2) =~= square_name(a.source()));
    assert(n.subrange(2, 4) =~= square_name(a.target()));
    assert(m.subrange(0, 2) =~= square_name(b.source()));
    assert(m.subrange(2, 4) =~= square_name(b.target()));
    lemma_square_back(a.source());
    lemma_square_back(a.target());
    lemma_square_back(b.source());
    lemma_square_back(b.target());
    assert(n.len() == 4 <==> a.promoted() == 0);
    assert(m.len() == 4 <==> b.promoted() == 0);
    if a.promoted() != 0 {
        assert(n[4] == promoted_letter(a));
        assert(m[4] == promoted_letter(b));
    }
}

/// Two moves of a pawn that arrives on the same square from the same
/// square, and that promote to the same letter where they promote, are one
/// move.
pub proof fn lemma_arrives_named(
    color: Color,
    a: MoveBitField,
    b: MoveBitField,
    s: int,
    t: int,
    capture: bool,
)
    requires
        0 <= s < 64,
        0 <= t < 64,
        arrives(color, a, s, t, capture),
        arrives(color, b, s, t, capture),
        a.promoted() != 0 ==> promoted_letter(a) == promoted_letter(b),
    ensures
        a == b,
{
    let pawn = first_piece(color);
    if isset(finish_rank(color), t) {
        let q = choose|q: int|
            pawn < q <= pawn + 4 && a == #[trigger] promotion(pawn, s, t, q, capture);
        let r = choose|r: int|
            pawn < r <= pawn + 4 && b == #[trigger] promotion(pawn, s, t, r, capture);
        lemma_promotion(pawn, s, t, q, capture);
        lemma_promotion(pawn, s, t, r, capture);
        assert(a.promoted() == q);
        assert(b.promoted() == r);
        assert(q == r);
    }
}

/// Two moves that are the same move have the same name.
pub proof fn lemma_same_name(a: MoveBitField, b: MoveBitField)
    requires
        a.same_move(b),
    ensures
        a.name() == b.name(),
{
    lemma_identity(a.0, b.0);
}

impl Position {
    /// Where a move of the rules starts and what moves: the piece that
    /// stands on its source.
    pub proof fn lemma_rule_mover(self, m: MoveBitField)
        requires
            self.sound(),
            self.pseudo_legal(m),
        ensures
            0 <= m.source() < 64,
            self.pawn_rule(m) ==> self.occupant(m.source()) == first_piece(self.color),
            self.piece_rule(m) ==> self.occupant(m.source()) == m.piece(),
            self.castling_rule(m) ==> m.source() == home_square(self.color) && self.occupant(
                m.source(),
            ) == first_piece(self.color) + 5 && (m.target() == m.source() + 2 || m.target()
                == m.source() - 2),
    {
        let pawn = first_piece(self.color);
        let home = home_square(self.color);
        lemma_field_bounds(m.0);
        if self.pawn_rule(m) {
            self.lemma_stands(pawn, m.source());
        }
        if self.piece_rule(m) {
            self.lemma_stands(m.piece(), m.source());
        }
        if self.castling_rule(m) {
            lemma_flagged_move(pawn + 5, home, home + 2, CASTLING_FLAG);
            lemma_flagged_move(pawn + 5, home, home - 2, CASTLING_FLAG);
            self.lemma_stands(pawn + 5, home);
        }
    }

    /// Where a move of a pawn by the rules ends: a push one square ahead,
    /// a double push two squares ahead, a capture on a square that holds a
    /// piece, and a capture in passing on the free en-passant square.
    pub proof fn lemma_pawn_rule_target(self, m: MoveBitField)
        requires
            self.sound(),
            self.pawn_rule(m),
        ensures
            0 <= m.source() < 64,
            0 <= m.target() < 64,
            self.push_rule(self.color, m) ==> m.target() == m.source() + pawn_push(self.color),
            self.double_rule(self.color, m) ==> m.target() == m.source() + 2 * pawn_push(
                self.color,
            ),
            self.pawn_capture_rule(self.color, m) ==> m.target() % 8 != m.source() % 8
                && self.occupant(m.target()) >= 0,
            self.enpassant_rule(self.color, m) ==> m.target() % 8 != m.source() % 8
                && self.occupant(m.target()) == -1 && m.target() == self.enpassant,
    {
        let color = self.color;
        let pawn = first_piece(color);
        let s = m.source();
        let t = s + pawn_push(color);
        let u = t + pawn_push(color);
        lemma_field_bounds(m.0);
        if self.push_rule(color, m) {
            Self::lemma_arrives(color, s, t, false, m);
        }
        if self.double_rule(color, m) {
            lemma_flagged_move(pawn, s, u, DOUBLE_FLAG);
        }
        if self.pawn_capture_rule(color, m) {
            self.lemma_stands(25 - side_slot(pawn), m.target());
        }
        if self.enpassant_rule(color, m) {
            lemma_flagged_move(pawn, s, self.enpassant, ENPASSANT_FLAG);
            self.lemma_free(14, self.enpassant);
        }
    }

    /// Two moves of the rules of a sound position that have the same name
    /// are one move.
    pub proof fn lemma_rule_named(self, a: MoveBitField, b: MoveBitField)
        requires
            self.sound(),
            self.pseudo_legal(a),
            self.pseudo_legal(b),
            a.name() == b.name(),
        ensures
            a == b,
    {
        let color = self.color;
        let pawn = first_piece(color);
        let s = a.source();
        let t = a.target();
        lemma_name_parts(a, b);
        lemma_field_bounds(a.0);
        lemma_field_bounds(b.0);
        self.lemma_rule_mover(a);
        self.lemma_rule_mover(b);
        if self.pawn_rule(a) {
            assert(self.pawn_rule(b));
            self.lemma_pawn_rule_target(a);
            self.lemma_pawn_rule_target(b);
            if self.push_rule(color, a) {
                assert(self.push_rule(color, b));
                lemma_arrives_named(color, a, b, s, t, false);
            } else if self.double_rule(color, a) {
                assert(self.double_rule(color, b));
            } else if self.pawn_capture_rule(color, a) {
                assert(self.pawn_capture_rule(color, b));
                lemma_arrives_named(color, a, b, s, t, true);
            } else {
                assert(self.enpassant_rule(color, b));
            }
        } else if self.piece_rule(a) {
            assert(!self.pawn_rule(b));
            if self.castling_rule(b) {
                assert(a.piece() % 6 == 5);
                assert(false);
            }
            assert(self.piece_rule(b));
        } else {
            assert(!self.pawn_rule(b));
            if self.piece_rule(b) {
                assert(b.piece() % 6 == 5);
                assert(false);
            }
            lemma_flagged_move(pawn + 5, s, s + 2, CASTLING_FLAG);
            lemma_flagged_move(pawn + 5, s, s - 2, CASTLING_FLAG);
        }
    }

    /// The legal moves in the order in which the search tries them are
    /// told apart by their names: no two of them have the same name, each
    /// has the name of a move of the rules that leaves the king safe, and
    /// each such move has its name among theirs.
    pub proof fn lemma_legal_names(self, killers: (MoveBitField, MoveBitField))
        requires
            self.wf(),
        ensures
            forall|i: int, j: int|
                0 <= i < j < self.legal_among(self.ordered_moves(killers)).len()
                    ==> self.legal_among(self.ordered_moves(killers))[i].name()
                    != self.legal_among(self.ordered_moves(killers))[j].name(),
            forall|i: int|
                0 <= i < self.legal_among(self.ordered_moves(killers)).len() ==> self.names_rule(
                    #[trigger] self.legal_among(self.ordered_moves(killers))[i],
                ),
            forall|m: MoveBitField|
                self.pseudo_legal(m) && self.leaves_king_safe(m) ==> exists|i: int|
                    0 <= i < self.legal_among(self.ordered_moves(killers)).len()
                        && m.same_move(#[trigger] self.legal_among(self.ordered_moves(killers))[i]),
    {
        let list = self.legal_among(self.ordered_moves(killers));
        let enemy = opponent(self.color);
        self.lemma_legal_ordered_moves(killers);
        assert forall|i: int| 0 <= i < list.len() implies self.names_rule(
            #[trigger] list[i],
        ) by {
            assert(list.contains(list[i]));
            assert(self.scored_rule(killers, list[i]));
            let m = choose|m: MoveBitField|
                self.pseudo_legal(m) && list[i] == #[trigger] self.scored(enemy, killers, m);
            self.lemma_scored(enemy, killers, m);
            crate::search_value::lemma_same_move(self, list[i], m);
            assert(self.leaves_king_safe(m));
            assert(m.same_move(list[i]));
        }
        assert forall|i: int, j: int| 0 <= i < j < list.len() implies list[i].name()
            != list[j].name() by {
            assert(self.names_rule(list[i]));
            assert(self.names_rule(list[j]));
            let a = choose|m: MoveBitField|
                self.pseudo_legal(m) && self.leaves_king_safe(m) && #[trigger] m.same_move(list[i]);
            let b = choose|m: MoveBitField|
                self.pseudo_legal(m) && self.leaves_king_safe(m) && #[trigger] m.same_move(list[j]);
            lemma_same_name(a, list[i]);
            lemma_same_name(b, list[j]);
            if list[i].name() == list[j].name() {
                self.lemma_rule_named(a, b);
                assert(list[i].same_move(list[j]));
            }
        }
        assert forall|m: MoveBitField|
            self.pseudo_legal(m) && self.leaves_king_safe(m) implies exists|i: int|
            0 <= i < list.len() && m.same_move(#[trigger] list[i]) by {
            let x = self.scored(enemy, killers, m);
            self.lemma_scored(enemy, killers, m);
            crate::search_value::lemma_same_move(self, x, m);
            assert(self.scored_rule(killers, x));
            assert(list.contains(x));
            let i = choose|i: int| 0 <= i < list.len() && list[i] == x;
            assert(m.same_move(list[i]));
        }
    }

    /// `x` is, its score aside, a move of the rules that leaves the king of
    /// the side that moves safe.
    pub open spec fn names_rule(self, x: MoveBitField) -> bool {
        exists|m: MoveBitField|
            self.pseudo_legal(m) && self.leaves_king_safe(m) && #[trigger] m.same_move(x)
    }
}

} // verus!
