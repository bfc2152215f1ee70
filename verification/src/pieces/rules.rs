//! The moves that are generated are the moves of the rules: a move is
//! generated exactly when it is a step, a jump or a slide of a piece of the
//! side to move to a square that none of its own pieces holds, or a push, a
//! capture or a capture in passing of one of its pawns, or castling.

use vstd::prelude::*;
use crate::bits::{drop_lowest, group_bits, isset, lemma_lowest, lowest};
use crate::board_components::{opponent, Color};
use crate::pieces::generation_laws::{
    lemma_flagged_move, lemma_plain_move, lemma_promotion, lemma_target_moves,
};
use crate::pieces::king::{king_step, lemma_king_mask};
use crate::pieces::knight::{knight_step, lemma_knight_mask};
use crate::pieces::move_bits::{
    new_bits, with_flag, CAPTURE_FLAG, CASTLING_FLAG, DOUBLE_FLAG, ENPASSANT_FLAG,
};
use crate::pieces::pawn::{lemma_pawn_mask, lemma_pawn_step_mirror, pawn_mask, pawn_step};
use crate::pieces::pieces_controller::{
    finish_rank, first_piece, home_square, pawn_push, plain_move, promotion, promotions, reach,
    side_slot, start_rank, target_moves, MoveBitField, Position,
};
use crate::pieces::sight::{
    diagonal, lemma_bishop_sees, lemma_queen_sees, lemma_rook_sees, open_line, straight,
};

verus! {

/// A move is in one of two lists in a row exactly when it is in one of the
/// two.
pub proof fn lemma_contains_add(a: Seq<MoveBitField>, b: Seq<MoveBitField>, m: MoveBitField)
    ensures
        (a + b).contains(m) == (a.contains(m) || b.contains(m)),
{
    if a.contains(m) {
        let i = choose|i: int| 0 <= i < a.len() && a[i] == m;
        assert((a + b)[i] == m);
    }
    if b.contains(m) {
        let i = choose|i: int| 0 <= i < b.len() && b[i] == m;
        assert((a + b)[a.len() + i] == m);
    }
    if (a + b).contains(m) {
        let i = choose|i: int| 0 <= i < (a + b).len() && (a + b)[i] == m;
        if i < a.len() {
            assert(a[i] == m);
        } else {
            assert(b[i - a.len()] == m);
        }
    }
}

/// A move is in the list of one move exactly when it is that move.
pub proof fn lemma_contains_one(x: MoveBitField, m: MoveBitField)
    ensures
        seq![x].contains(m) == (x == m),
        !Seq::<MoveBitField>::empty().contains(m),
{
    if x == m {
        assert(seq![x][0] == m);
    }
}

/// A move is one of the four promotions exactly when it promotes to one of
/// the four pieces.
pub proof fn lemma_contains_promotions(
    pawn: int,
    s: int,
    t: int,
    capture: bool,
    m: MoveBitField,
)
    ensures
        promotions(pawn, s, t, capture).contains(m) == (exists|q: int|
            pawn < q <= pawn + 4 && m == #[trigger] promotion(pawn, s, t, q, capture)),
{
    let list = promotions(pawn, s, t, capture);
    if list.contains(m) {
        let i = choose|i: int| 0 <= i < list.len() && list[i] == m;
        assert(m == promotion(pawn, s, t, pawn + 4 - i, capture));
    }
    if exists|q: int| pawn < q <= pawn + 4 && m == #[trigger] promotion(pawn, s, t, q, capture) {
        let q = choose|q: int|
            pawn < q <= pawn + 4 && m == #[trigger] promotion(pawn, s, t, q, capture);
        assert(list[pawn + 4 - q] == m);
    }
}

/// A move to a square of a mask is among the moves to the squares of the
/// mask.
pub proof fn lemma_target_moves_has(piece: int, s: int, targets: u64, enemy: u64, t: int)
    requires
        isset(targets, t),
    ensures
        target_moves(piece, s, targets, enemy).contains(
            plain_move(piece, s, t, isset(enemy, t)),
        ),
    decreases targets,
{
    crate::bits::lemma_nonzero(targets);
    lemma_lowest(targets);
    let m = plain_move(piece, s, t, isset(enemy, t));
    let head = seq![plain_move(piece, s, lowest(targets), isset(enemy, lowest(targets)))];
    let rest = target_moves(piece, s, drop_lowest(targets), enemy);
    lemma_contains_add(head, rest, m);
    if t == lowest(targets) {
        assert(head[0] == m);
    } else {
        lemma_target_moves_has(piece, s, drop_lowest(targets), enemy, t);
    }
}

/// How a piece of kind `kind` (1 knight, 2 bishop, 3 rook, 4 queen, else
/// king) on `s` reaches `t` over the pieces of `occ`: by a jump, along an
/// open diagonal, along an open rank or file, along either, or by a step.
pub open spec fn reaches(kind: int, s: int, t: int, occ: u64) -> bool {
    if kind == 1 {
        knight_step(s, t)
    } else if kind == 2 {
        diagonal(s, t) && open_line(s, t, occ)
    } else if kind == 3 {
        straight(s, t) && open_line(s, t, occ)
    } else if kind == 4 {
        (straight(s, t) || diagonal(s, t)) && open_line(s, t, occ)
    } else {
        king_step(s, t)
    }
}

/// The attack set of a piece holds the squares that the piece reaches.
pub proof fn lemma_reach(kind: int, s: int, t: int, occ: u64)
    requires
        0 <= s < 64,
    ensures
        isset(reach(kind, s, occ), t) == (0 <= t < 64 && reaches(kind, s, t, occ)),
{
    lemma_knight_mask(s);
    lemma_king_mask(s);
    if 0 <= t < 64 {
        lemma_bishop_sees(s, occ, t);
        lemma_rook_sees(s, occ, t);
        lemma_queen_sees(s, occ, t);
    }
}

impl Position {
    /// The rule of the moves of knights, bishops, rooks, queens and kings:
    /// a piece of the side to move goes from its square to a square that it
    /// reaches and that holds no piece of its side; the move is a capture
    /// where the square holds a piece of the other side.
    pub open spec fn piece_rule(self, m: MoveBitField) -> bool {
        let p = m.piece();
        let own = self.slot(side_slot(p));
        let enemy = self.slot(25 - side_slot(p));
        &&& first_piece(self.color) < p <= first_piece(self.color) + 5
        &&& isset(self.slot(p), m.source())
        &&& 0 <= m.target() < 64
        &&& reaches(p % 6, m.source(), m.target(), self.slot(14))
        &&& !isset(own, m.target())
        &&& m == plain_move(p, m.source(), m.target(), isset(enemy, m.target()))
    }

    /// The moves of the pieces of one kind from the squares of a mask are
    /// the moves of the rule from those squares.
    pub proof fn lemma_piece_moves_rule(self, piece: int, sources: u64, m: MoveBitField)
        requires
            first_piece(self.color) < piece <= first_piece(self.color) + 5,
        ensures
            self.piece_moves(piece, sources).contains(m) <==> m.piece() == piece && isset(
                sources,
                m.source(),
            ) && 0 <= m.target() < 64 && reaches(
                piece % 6,
                m.source(),
                m.target(),
                self.slot(14),
            ) && !isset(self.slot(side_slot(piece)), m.target()) && m == plain_move(
                piece,
                m.source(),
                m.target(),
                isset(self.slot(25 - side_slot(piece)), m.target()),
            ),
        decreases sources,
    {
        broadcast use group_bits;

        let own = self.slot(side_slot(piece));
        let enemy = self.slot(25 - side_slot(piece));
        if sources != 0 {
            lemma_lowest(sources);
            let s = lowest(sources);
            let here = self.moves_from(piece, s);
            let rest = self.piece_moves(piece, drop_lowest(sources));
            let targets = reach(piece % 6, s, self.slot(14)) & !own;
            lemma_contains_add(here, rest, m);
            self.lemma_piece_moves_rule(piece, drop_lowest(sources), m);
            if here.contains(m) {
                let k = choose|k: int| 0 <= k < here.len() && here[k] == m;
                let t = lemma_target_moves(piece, s, targets, enemy, k);
                lemma_plain_move(piece, s, t, isset(enemy, t));
                lemma_reach(piece % 6, s, t, self.slot(14));
            }
            if m.source() == s && m == plain_move(
                piece,
                m.source(),
                m.target(),
                isset(enemy, m.target()),
            ) && 0 <= m.target() < 64 && reaches(piece % 6, s, m.target(), self.slot(14))
                && !isset(own, m.target()) {
                lemma_reach(piece % 6, s, m.target(), self.slot(14));
                lemma_target_moves_has(piece, s, targets, enemy, m.target());
            }
        } else {
            assert(!self.piece_moves(piece, sources).contains(m));
        }
    }
}

/// The move of a pawn of two squares.
pub open spec fn double_move(pawn: int, s: int, t: int) -> MoveBitField {
    MoveBitField(with_flag(new_bits(s as u64, t as u64, pawn as u64), DOUBLE_FLAG))
}

/// The capture of a pawn in passing.
pub open spec fn passing_move(pawn: int, s: int, t: int) -> MoveBitField {
    MoveBitField(
        with_flag(with_flag(new_bits(s as u64, t as u64, pawn as u64), ENPASSANT_FLAG), CAPTURE_FLAG),
    )
}

/// The castling move of a king from its square to `t`.
pub open spec fn castling_move(king: int, home: int, t: int) -> MoveBitField {
    MoveBitField(with_flag(new_bits(home as u64, t as u64, king as u64), CASTLING_FLAG))
}

/// The move of a pawn to `t`: one of the four promotions where `t` is on
/// the last rank, and the plain move else.
pub open spec fn arrives(color: Color, m: MoveBitField, s: int, t: int, capture: bool) -> bool {
    let pawn = first_piece(color);
    if isset(finish_rank(color), t) {
        exists|q: int| pawn < q <= pawn + 4 && m == #[trigger] promotion(pawn, s, t, q, capture)
    } else {
        m == plain_move(pawn, s, t, capture)
    }
}

impl Position {
    /// The rule of the push of a pawn: one square ahead onto a free square,
    /// promoting on the last rank.
    pub open spec fn push_rule(self, color: Color, m: MoveBitField) -> bool {
        let t = m.source() + pawn_push(color);
        &&& 0 <= t < 64
        &&& !isset(self.slot(14), t)
        &&& arrives(color, m, m.source(), t, false)
    }

    /// The rule of the double push of a pawn: from its starting rank two
    /// squares ahead, both of them free.
    pub open spec fn double_rule(self, color: Color, m: MoveBitField) -> bool {
        let t = m.source() + pawn_push(color);
        let u = t + pawn_push(color);
        &&& 0 <= t < 64
        &&& 0 <= u < 64
        &&& isset(start_rank(color), m.source())
        &&& !isset(self.slot(14), t)
        &&& !isset(self.slot(14), u)
        &&& m == double_move(first_piece(color), m.source(), u)
    }

    /// The rule of the capture of a pawn: one square ahead to either side
    /// onto a piece of the other side, promoting on the last rank.
    pub open spec fn pawn_capture_rule(self, color: Color, m: MoveBitField) -> bool {
        let t = m.target();
        &&& pawn_step(color, m.source(), t)
        &&& isset(self.slot(25 - side_slot(first_piece(color))), t)
        &&& arrives(color, m, m.source(), t, true)
    }

    /// The rule of the capture in passing: a pawn that attacks the
    /// en-passant square goes there, where that square is free and a pawn of
    /// the other side stands behind it.
    pub open spec fn enpassant_rule(self, color: Color, m: MoveBitField) -> bool {
        &&& self.enpassant_open(color)
        &&& pawn_step(color, m.source(), self.enpassant)
        &&& m == passing_move(first_piece(color), m.source(), self.enpassant)
    }

    /// The rule of the moves of the pawns of the side to move.
    pub open spec fn pawn_rule(self, m: MoveBitField) -> bool {
        &&& isset(self.slot(first_piece(self.color)), m.source())
        &&& {
            ||| self.push_rule(self.color, m)
            ||| self.double_rule(self.color, m)
            ||| self.pawn_capture_rule(self.color, m)
            ||| self.enpassant_rule(self.color, m)
        }
    }

    /// The rule of castling: to the king's side or to the queen's side,
    /// where the side to move may.
    pub open spec fn castling_rule(self, m: MoveBitField) -> bool {
        let king = first_piece(self.color) + 5;
        let home = home_square(self.color);
        ||| self.may_castle_king_side(self.color) && m == castling_move(king, home, home + 2)
        ||| self.may_castle_queen_side(self.color) && m == castling_move(king, home, home - 2)
    }

    /// A move of the rules, before the safety of the king is looked at.
    pub open spec fn pseudo_legal(self, m: MoveBitField) -> bool {
        self.pawn_rule(m) || self.piece_rule(m) || self.castling_rule(m)
    }

    /// What it is for a move to arrive, in terms of the list of the moves
    /// that do.
    pub proof fn lemma_arrives(color: Color, s: int, t: int, capture: bool, m: MoveBitField)
        requires
            0 <= s < 64,
            0 <= t < 64,
        ensures
            (if isset(finish_rank(color), t) {
                promotions(first_piece(color), s, t, capture)
            } else {
                seq![plain_move(first_piece(color), s, t, capture)]
            }).contains(m) == arrives(color, m, s, t, capture),
            arrives(color, m, s, t, capture) ==> m.source() == s && m.target() == t && m.piece()
                == first_piece(color),
    {
        let pawn = first_piece(color);
        lemma_contains_promotions(pawn, s, t, capture, m);
        lemma_contains_one(plain_move(pawn, s, t, capture), m);
        lemma_plain_move(pawn, s, t, capture);
        lemma_promotion(pawn, s, t, pawn + 1, capture);
        lemma_promotion(pawn, s, t, pawn + 2, capture);
        lemma_promotion(pawn, s, t, pawn + 3, capture);
        lemma_promotion(pawn, s, t, pawn + 4, capture);
    }

    /// The pushes of a pawn are those of the rules.
    pub proof fn lemma_pawn_pushes_rule(self, color: Color, s: int, m: MoveBitField)
        requires
            0 <= s < 64,
        ensures
            self.pawn_pushes(color, s).contains(m) <==> m.source() == s && (self.push_rule(
                color,
                m,
            ) || self.double_rule(color, m)),
    {
        let pawn = first_piece(color);
        let t = s + pawn_push(color);
        let u = t + pawn_push(color);
        if 0 <= t < 64 {
            Self::lemma_arrives(color, s, t, false, m);
        }
        if 0 <= t < 64 && 0 <= u < 64 {
            lemma_flagged_move(pawn, s, u, DOUBLE_FLAG);
        }
        if !(0 <= t < 64) || isset(self.slot(14), t) {
            lemma_contains_one(m, m);
        } else {
            let first = if isset(finish_rank(color), t) {
                promotions(pawn, s, t, false)
            } else {
                seq![plain_move(pawn, s, t, false)]
            };
            let second = if isset(start_rank(color), s) && 0 <= u < 64 && !isset(
                self.slot(14),
                u,
            ) {
                seq![double_move(pawn, s, u)]
            } else {
                Seq::<MoveBitField>::empty()
            };
            assert(self.pawn_pushes(color, s) == first + second);
            lemma_contains_add(first, second, m);
            lemma_contains_one(double_move(pawn, s, u), m);
            if m.source() == s && self.push_rule(color, m) {
                assert(arrives(color, m, s, t, false));
            }
            if m.source() == s && self.double_rule(color, m) {
                assert(m == double_move(pawn, s, u));
            }
        }
    }

    /// The captures of a pawn onto the squares of a mask are those of the
    /// rules onto those squares.
    pub proof fn lemma_pawn_captures_rule(self, color: Color, s: int, targets: u64, m: MoveBitField)
        requires
            0 <= s < 64,
        ensures
            self.pawn_captures(color, s, targets).contains(m) <==> m.source() == s && isset(
                targets,
                m.target(),
            ) && isset(self.slot(25 - side_slot(first_piece(color))), m.target()) && arrives(
                color,
                m,
                s,
                m.target(),
                true,
            ),
        decreases targets,
    {
        let pawn = first_piece(color);
        let enemy = self.slot(25 - side_slot(pawn));
        if targets != 0 {
            lemma_lowest(targets);
            let t = lowest(targets);
            let here = if !isset(enemy, t) {
                Seq::<MoveBitField>::empty()
            } else if isset(finish_rank(color), t) {
                promotions(pawn, s, t, true)
            } else {
                seq![plain_move(pawn, s, t, true)]
            };
            let rest = self.pawn_captures(color, s, drop_lowest(targets));
            lemma_contains_add(here, rest, m);
            self.lemma_pawn_captures_rule(color, s, drop_lowest(targets), m);
            Self::lemma_arrives(color, s, t, true, m);
            lemma_contains_one(m, m);
            if 0 <= m.target() < 64 {
                Self::lemma_arrives(color, s, m.target(), true, m);
            }
        } else {
            assert(!self.pawn_captures(color, s, targets).contains(m));
            crate::bits::lemma_nonzero(targets);
        }
    }

    /// The pushes and captures of the pawns on the squares of a mask are
    /// those of the rules from those squares.
    pub proof fn lemma_pawn_moves_rule(self, color: Color, sources: u64, m: MoveBitField)
        ensures
            self.pawn_moves(color, sources).contains(m) <==> isset(sources, m.source()) && (
            self.push_rule(color, m) || self.double_rule(color, m) || self.pawn_capture_rule(
                color,
                m,
            )),
        decreases sources,
    {
        if sources != 0 {
            lemma_lowest(sources);
            let s = lowest(sources);
            let pushes = self.pawn_pushes(color, s);
            let captures = self.pawn_captures(color, s, pawn_mask(color, s));
            let rest = self.pawn_moves(color, drop_lowest(sources));
            lemma_contains_add(pushes + captures, rest, m);
            lemma_contains_add(pushes, captures, m);
            self.lemma_pawn_moves_rule(color, drop_lowest(sources), m);
            self.lemma_pawn_pushes_rule(color, s, m);
            self.lemma_pawn_captures_rule(color, s, pawn_mask(color, s), m);
            lemma_pawn_mask(color, s);
        } else {
            assert(!self.pawn_moves(color, sources).contains(m));
            crate::bits::lemma_nonzero(sources);
        }
    }

    /// The captures in passing by the pawns on the squares of a mask.
    pub proof fn lemma_enpassant_moves_rule(self, color: Color, sources: u64, m: MoveBitField)
        requires
            0 <= self.enpassant < 64,
        ensures
            self.enpassant_moves(color, sources).contains(m) <==> isset(sources, m.source()) && m
                == passing_move(first_piece(color), m.source(), self.enpassant),
        decreases sources,
    {
        let pawn = first_piece(color);
        if sources != 0 {
            lemma_lowest(sources);
            let s = lowest(sources);
            let here = seq![passing_move(pawn, s, self.enpassant)];
            let rest = self.enpassant_moves(color, drop_lowest(sources));
            lemma_contains_add(here, rest, m);
            lemma_contains_one(passing_move(pawn, s, self.enpassant), m);
            lemma_flagged_move(pawn, s, self.enpassant, ENPASSANT_FLAG);
            self.lemma_enpassant_moves_rule(color, drop_lowest(sources), m);
        } else {
            assert(!self.enpassant_moves(color, sources).contains(m));
            crate::bits::lemma_nonzero(sources);
        }
    }

    /// The moves of the pawns are those of the rules.
    pub proof fn lemma_all_pawn_moves_rule(self, m: MoveBitField)
        requires
            0 <= self.enpassant <= 64,
        ensures
            self.all_pawn_moves(self.color).contains(m) <==> self.pawn_rule(m),
    {
        broadcast use group_bits;

        let color = self.color;
        let pawns = self.slot(first_piece(color));
        let pushed = self.pawn_moves(color, pawns);
        let sources = pawn_mask(opponent(color), self.enpassant) & pawns;
        let passing = if self.enpassant_open(color) {
            self.enpassant_moves(color, sources)
        } else {
            Seq::<MoveBitField>::empty()
        };
        lemma_contains_add(pushed, passing, m);
        self.lemma_pawn_moves_rule(color, pawns, m);
        if self.enpassant_open(color) {
            self.lemma_enpassant_moves_rule(color, sources, m);
            lemma_pawn_mask(opponent(color), self.enpassant);
            lemma_pawn_step_mirror(color, m.source(), self.enpassant);
        } else {
            lemma_contains_one(m, m);
        }
    }

    /// The castling moves are those of the rules.
    pub proof fn lemma_castling_moves_rule(self, m: MoveBitField)
        ensures
            self.castling_moves(self.color).contains(m) <==> self.castling_rule(m),
    {
        let king = first_piece(self.color) + 5;
        let home = home_square(self.color);
        let short = if self.may_castle_king_side(self.color) {
            seq![castling_move(king, home, home + 2)]
        } else {
            Seq::<MoveBitField>::empty()
        };
        let long = if self.may_castle_queen_side(self.color) {
            seq![castling_move(king, home, home - 2)]
        } else {
            Seq::<MoveBitField>::empty()
        };
        assert(self.castling_moves(self.color) == short + long);
        lemma_contains_add(short, long, m);
        lemma_contains_one(castling_move(king, home, home + 2), m);
        lemma_contains_one(castling_move(king, home, home - 2), m);
    }

    /// The moves that are generated are the moves of the rules.
    pub proof fn lemma_generated_rule(self, m: MoveBitField)
        requires
            0 <= self.enpassant <= 64,
        ensures
            self.generated().contains(m) <==> self.pseudo_legal(m),
    {
        reveal(Position::generated);
        let first = first_piece(self.color);
        let a = self.all_pawn_moves(self.color);
        let b = self.piece_moves(first + 1, self.slot(first + 1));
        let c = self.piece_moves(first + 2, self.slot(first + 2));
        let d = self.piece_moves(first + 3, self.slot(first + 3));
        let e = self.piece_moves(first + 4, self.slot(first + 4));
        let f = self.piece_moves(first + 5, self.slot(first + 5));
        let g = self.castling_moves(self.color);
        lemma_contains_add(a + b + c + d + e + f, g, m);
        lemma_contains_add(a + b + c + d + e, f, m);
        lemma_contains_add(a + b + c + d, e, m);
        lemma_contains_add(a + b + c, d, m);
        lemma_contains_add(a + b, c, m);
        lemma_contains_add(a, b, m);
        self.lemma_all_pawn_moves_rule(m);
        self.lemma_piece_moves_rule(first + 1, self.slot(first + 1), m);
        self.lemma_piece_moves_rule(first + 2, self.slot(first + 2), m);
        self.lemma_piece_moves_rule(first + 3, self.slot(first + 3), m);
        self.lemma_piece_moves_rule(first + 4, self.slot(first + 4), m);
        self.lemma_piece_moves_rule(first + 5, self.slot(first + 5), m);
        self.lemma_castling_moves_rule(m);
    }

    /// The legal moves of a position are the moves of the rules that do
    /// not leave the king of the side that moves attacked.
    pub proof fn lemma_legal_rule(self, m: MoveBitField)
        requires
            0 <= self.enpassant <= 64,
        ensures
            self.legal_moves().contains(m) <==> self.pseudo_legal(m) && !self.moved(m).in_check(
                self.color,
            ),
    {
        self.lemma_generated_rule(m);
        self.lemma_legal_moves(m);
    }
}

} // verus!
