//! Every generated move fits its position, so that the moves of a sound
//! position lead to sound positions.

use vstd::prelude::*;
use crate::bits::{drop_lowest, group_bits, isset, lemma_lowest, lowest};
use crate::board_components::{opponent, Color};
use crate::pieces::move_bits::{
    lemma_identity, lemma_new_bits, lemma_with_flag, lemma_with_promoted, new_bits, with_flag,
    with_promoted, CAPTURE_FLAG, CASTLING_FLAG, DOUBLE_FLAG, ENPASSANT_FLAG,
};
use crate::pieces::pawn::pawn_mask;
use crate::pieces::pieces_controller::{
    behind, color_of, finish_rank, first_piece, home_square, pawn_push, plain_move, promotion,
    promotions, reach, side_slot, target_moves, MoveBitField, Position,
};

verus! {

/// The fields of a move without promotion.
pub proof fn lemma_plain_move(piece: int, s: int, t: int, capture: bool)
    requires
        0 <= piece < 12,
        0 <= s < 64,
        0 <= t < 64,
    ensures
        plain_move(piece, s, t, capture).piece() == piece,
        plain_move(piece, s, t, capture).piece_slot() == piece,
        plain_move(piece, s, t, capture).landing_slot() == piece,
        plain_move(piece, s, t, capture).source() == s,
        plain_move(piece, s, t, capture).target() == t,
        plain_move(piece, s, t, capture).capture() == capture,
        !plain_move(piece, s, t, capture).enpassant(),
        !plain_move(piece, s, t, capture).double(),
        !plain_move(piece, s, t, capture).castling(),
        plain_move(piece, s, t, capture).promoted() == 0,
{
    let base = new_bits(s as u64, t as u64, piece as u64);
    lemma_new_bits(s as u64, t as u64, piece as u64);
    lemma_with_flag(base, CAPTURE_FLAG);
}

/// The fields of a promotion.
pub proof fn lemma_promotion(pawn: int, s: int, t: int, promoted: int, capture: bool)
    requires
        pawn == 0 || pawn == 6,
        pawn < promoted < pawn + 6,
        0 <= s < 64,
        0 <= t < 64,
    ensures
        promotion(pawn, s, t, promoted, capture).piece() == pawn,
        promotion(pawn, s, t, promoted, capture).piece_slot() == pawn,
        promotion(pawn, s, t, promoted, capture).landing_slot() == promoted,
        promotion(pawn, s, t, promoted, capture).source() == s,
        promotion(pawn, s, t, promoted, capture).target() == t,
        promotion(pawn, s, t, promoted, capture).capture() == capture,
        !promotion(pawn, s, t, promoted, capture).enpassant(),
        !promotion(pawn, s, t, promoted, capture).double(),
        !promotion(pawn, s, t, promoted, capture).castling(),
        promotion(pawn, s, t, promoted, capture).promoted() == promoted,
{
    let base = new_bits(s as u64, t as u64, pawn as u64);
    lemma_new_bits(s as u64, t as u64, pawn as u64);
    lemma_with_promoted(base, promoted as u64);
    lemma_with_flag(with_promoted(base, promoted as u64), CAPTURE_FLAG);
}

/// The fields of a move with one flag other than that of a capture.
pub proof fn lemma_flagged_move(piece: int, s: int, t: int, flag: u64)
    requires
        0 <= piece < 12,
        0 <= s < 64,
        0 <= t < 64,
        flag == DOUBLE_FLAG || flag == CASTLING_FLAG || flag == ENPASSANT_FLAG,
    ensures
        ({
            let m = MoveBitField(with_flag(new_bits(s as u64, t as u64, piece as u64), flag));
            let c = MoveBitField(with_flag(m.0, CAPTURE_FLAG));
            &&& m.piece() == piece && m.piece_slot() == piece && m.landing_slot() == piece
            &&& m.source() == s && m.target() == t && !m.capture()
            &&& m.double() == (flag == DOUBLE_FLAG)
            &&& m.castling() == (flag == CASTLING_FLAG)
            &&& m.enpassant() == (flag == ENPASSANT_FLAG)
            &&& c.piece() == piece && c.piece_slot() == piece && c.landing_slot() == piece
            &&& c.source() == s && c.target() == t && c.capture()
            &&& c.enpassant() == (flag == ENPASSANT_FLAG)
            &&& c.castling() == (flag == CASTLING_FLAG)
        }),
{
    let base = new_bits(s as u64, t as u64, piece as u64);
    lemma_new_bits(s as u64, t as u64, piece as u64);
    lemma_with_flag(base, flag);
    lemma_with_flag(with_flag(base, flag), CAPTURE_FLAG);
}

/// Each of the moves to the squares of a mask goes to one of its squares.
pub proof fn lemma_target_moves(piece: int, s: int, targets: u64, enemy: u64, k: int) -> (t: int)
    requires
        0 <= k < target_moves(piece, s, targets, enemy).len(),
    ensures
        0 <= t < 64,
        isset(targets, t),
        target_moves(piece, s, targets, enemy)[k] == plain_move(piece, s, t, isset(enemy, t)),
    decreases targets,
{
    lemma_lowest(targets);
    if k == 0 {
        lowest(targets)
    } else {
        let rest = drop_lowest(targets);
        let t = lemma_target_moves(piece, s, rest, enemy, k - 1);
        t
    }
}

impl Position {
    /// On a square that a mask of a sound position holds stands the piece
    /// of the mask.
    pub proof fn lemma_stands(self, i: int, s: int)
        requires
            self.sound(),
            0 <= i < 15,
            isset(self.slot(i), s),
        ensures
            0 <= s < 64,
            i < 12 ==> self.occupant(s) == i,
            i == 12 ==> 6 <= self.occupant(s) < 12,
            i == 13 ==> 0 <= self.occupant(s) < 6,
            0 <= self.occupant(s) < 12,
    {
        assert(self.sound_at(s));
        self.lemma_occupant(s);
    }

    /// On a square that the mask of all pieces of a sound position does
    /// not hold stands no piece; on one that the mask of a colour does not
    /// hold stands none of that colour.
    pub proof fn lemma_free(self, i: int, s: int)
        requires
            self.sound(),
            12 <= i < 15,
            0 <= s < 64,
            !isset(self.slot(i), s),
        ensures
            i == 14 ==> self.occupant(s) == -1,
            i == 13 ==> !(0 <= self.occupant(s) < 6),
            i == 12 ==> !(6 <= self.occupant(s) < 12),
    {
        assert(self.sound_at(s));
        self.lemma_occupant(s);
    }

    /// The moves of a piece from one square fit the position.
    pub proof fn lemma_moves_from_fit(self, piece: int, s: int, k: int)
        requires
            self.wf(),
            0 <= piece < 12,
            color_of(piece) == self.color,
            isset(self.slot(piece), s),
            0 <= k < self.moves_from(piece, s).len(),
        ensures
            self.admits(self.moves_from(piece, s)[k]),
    {
        let own = self.slot(side_slot(piece));
        let enemy = self.slot(25 - side_slot(piece));
        let targets = reach(piece % 6, s, self.slot(14)) & !own;
        let t = lemma_target_moves(piece, s, targets, enemy, k);
        crate::bits::lemma_isset_and(reach(piece % 6, s, self.slot(14)), !own, t);
        crate::bits::lemma_isset_not(own, t);
        self.lemma_stands(piece, s);
        lemma_plain_move(piece, s, t, isset(enemy, t));
        self.lemma_free(side_slot(piece), t);
        assert(self.sound_at(t));
        self.lemma_occupant(t);
    }

    /// The moves of the pieces of one kind, other than pawns, fit the
    /// position.
    pub proof fn lemma_piece_moves_fit(self, piece: int, sources: u64, k: int)
        requires
            self.wf(),
            0 <= piece < 12,
            color_of(piece) == self.color,
            forall|s: int| isset(sources, s) ==> isset(self.slot(piece), s),
            0 <= k < self.piece_moves(piece, sources).len(),
        ensures
            self.admits(self.piece_moves(piece, sources)[k]),
        decreases sources,
    {
        lemma_lowest(sources);
        let here = self.moves_from(piece, lowest(sources));
        if k < here.len() {
            self.lemma_moves_from_fit(piece, lowest(sources), k);
        } else {
            self.lemma_piece_moves_fit(piece, drop_lowest(sources), k - here.len());
        }
    }

    /// The pushes of a pawn fit the position.
    pub proof fn lemma_pawn_pushes_fit(self, color: Color, s: int, k: int)
        requires
            self.wf(),
            color == self.color,
            isset(self.slot(first_piece(color)), s),
            0 <= k < self.pawn_pushes(color, s).len(),
        ensures
            self.admits(self.pawn_pushes(color, s)[k]),
    {
        let pawn = first_piece(color);
        let t = s + pawn_push(color);
        let u = t + pawn_push(color);
        self.lemma_stands(pawn, s);
        self.lemma_free(14, t);
        let first = if isset(finish_rank(color), t) {
            promotions(pawn, s, t, false)
        } else {
            seq![plain_move(pawn, s, t, false)]
        };
        lemma_plain_move(pawn, s, t, false);
        lemma_promotion(pawn, s, t, pawn + 4, false);
        lemma_promotion(pawn, s, t, pawn + 3, false);
        lemma_promotion(pawn, s, t, pawn + 2, false);
        lemma_promotion(pawn, s, t, pawn + 1, false);
        if k >= first.len() {
            self.lemma_free(14, u);
            lemma_flagged_move(pawn, s, u, DOUBLE_FLAG);
        }
    }

    /// The captures of a pawn fit the position.
    pub proof fn lemma_pawn_captures_fit(self, color: Color, s: int, targets: u64, k: int)
        requires
            self.wf(),
            color == self.color,
            isset(self.slot(first_piece(color)), s),
            0 <= k < self.pawn_captures(color, s, targets).len(),
        ensures
            self.admits(self.pawn_captures(color, s, targets)[k]),
        decreases targets,
    {
        let pawn = first_piece(color);
        lemma_lowest(targets);
        let t = lowest(targets);
        let here = if !isset(self.slot(25 - side_slot(pawn)), t) {
            Seq::<MoveBitField>::empty()
        } else if isset(finish_rank(color), t) {
            promotions(pawn, s, t, true)
        } else {
            seq![plain_move(pawn, s, t, true)]
        };
        if k < here.len() {
            self.lemma_stands(pawn, s);
            self.lemma_stands(25 - side_slot(pawn), t);
            lemma_plain_move(pawn, s, t, true);
            lemma_promotion(pawn, s, t, pawn + 4, true);
            lemma_promotion(pawn, s, t, pawn + 3, true);
            lemma_promotion(pawn, s, t, pawn + 2, true);
            lemma_promotion(pawn, s, t, pawn + 1, true);
        } else {
            self.lemma_pawn_captures_fit(color, s, drop_lowest(targets), k - here.len());
        }
    }

    /// The pushes and captures of the pawns fit the position.
    pub proof fn lemma_pawn_moves_fit(self, color: Color, sources: u64, k: int)
        requires
            self.wf(),
            color == self.color,
            forall|s: int| isset(sources, s) ==> isset(self.slot(first_piece(color)), s),
            0 <= k < self.pawn_moves(color, sources).len(),
        ensures
            self.admits(self.pawn_moves(color, sources)[k]),
        decreases sources,
    {
        lemma_lowest(sources);
        let s = lowest(sources);
        let pushes = self.pawn_pushes(color, s);
        let captures = self.pawn_captures(color, s, pawn_mask(color, s));
        if k < pushes.len() {
            self.lemma_pawn_pushes_fit(color, s, k);
        } else if k < pushes.len() + captures.len() {
            self.lemma_pawn_captures_fit(color, s, pawn_mask(color, s), k - pushes.len());
        } else {
            self.lemma_pawn_moves_fit(
                color,
                drop_lowest(sources),
                k - pushes.len() - captures.len(),
            );
        }
    }

    /// The captures in passing fit the position.
    pub proof fn lemma_enpassant_moves_fit(self, color: Color, sources: u64, k: int)
        requires
            self.wf(),
            color == self.color,
            self.enpassant_open(color),
            forall|s: int| isset(sources, s) ==> isset(self.slot(first_piece(color)), s),
            0 <= k < self.enpassant_moves(color, sources).len(),
        ensures
            self.admits(self.enpassant_moves(color, sources)[k]),
        decreases sources,
    {
        lemma_lowest(sources);
        if k == 0 {
            let s = lowest(sources);
            let pawn = first_piece(color);
            self.lemma_stands(pawn, s);
            self.lemma_free(14, self.enpassant);
            self.lemma_stands(first_piece(opponent(color)), behind(color, self.enpassant));
            lemma_flagged_move(pawn, s, self.enpassant, ENPASSANT_FLAG);
        } else {
            self.lemma_enpassant_moves_fit(color, drop_lowest(sources), k - 1);
        }
    }

    /// All moves of the pawns fit the position.
    pub proof fn lemma_all_pawn_moves_fit(self, k: int)
        requires
            self.wf(),
            0 <= k < self.all_pawn_moves(self.color).len(),
        ensures
            self.admits(self.all_pawn_moves(self.color)[k]),
    {
        broadcast use group_bits;

        let color = self.color;
        let pawns = self.slot(first_piece(color));
        let pushed = self.pawn_moves(color, pawns);
        if k < pushed.len() {
            self.lemma_pawn_moves_fit(color, pawns, k);
        } else {
            let sources = pawn_mask(opponent(color), self.enpassant) & pawns;
            self.lemma_enpassant_moves_fit(color, sources, k - pushed.len());
        }
    }

    /// The castling moves fit the position.
    pub proof fn lemma_castling_moves_fit(self, k: int)
        requires
            self.wf(),
            0 <= k < self.castling_moves(self.color).len(),
        ensures
            self.admits(self.castling_moves(self.color)[k]),
    {
        let color = self.color;
        let king = first_piece(color) + 5;
        let home = home_square(color);
        lemma_flagged_move(king, home, home + 2, CASTLING_FLAG);
        lemma_flagged_move(king, home, home - 2, CASTLING_FLAG);
        if self.may_castle_king_side(color) {
            self.lemma_stands(king, home);
            self.lemma_stands(king - 2, home + 3);
            self.lemma_free(14, home + 1);
            self.lemma_free(14, home + 2);
        }
        if self.may_castle_queen_side(color) {
            self.lemma_stands(king, home);
            self.lemma_stands(king - 2, home - 4);
            self.lemma_free(14, home - 1);
            self.lemma_free(14, home - 2);
        }
    }

    /// Every generated move fits the position.
    pub proof fn lemma_generated_fit(self, k: int)
        requires
            self.wf(),
            0 <= k < self.generated().len(),
        ensures
            self.admits(self.generated()[k]),
    {
        reveal(Position::generated);
        let first = first_piece(self.color);
        let a = self.all_pawn_moves(self.color);
        let b = self.piece_moves(first + 1, self.slot(first + 1));
        let c = self.piece_moves(first + 2, self.slot(first + 2));
        let d = self.piece_moves(first + 3, self.slot(first + 3));
        let e = self.piece_moves(first + 4, self.slot(first + 4));
        let f = self.piece_moves(first + 5, self.slot(first + 5));
        let g = self.castling_moves(self.color);
        assert(self.generated() == a + b + c + d + e + f + g);
        if k < a.len() {
            self.lemma_all_pawn_moves_fit(k);
        } else if k < a.len() + b.len() {
            self.lemma_piece_moves_fit(first + 1, self.slot(first + 1), k - a.len());
        } else if k < a.len() + b.len() + c.len() {
            self.lemma_piece_moves_fit(first + 2, self.slot(first + 2), k - a.len() - b.len());
        } else if k < a.len() + b.len() + c.len() + d.len() {
            self.lemma_piece_moves_fit(
                first + 3,
                self.slot(first + 3),
                k - a.len() - b.len() - c.len(),
            );
        } else if k < a.len() + b.len() + c.len() + d.len() + e.len() {
            self.lemma_piece_moves_fit(
                first + 4,
                self.slot(first + 4),
                k - a.len() - b.len() - c.len() - d.len(),
            );
        } else if k < a.len() + b.len() + c.len() + d.len() + e.len() + f.len() {
            self.lemma_piece_moves_fit(
                first + 5,
                self.slot(first + 5),
                k - a.len() - b.len() - c.len() - d.len() - e.len(),
            );
        } else {
            self.lemma_castling_moves_fit(
                k - a.len() - b.len() - c.len() - d.len() - e.len() - f.len(),
            );
        }
    }

    /// Whether a move fits a position does not depend on its score.
    pub proof fn lemma_admits_same(self, a: MoveBitField, b: MoveBitField)
        requires
            a.same_move(b),
        ensures
            self.admits(a) == self.admits(b),
    {
        lemma_identity(a.0, b.0);
    }

    /// Every move in the order in which the search tries them fits the
    /// position.
    pub proof fn lemma_ordered_fit(self, killers: (MoveBitField, MoveBitField), i: int)
        requires
            self.wf(),
            0 <= i < self.ordered_moves(killers).len(),
        ensures
            self.admits(self.ordered_moves(killers)[i]),
    {
        let k = self.lemma_ranked_source(killers, self.generated(), i);
        self.lemma_generated_fit(k);
        self.lemma_admits_same(self.ordered_moves(killers)[i], self.generated()[k]);
    }

    /// A generated move leads from a sound position to a sound position:
    /// the aggregate masks stay the unions of the masks of their pieces, and
    /// no two pieces come to stand on one square.
    pub proof fn lemma_generated_keeps_sound(self, k: int)
        requires
            self.wf(),
            0 <= k < self.generated().len(),
        ensures
            self.moved(self.generated()[k]).wf(),
    {
        self.lemma_generated_fit(k);
        self.lemma_moved_wf(self.generated()[k]);
    }
}

} // verus!
