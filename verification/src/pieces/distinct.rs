//! No move is generated twice: the moves of a position are distinct, and so
//! are the moves in the order in which the search tries them and the legal
//! moves among them.

use vstd::prelude::*;
use crate::bits::{drop_lowest, isset, lemma_lowest, lowest};
use crate::board_components::{opponent, Color};
use crate::pieces::generation_laws::{
    lemma_flagged_move, lemma_plain_move, lemma_promotion, lemma_target_moves,
};
use crate::pieces::move_bits::{
    identity_bits, lemma_field_bounds, lemma_unscored, CAPTURE_FLAG, CASTLING_FLAG, DOUBLE_FLAG,
    ENPASSANT_FLAG,
};
use crate::pieces::laws::lemma_insertion_point;
use crate::pieces::pawn::{lemma_pawn_mask, pawn_mask};
use crate::pieces::pieces_controller::{
    finish_rank, first_piece, home_square, insertion_point, pawn_push, plain_move, promotions,
    reach, side_slot, start_rank, target_moves, MoveBitField, Position,
};
use crate::pieces::rules::{
    castling_move, double_move, lemma_contains_add, lemma_contains_one, passing_move,
};

verus! {

/// Two lists of distinct moves that share no move make a list of distinct
/// moves in a row.
pub proof fn lemma_distinct_add(a: Seq<MoveBitField>, b: Seq<MoveBitField>)
    requires
        a.no_duplicates(),
        b.no_duplicates(),
        forall|m: MoveBitField| !(a.contains(m) && b.contains(m)),
    ensures
        (a + b).no_duplicates(),
{
    let c = a + b;
    assert forall|i: int, j: int| 0 <= i < c.len() && 0 <= j < c.len() && i != j implies c[i]
        != c[j] by {
        if i < a.len() && j >= a.len() {
            assert(a.contains(a[i]) && b.contains(b[j - a.len()]));
        }
        if j < a.len() && i >= a.len() {
            assert(a.contains(a[j]) && b.contains(b[i - a.len()]));
        }
    }
}

/// The four promotions of a pawn are distinct, as is a list of one move and
/// a list of none.
pub proof fn lemma_distinct_promotions(pawn: int, s: int, t: int, capture: bool)
    requires
        pawn == 0 || pawn == 6,
        0 <= s < 64,
        0 <= t < 64,
    ensures
        promotions(pawn, s, t, capture).no_duplicates(),
        forall|x: MoveBitField| #[trigger] seq![x].no_duplicates(),
        Seq::<MoveBitField>::empty().no_duplicates(),
{
    lemma_promotion(pawn, s, t, pawn + 1, capture);
    lemma_promotion(pawn, s, t, pawn + 2, capture);
    lemma_promotion(pawn, s, t, pawn + 3, capture);
    lemma_promotion(pawn, s, t, pawn + 4, capture);
}

/// A move of a piece to the squares of a mask goes from the square of the
/// piece to a square of the mask, and is a plain move of the piece.
pub proof fn lemma_target_moves_member(
    piece: int,
    s: int,
    targets: u64,
    enemy: u64,
    m: MoveBitField,
)
    requires
        0 <= piece < 12,
        0 <= s < 64,
        target_moves(piece, s, targets, enemy).contains(m),
    ensures
        m.source() == s,
        isset(targets, m.target()),
        m.piece() == piece,
        !m.castling(),
        !m.enpassant(),
{
    let list = target_moves(piece, s, targets, enemy);
    let k = choose|k: int| 0 <= k < list.len() && list[k] == m;
    let t = lemma_target_moves(piece, s, targets, enemy, k);
    lemma_plain_move(piece, s, t, isset(enemy, t));
}

/// The moves of a piece to the squares of a mask are distinct.
pub proof fn lemma_target_moves_distinct(piece: int, s: int, targets: u64, enemy: u64)
    requires
        0 <= piece < 12,
        0 <= s < 64,
    ensures
        target_moves(piece, s, targets, enemy).no_duplicates(),
    decreases targets,
{
    if targets != 0 {
        lemma_lowest(targets);
        let t = lowest(targets);
        let head = seq![plain_move(piece, s, t, isset(enemy, t))];
        let rest = target_moves(piece, s, drop_lowest(targets), enemy);
        lemma_target_moves_distinct(piece, s, drop_lowest(targets), enemy);
        lemma_plain_move(piece, s, t, isset(enemy, t));
        assert forall|m: MoveBitField| !(head.contains(m) && rest.contains(m)) by {
            lemma_contains_one(head[0], m);
            if rest.contains(m) {
                lemma_target_moves_member(piece, s, drop_lowest(targets), enemy, m);
            }
        }
        lemma_distinct_add(head, rest);
    }
}

impl Position {
    /// A move of the pieces of one kind, other than pawns, is a plain move
    /// of that piece from a square of the mask.
    pub proof fn lemma_piece_moves_member(self, piece: int, sources: u64, m: MoveBitField)
        requires
            0 <= piece < 12,
            self.piece_moves(piece, sources).contains(m),
        ensures
            isset(sources, m.source()),
            m.piece() == piece,
            !m.castling(),
            !m.enpassant(),
        decreases sources,
    {
        if sources != 0 {
            lemma_lowest(sources);
            let s = lowest(sources);
            let here = self.moves_from(piece, s);
            let rest = self.piece_moves(piece, drop_lowest(sources));
            let targets = reach(piece % 6, s, self.slot(14)) & !self.slot(side_slot(piece));
            lemma_contains_add(here, rest, m);
            if here.contains(m) {
                lemma_target_moves_member(
                    piece,
                    s,
                    targets,
                    self.slot(25 - side_slot(piece)),
                    m,
                );
            } else {
                self.lemma_piece_moves_member(piece, drop_lowest(sources), m);
            }
        } else {
            let list = self.piece_moves(piece, sources);
            let k = choose|k: int| 0 <= k < list.len() && list[k] == m;
        }
    }

    /// The moves of the pieces of one kind, other than pawns, are distinct.
    pub proof fn lemma_piece_moves_distinct(self, piece: int, sources: u64)
        requires
            0 <= piece < 12,
        ensures
            self.piece_moves(piece, sources).no_duplicates(),
        decreases sources,
    {
        if sources != 0 {
            lemma_lowest(sources);
            let s = lowest(sources);
            let here = self.moves_from(piece, s);
            let rest = self.piece_moves(piece, drop_lowest(sources));
            let targets = reach(piece % 6, s, self.slot(14)) & !self.slot(side_slot(piece));
            let enemy = self.slot(25 - side_slot(piece));
            lemma_target_moves_distinct(piece, s, targets, enemy);
            self.lemma_piece_moves_distinct(piece, drop_lowest(sources));
            assert forall|m: MoveBitField| !(here.contains(m) && rest.contains(m)) by {
                if here.contains(m) && rest.contains(m) {
                    lemma_target_moves_member(piece, s, targets, enemy, m);
                    self.lemma_piece_moves_member(piece, drop_lowest(sources), m);
                }
            }
            lemma_distinct_add(here, rest);
        }
    }

    /// The pushes of a pawn are distinct.
    pub proof fn lemma_pawn_pushes_distinct(self, color: Color, s: int)
        requires
            0 <= s < 64,
        ensures
            self.pawn_pushes(color, s).no_duplicates(),
    {
        let pawn = first_piece(color);
        let t = s + pawn_push(color);
        let u = t + pawn_push(color);
        if 0 <= t < 64 && !isset(self.slot(14), t) {
            let first = if isset(finish_rank(color), t) {
                promotions(pawn, s, t, false)
            } else {
                seq![plain_move(pawn, s, t, false)]
            };
            let second = if isset(start_rank(color), s) && 0 <= u < 64 && !isset(
                self.slot(14),
                u,
            ) {
                seq![double_move(pawn, s, u)]
            } else {
                Seq::<MoveBitField>::empty()
            };
            assert(self.pawn_pushes(color, s) == first + second);
            lemma_distinct_promotions(pawn, s, t, false);
            assert forall|m: MoveBitField| !(first.contains(m) && second.contains(m)) by {
                Self::lemma_arrives(color, s, t, false, m);
                if 0 <= u < 64 {
                    lemma_flagged_move(pawn, s, u, DOUBLE_FLAG);
                    lemma_contains_one(double_move(pawn, s, u), m);
                }
            }
            lemma_distinct_add(first, second);
        }
    }

    /// The captures of a pawn onto the squares of a mask are distinct.
    pub proof fn lemma_pawn_captures_distinct(self, color: Color, s: int, targets: u64)
        requires
            0 <= s < 64,
        ensures
            self.pawn_captures(color, s, targets).no_duplicates(),
        decreases targets,
    {
        let pawn = first_piece(color);
        if targets != 0 {
            lemma_lowest(targets);
            let t = lowest(targets);
            let here = if !isset(self.slot(25 - side_slot(pawn)), t) {
                Seq::<MoveBitField>::empty()
            } else if isset(finish_rank(color), t) {
                promotions(pawn, s, t, true)
            } else {
                seq![plain_move(pawn, s, t, true)]
            };
            let rest = self.pawn_captures(color, s, drop_lowest(targets));
            self.lemma_pawn_captures_distinct(color, s, drop_lowest(targets));
            lemma_distinct_promotions(pawn, s, t, true);
            assert forall|m: MoveBitField| !(here.contains(m) && rest.contains(m)) by {
                self.lemma_pawn_captures_rule(color, s, drop_lowest(targets), m);
                Self::lemma_arrives(color, s, t, true, m);
                lemma_contains_one(m, m);
            }
            lemma_distinct_add(here, rest);
        }
    }

    /// The pushes and captures of the pawns on the squares of a mask are
    /// distinct.
    pub proof fn lemma_pawn_moves_distinct(self, color: Color, sources: u64)
        ensures
            self.pawn_moves(color, sources).no_duplicates(),
        decreases sources,
    {
        if sources != 0 {
            lemma_lowest(sources);
            let s = lowest(sources);
            let pushes = self.pawn_pushes(color, s);
            let captures = self.pawn_captures(color, s, pawn_mask(color, s));
            let rest = self.pawn_moves(color, drop_lowest(sources));
            self.lemma_pawn_pushes_distinct(color, s);
            self.lemma_pawn_captures_distinct(color, s, pawn_mask(color, s));
            self.lemma_pawn_moves_distinct(color, drop_lowest(sources));
            lemma_pawn_mask(color, s);
            assert forall|m: MoveBitField| !(pushes.contains(m) && captures.contains(m)) by {
                self.lemma_pawn_pushes_rule(color, s, m);
                self.lemma_pawn_captures_rule(color, s, pawn_mask(color, s), m);
                if pushes.contains(m) && captures.contains(m) {
                    let t = s + pawn_push(color);
                    let u = t + pawn_push(color);
                    if self.push_rule(color, m) {
                        Self::lemma_arrives(color, s, t, false, m);
                    }
                    if self.double_rule(color, m) {
                        lemma_flagged_move(first_piece(color), s, u, DOUBLE_FLAG);
                    }
                    assert(isset(pawn_mask(color, s), m.target()) == crate::pieces::pawn::pawn_step(
                        color,
                        s,
                        m.target(),
                    ));
                    assert(m.target() == t || m.target() == u);
                    assert(false);
                }
            }
            lemma_distinct_add(pushes, captures);
            assert forall|m: MoveBitField| !((pushes + captures).contains(m) && rest.contains(m)) by {
                lemma_contains_add(pushes, captures, m);
                self.lemma_pawn_pushes_rule(color, s, m);
                self.lemma_pawn_captures_rule(color, s, pawn_mask(color, s), m);
                self.lemma_pawn_moves_rule(color, drop_lowest(sources), m);
            }
            lemma_distinct_add(pushes + captures, rest);
        }
    }

    /// The captures in passing by the pawns on the squares of a mask are
    /// distinct.
    pub proof fn lemma_enpassant_moves_distinct(self, color: Color, sources: u64)
        requires
            0 <= self.enpassant < 64,
        ensures
            self.enpassant_moves(color, sources).no_duplicates(),
        decreases sources,
    {
        let pawn = first_piece(color);
        if sources != 0 {
            lemma_lowest(sources);
            let s = lowest(sources);
            let here = seq![passing_move(pawn, s, self.enpassant)];
            let rest = self.enpassant_moves(color, drop_lowest(sources));
            self.lemma_enpassant_moves_distinct(color, drop_lowest(sources));
            lemma_flagged_move(pawn, s, self.enpassant, ENPASSANT_FLAG);
            assert forall|m: MoveBitField| !(here.contains(m) && rest.contains(m)) by {
                lemma_contains_one(here[0], m);
                self.lemma_enpassant_moves_rule(color, drop_lowest(sources), m);
            }
            lemma_distinct_add(here, rest);
        }
    }

    /// A push or capture of a pawn by the rules is a move of the pawn and
    /// no capture in passing.
    pub proof fn lemma_pawn_move_plain(self, color: Color, m: MoveBitField)
        requires
            0 <= m.source() < 64,
            self.push_rule(color, m) || self.double_rule(color, m) || self.pawn_capture_rule(
                color,
                m,
            ),
        ensures
            m.piece() == first_piece(color),
            !m.enpassant(),
            !m.castling(),
    {
        let pawn = first_piece(color);
        let s = m.source();
        let t = s + pawn_push(color);
        let u = t + pawn_push(color);
        if self.push_rule(color, m) {
            Self::lemma_arrives(color, s, t, false, m);
            lemma_plain_move(pawn, s, t, false);
            lemma_promotion(pawn, s, t, pawn + 1, false);
            lemma_promotion(pawn, s, t, pawn + 2, false);
            lemma_promotion(pawn, s, t, pawn + 3, false);
            lemma_promotion(pawn, s, t, pawn + 4, false);
        } else if self.double_rule(color, m) {
            lemma_flagged_move(pawn, s, u, DOUBLE_FLAG);
        } else {
            let c = m.target();
            Self::lemma_arrives(color, s, c, true, m);
            lemma_plain_move(pawn, s, c, true);
            lemma_promotion(pawn, s, c, pawn + 1, true);
            lemma_promotion(pawn, s, c, pawn + 2, true);
            lemma_promotion(pawn, s, c, pawn + 3, true);
            lemma_promotion(pawn, s, c, pawn + 4, true);
        }
    }

    /// A move of the pawns is a move of the pawn and no castling; it is a
    /// capture in passing exactly when it is one of those.
    pub proof fn lemma_all_pawn_moves_member(self, m: MoveBitField)
        requires
            0 <= self.enpassant <= 64,
            self.all_pawn_moves(self.color).contains(m),
        ensures
            m.piece() == first_piece(self.color),
            !m.castling(),
            m.enpassant() <==> !self.pawn_moves(
                self.color,
                self.slot(first_piece(self.color)),
            ).contains(m),
    {
        let color = self.color;
        let pawn = first_piece(color);
        let pawns = self.slot(pawn);
        let pushed = self.pawn_moves(color, pawns);
        let sources = pawn_mask(opponent(color), self.enpassant) & pawns;
        let passing = if self.enpassant_open(color) {
            self.enpassant_moves(color, sources)
        } else {
            Seq::<MoveBitField>::empty()
        };
        lemma_contains_add(pushed, passing, m);
        lemma_field_bounds(m.0);
        if pushed.contains(m) {
            self.lemma_pawn_moves_rule(color, pawns, m);
            self.lemma_pawn_move_plain(color, m);
        } else {
            lemma_contains_one(m, m);
            self.lemma_enpassant_moves_rule(color, sources, m);
            lemma_flagged_move(pawn, m.source(), self.enpassant, ENPASSANT_FLAG);
        }
    }

    /// All moves of the pawns are distinct.
    pub proof fn lemma_all_pawn_moves_distinct(self)
        requires
            0 <= self.enpassant <= 64,
        ensures
            self.all_pawn_moves(self.color).no_duplicates(),
    {
        let color = self.color;
        let pawn = first_piece(color);
        let pawns = self.slot(pawn);
        let pushed = self.pawn_moves(color, pawns);
        let sources = pawn_mask(opponent(color), self.enpassant) & pawns;
        let passing = if self.enpassant_open(color) {
            self.enpassant_moves(color, sources)
        } else {
            Seq::<MoveBitField>::empty()
        };
        self.lemma_pawn_moves_distinct(color, pawns);
        if self.enpassant_open(color) {
            self.lemma_enpassant_moves_distinct(color, sources);
        }
        assert forall|m: MoveBitField| !(pushed.contains(m) && passing.contains(m)) by {
            if pushed.contains(m) && passing.contains(m) {
                lemma_field_bounds(m.0);
                self.lemma_pawn_moves_rule(color, pawns, m);
                self.lemma_pawn_move_plain(color, m);
                self.lemma_enpassant_moves_rule(color, sources, m);
                lemma_flagged_move(pawn, m.source(), self.enpassant, ENPASSANT_FLAG);
            }
        }
        lemma_distinct_add(pushed, passing);
    }

    /// A castling move is a move of the king that castles.
    pub proof fn lemma_castling_moves_member(self, m: MoveBitField)
        requires
            self.castling_moves(self.color).contains(m),
        ensures
            m.piece() == first_piece(self.color) + 5,
            m.castling(),
    {
        let king = first_piece(self.color) + 5;
        let home = home_square(self.color);
        self.lemma_castling_moves_rule(m);
        lemma_flagged_move(king, home, home + 2, CASTLING_FLAG);
        lemma_flagged_move(king, home, home - 2, CASTLING_FLAG);
    }

    /// The castling moves are distinct.
    pub proof fn lemma_castling_moves_distinct(self)
        ensures
            self.castling_moves(self.color).no_duplicates(),
    {
        let king = first_piece(self.color) + 5;
        let home = home_square(self.color);
        let short = if self.may_castle_king_side(self.color) {
            seq![castling_move(king, home, home + 2)]
        } else {
            Seq::<MoveBitField>::empty()
        };
        let long = if self.may_castle_queen_side(self.color) {
            seq![castling_move(king, home, home - 2)]
        } else {
            Seq::<MoveBitField>::empty()
        };
        assert(self.castling_moves(self.color) == short + long);
        lemma_flagged_move(king, home, home + 2, CASTLING_FLAG);
        lemma_flagged_move(king, home, home - 2, CASTLING_FLAG);
        assert forall|m: MoveBitField| !(short.contains(m) && long.contains(m)) by {
            lemma_contains_one(castling_move(king, home, home + 2), m);
            lemma_contains_one(castling_move(king, home, home - 2), m);
        }
        lemma_distinct_add(short, long);
    }

    /// The part of the list of generated moves in which a move stands: 0
    /// for the moves of the pawns, and so on to 5 for those of the king, and
    /// 6 for castling.
    pub open spec fn part_of(self, m: MoveBitField) -> int {
        if m.castling() {
            6
        } else {
            m.piece() - first_piece(self.color)
        }
    }

    /// No move is generated twice.
    pub proof fn lemma_generated_distinct(self)
        requires
            0 <= self.enpassant <= 64,
        ensures
            self.generated().no_duplicates(),
    {
        reveal(Position::generated);
        let first = first_piece(self.color);
        let a = self.all_pawn_moves(self.color);
        let b = self.piece_moves(first + 1, self.slot(first + 1));
        let c = self.piece_moves(first + 2, self.slot(first + 2));
        let d = self.piece_moves(first + 3, self.slot(first + 3));
        let e = self.piece_moves(first + 4, self.slot(first + 4));
        let f = self.piece_moves(first + 5, self.slot(first + 5));
        let g = self.castling_moves(self.color);
        self.lemma_all_pawn_moves_distinct();
        self.lemma_piece_moves_distinct(first + 1, self.slot(first + 1));
        self.lemma_piece_moves_distinct(first + 2, self.slot(first + 2));
        self.lemma_piece_moves_distinct(first + 3, self.slot(first + 3));
        self.lemma_piece_moves_distinct(first + 4, self.slot(first + 4));
        self.lemma_piece_moves_distinct(first + 5, self.slot(first + 5));
        self.lemma_castling_moves_distinct();
        assert forall|m: MoveBitField|
            (a.contains(m) ==> self.part_of(m) == 0) && (b.contains(m) ==> self.part_of(m) == 1)
                && (c.contains(m) ==> self.part_of(m) == 2) && (d.contains(m) ==> self.part_of(m)
                == 3) && (e.contains(m) ==> self.part_of(m) == 4) && (f.contains(m)
                ==> self.part_of(m) == 5) && (g.contains(m) ==> self.part_of(m) == 6) by {
            if a.contains(m) {
                self.lemma_all_pawn_moves_member(m);
            }
            if b.contains(m) {
                self.lemma_piece_moves_member(first + 1, self.slot(first + 1), m);
            }
            if c.contains(m) {
                self.lemma_piece_moves_member(first + 2, self.slot(first + 2), m);
            }
            if d.contains(m) {
                self.lemma_piece_moves_member(first + 3, self.slot(first + 3), m);
            }
            if e.contains(m) {
                self.lemma_piece_moves_member(first + 4, self.slot(first + 4), m);
            }
            if f.contains(m) {
                self.lemma_piece_moves_member(first + 5, self.slot(first + 5), m);
            }
            if g.contains(m) {
                self.lemma_castling_moves_member(m);
            }
        }
        assert forall|m: MoveBitField| !(a.contains(m) && b.contains(m)) by {
            assert(a.contains(m) ==> self.part_of(m) == 0);
        }
        lemma_distinct_add(a, b);
        assert forall|m: MoveBitField| !((a + b).contains(m) && c.contains(m)) by {
            lemma_contains_add(a, b, m);
            assert(a.contains(m) ==> self.part_of(m) == 0);
        }
        lemma_distinct_add(a + b, c);
        assert forall|m: MoveBitField| !((a + b + c).contains(m) && d.contains(m)) by {
            lemma_contains_add(a, b, m);
            lemma_contains_add(a + b, c, m);
            assert(a.contains(m) ==> self.part_of(m) == 0);
        }
        lemma_distinct_add(a + b + c, d);
        assert forall|m: MoveBitField| !((a + b + c + d).contains(m) && e.contains(m)) by {
            lemma_contains_add(a, b, m);
            lemma_contains_add(a + b, c, m);
            lemma_contains_add(a + b + c, d, m);
            assert(a.contains(m) ==> self.part_of(m) == 0);
        }
        lemma_distinct_add(a + b + c + d, e);
        assert forall|m: MoveBitField| !((a + b + c + d + e).contains(m) && f.contains(m)) by {
            lemma_contains_add(a, b, m);
            lemma_contains_add(a + b, c, m);
            lemma_contains_add(a + b + c, d, m);
            lemma_contains_add(a + b + c + d, e, m);
            assert(a.contains(m) ==> self.part_of(m) == 0);
        }
        lemma_distinct_add(a + b + c + d + e, f);
        assert forall|m: MoveBitField| !((a + b + c + d + e + f).contains(m) && g.contains(m)) by {
            lemma_contains_add(a, b, m);
            lemma_contains_add(a + b, c, m);
            lemma_contains_add(a + b + c, d, m);
            lemma_contains_add(a + b + c + d, e, m);
            lemma_contains_add(a + b + c + d + e, f, m);
            assert(a.contains(m) ==> self.part_of(m) == 0);
        }
        lemma_distinct_add(a + b + c + d + e + f, g);
    }
}

/// No two moves of the list are the same move, whatever their scores.
pub open spec fn apart(list: Seq<MoveBitField>) -> bool {
    forall|i: int, j: int|
        0 <= i < j < list.len() ==> !(#[trigger] list[i]).same_move(#[trigger] list[j])
}

/// A move that is put into a list of moves of which none is the same move
/// as it, and no two are the same, leaves it such a list.
pub proof fn lemma_apart_insert(list: Seq<MoveBitField>, at: int, mov: MoveBitField)
    requires
        apart(list),
        0 <= at <= list.len(),
        forall|i: int| 0 <= i < list.len() ==> !(#[trigger] list[i]).same_move(mov),
    ensures
        apart(list.insert(at, mov)),
{
    let out = list.insert(at, mov);
    assert forall|i: int, j: int| 0 <= i < j < out.len() implies !(#[trigger] out[i]).same_move(
        #[trigger] out[j],
    ) by {
        let a = if i < at {
            i
        } else {
            i - 1
        };
        let b = if j < at {
            j
        } else {
            j - 1
        };
        if i == at {
            assert(out[j] == list[b]);
        } else if j == at {
            assert(out[i] == list[a]);
        } else {
            assert(out[i] == list[a]);
            assert(out[j] == list[b]);
        }
    }
}

impl Position {
    /// A move of the rules holds no score.
    pub proof fn lemma_rule_unscored(self, m: MoveBitField)
        requires
            self.pseudo_legal(m),
        ensures
            identity_bits(m.0) == m.0,
    {
        let color = self.color;
        let pawn = first_piece(color);
        let s = m.source();
        let t = s + pawn_push(color);
        let u = t + pawn_push(color);
        let c = m.target();
        let home = home_square(color);
        lemma_field_bounds(m.0);
        if 0 <= t < 64 {
            lemma_unscored(s as u64, t as u64, pawn as u64, (pawn + 1) as u64, 0, 0);
            lemma_unscored(s as u64, t as u64, pawn as u64, (pawn + 2) as u64, 0, 0);
            lemma_unscored(s as u64, t as u64, pawn as u64, (pawn + 3) as u64, 0, 0);
            lemma_unscored(s as u64, t as u64, pawn as u64, (pawn + 4) as u64, 0, 0);
        }
        if 0 <= u < 64 {
            lemma_unscored(s as u64, u as u64, pawn as u64, 0, DOUBLE_FLAG, 0);
        }
        lemma_unscored(s as u64, c as u64, pawn as u64, (pawn + 1) as u64, CAPTURE_FLAG, 0);
        lemma_unscored(s as u64, c as u64, pawn as u64, (pawn + 2) as u64, CAPTURE_FLAG, 0);
        lemma_unscored(s as u64, c as u64, pawn as u64, (pawn + 3) as u64, CAPTURE_FLAG, 0);
        lemma_unscored(s as u64, c as u64, pawn as u64, (pawn + 4) as u64, CAPTURE_FLAG, 0);
        if 0 <= self.enpassant < 64 {
            lemma_unscored(
                s as u64,
                self.enpassant as u64,
                pawn as u64,
                0,
                ENPASSANT_FLAG,
                CAPTURE_FLAG,
            );
        }
        if 0 <= m.piece() < 12 {
            lemma_unscored(s as u64, c as u64, m.piece() as u64, 0, CAPTURE_FLAG, 0);
        }
        lemma_unscored(home as u64, (home + 2) as u64, (pawn + 5) as u64, 0, CASTLING_FLAG, 0);
        lemma_unscored(home as u64, (home - 2) as u64, (pawn + 5) as u64, 0, CASTLING_FLAG, 0);
    }

    /// No two of the generated moves are the same move.
    pub proof fn lemma_generated_apart(self)
        requires
            0 <= self.enpassant <= 64,
        ensures
            apart(self.generated()),
    {
        self.lemma_generated_distinct();
        let list = self.generated();
        assert forall|i: int, j: int| 0 <= i < j < list.len() implies !(#[trigger] list[i]).same_move(
            #[trigger] list[j],
        ) by {
            assert(list.contains(list[i]));
            assert(list.contains(list[j]));
            self.lemma_generated_rule(list[i]);
            self.lemma_generated_rule(list[j]);
            self.lemma_rule_unscored(list[i]);
            self.lemma_rule_unscored(list[j]);
            assert(list[i] != list[j]);
        }
    }

    /// Ordering moves by their scores keeps them apart: where no two of the
    /// moves given are the same move, no two of the ordered ones are.
    pub proof fn lemma_ranked_apart(
        self,
        killers: (MoveBitField, MoveBitField),
        moves: Seq<MoveBitField>,
    )
        requires
            apart(moves),
        ensures
            apart(self.ranked(killers, moves)),
        decreases moves.len(),
    {
        if moves.len() > 0 {
            let head = moves.drop_last();
            let sorted = self.ranked(killers, head);
            let last = self.scored(opponent(self.color), killers, moves.last());
            assert forall|i: int, j: int| 0 <= i < j < head.len() implies !(#[trigger] head[i]).same_move(
                #[trigger] head[j],
            ) by {
                assert(head[i] == moves[i]);
                assert(head[j] == moves[j]);
            }
            self.lemma_ranked_apart(killers, head);
            self.lemma_scored(opponent(self.color), killers, moves.last());
            assert forall|i: int| 0 <= i < sorted.len() implies !(#[trigger] sorted[i]).same_move(
                last,
            ) by {
                let k = self.lemma_ranked_source(killers, head, i);
                assert(head[k] == moves[k]);
                assert(!moves[k].same_move(moves[moves.len() - 1]));
            }
            lemma_insertion_point(sorted, last.score(), 0);
            let at = insertion_point(sorted, last.score(), 0);
            lemma_apart_insert(sorted, at, last);
        }
    }

    /// The legal moves among moves of which no two are the same are such
    /// moves too.
    pub proof fn lemma_legal_among_apart(self, moves: Seq<MoveBitField>)
        requires
            apart(moves),
        ensures
            apart(self.legal_among(moves)),
        decreases moves.len(),
    {
        if moves.len() > 0 {
            let head = moves.drop_last();
            let legal = self.legal_among(head);
            assert forall|i: int, j: int| 0 <= i < j < head.len() implies !(#[trigger] head[i]).same_move(
                #[trigger] head[j],
            ) by {
                assert(head[i] == moves[i]);
                assert(head[j] == moves[j]);
            }
            self.lemma_legal_among_apart(head);
            assert forall|i: int| 0 <= i < legal.len() implies !(#[trigger] legal[i]).same_move(
                moves.last(),
            ) by {
                assert(legal.contains(legal[i]));
                self.lemma_legal_among(head, legal[i]);
                let k = choose|k: int| 0 <= k < head.len() && head[k] == legal[i];
                assert(head[k] == moves[k]);
                assert(!moves[k].same_move(moves[moves.len() - 1]));
            }
            if self.leaves_king_safe(moves.last()) {
                lemma_apart_insert(legal, legal.len() as int, moves.last());
                assert(legal.insert(legal.len() as int, moves.last()) =~= legal.push(moves.last()));
            }
        }
    }

    /// `x` is a move of the rules with its score written into it.
    pub open spec fn scored_rule(self, killers: (MoveBitField, MoveBitField), x: MoveBitField) -> bool {
        exists|m: MoveBitField|
            self.pseudo_legal(m) && x == #[trigger] self.scored(opponent(self.color), killers, m)
    }

    /// The order in which the search tries the moves holds each move of the
    /// rules once: it is as long as the list of the generated moves, no two
    /// of its moves are the same move, each of them is a move of the rules
    /// with its score, each move of the rules is among them, and the scores
    /// never rise along it.
    pub proof fn lemma_ordered_moves(self, killers: (MoveBitField, MoveBitField))
        requires
            0 <= self.enpassant <= 64,
        ensures
            self.ordered_moves(killers).len() == self.generated().len(),
            apart(self.ordered_moves(killers)),
            forall|x: MoveBitField|
                #[trigger] self.ordered_moves(killers).contains(x) <==> self.scored_rule(
                    killers,
                    x,
                ),
            forall|i: int, j: int|
                0 <= i <= j < self.ordered_moves(killers).len() ==> self.ordered_moves(
                    killers,
                )[i].score() >= self.ordered_moves(killers)[j].score(),
    {
        let list = self.ordered_moves(killers);
        let moves = self.generated();
        let enemy = opponent(self.color);
        self.lemma_ranked(killers, moves);
        self.lemma_generated_apart();
        self.lemma_ranked_apart(killers, moves);
        assert forall|x: MoveBitField| #[trigger]
            list.contains(x) <==> self.scored_rule(killers, x) by {
            if list.contains(x) {
                let i = choose|i: int| 0 <= i < list.len() && list[i] == x;
                let k = self.lemma_ranked_source(killers, moves, i);
                assert(moves.contains(moves[k]));
                self.lemma_generated_rule(moves[k]);
                assert(x == self.scored(enemy, killers, moves[k]));
            }
            if self.scored_rule(killers, x) {
                let m = choose|m: MoveBitField|
                    self.pseudo_legal(m) && x == #[trigger] self.scored(enemy, killers, m);
                self.lemma_generated_rule(m);
                let k = choose|k: int| 0 <= k < moves.len() && moves[k] == m;
                let i = self.lemma_ranked_target(killers, moves, k);
            }
        }
    }

    /// The legal moves in the order in which the search tries them hold
    /// each move of the rules that leaves the king safe once: no two of them
    /// are the same move, and a move is among them exactly when it is a move
    /// of the rules with its score that leaves the king safe.
    pub proof fn lemma_legal_ordered_moves(self, killers: (MoveBitField, MoveBitField))
        requires
            0 <= self.enpassant <= 64,
        ensures
            apart(self.legal_among(self.ordered_moves(killers))),
            forall|x: MoveBitField|
                #[trigger] self.legal_among(self.ordered_moves(killers)).contains(x)
                    <==> self.scored_rule(
                    killers,
                    x,
                ) && self.leaves_king_safe(x),
    {
        let list = self.ordered_moves(killers);
        let legal = self.legal_among(list);
        self.lemma_ordered_moves(killers);
        self.lemma_legal_among_apart(list);
        assert forall|x: MoveBitField| #[trigger]
            legal.contains(x) <==> self.scored_rule(killers, x) && self.leaves_king_safe(x) by {
            self.lemma_legal_among(list, x);
        }
    }
}

} // verus!
