//! The invariant of positions: no two pieces on one square, and aggregate
//! masks that are the unions of the masks of their pieces.

use vstd::prelude::*;
use crate::bits::{group_bits, isset, lemma_ext, single};
use crate::board_components::opponent;
use crate::pieces::move_bits::lemma_field_bounds;
use crate::pieces::pieces_controller::{
    behind, color_of, first_piece, side_slot, MoveBitField, Position, CASTLING_RIGHTS,
};

verus! {

impl Position {
    /// On the square `s` stands at most one piece, and the aggregate masks
    /// hold the square exactly when a piece of theirs stands there.
    pub open spec fn sound_at(self, s: int) -> bool {
        let o = self.occupant(s);
        &&& isset(self.slot(0), s) == (o == 0)
        &&& isset(self.slot(1), s) == (o == 1)
        &&& isset(self.slot(2), s) == (o == 2)
        &&& isset(self.slot(3), s) == (o == 3)
        &&& isset(self.slot(4), s) == (o == 4)
        &&& isset(self.slot(5), s) == (o == 5)
        &&& isset(self.slot(6), s) == (o == 6)
        &&& isset(self.slot(7), s) == (o == 7)
        &&& isset(self.slot(8), s) == (o == 8)
        &&& isset(self.slot(9), s) == (o == 9)
        &&& isset(self.slot(10), s) == (o == 10)
        &&& isset(self.slot(11), s) == (o == 11)
        &&& isset(self.slot(12), s) == (6 <= o < 12)
        &&& isset(self.slot(13), s) == (0 <= o < 6)
        &&& isset(self.slot(14), s) == (0 <= o < 12)
    }

    /// The position is sound: it has its fifteen masks, sound at every
    /// square; its en-passant square is a square or none; its castling
    /// rights are four bits; and its counters are such as the engine can
    /// hold.
    pub open spec fn wf(self) -> bool {
        &&& self.shaped()
        &&& self.half_move <= usize::MAX
        &&& self.full_move <= usize::MAX
        &&& forall|s: int| 0 <= s < 64 ==> #[trigger] self.sound_at(s)
    }

    /// What putting a piece on a square does to each mask.
    pub proof fn lemma_put(self, piece: int, t: int, i: int)
        requires
            self.boards.len() == 15,
            0 <= piece < 12,
            0 <= i < 15,
        ensures
            self.put(piece, t).boards.len() == 15,
            self.put(piece, t) == (Position { boards: self.put(piece, t).boards, ..self }),
            self.put(piece, t).slot(i) == if i == piece || i == side_slot(piece) || i == 14 {
                self.slot(i) | single(t)
            } else {
                self.slot(i)
            },
    {
    }

    /// What taking a piece off a square does to each mask.
    pub proof fn lemma_take(self, piece: int, t: int, i: int)
        requires
            self.boards.len() == 15,
            0 <= piece < 12,
            0 <= i < 15,
        ensures
            self.take(piece, t).boards.len() == 15,
            self.take(piece, t) == (Position { boards: self.take(piece, t).boards, ..self }),
            self.take(piece, t).slot(i) == if i == piece || i == side_slot(piece) || i == 14 {
                self.slot(i) & !single(t)
            } else {
                self.slot(i)
            },
    {
    }

    /// Which piece stands on a square is told by the mask that holds the
    /// square.
    pub proof fn lemma_occupant(self, s: int)
        ensures
            -1 <= self.occupant(s) < 12,
            self.occupant(s) >= 0 ==> isset(self.slot(self.occupant(s)), s),
            self.occupant(s) == -1 ==> forall|i: int| 0 <= i < 12 ==> !isset(self.slot(i), s),
    {
        reveal_with_fuel(Position::holder, 7);
    }
}

/// The mask at place `i` holds a square on which the piece at place `o`
/// stands, `o` being -1 for no piece: the mask of the piece itself, that of
/// its colour, and that of all pieces.
pub open spec fn in_slot(i: int, o: int) -> bool {
    if i < 12 {
        o == i
    } else if i == 12 {
        6 <= o < 12
    } else if i == 13 {
        0 <= o < 6
    } else {
        0 <= o < 12
    }
}

impl Position {
    /// The masks are fifteen, and sound at every square.
    pub open spec fn sound(self) -> bool {
        &&& self.boards.len() == 15
        &&& forall|s: int| 0 <= s < 64 ==> #[trigger] self.sound_at(s)
    }

    /// The masks are those of the board on which, for every square `s`,
    /// the piece at place `f(s)` stands, or none where `f(s)` is -1.
    pub open spec fn follows(self, f: spec_fn(int) -> int) -> bool {
        &&& self.boards.len() == 15
        &&& forall|s: int| 0 <= s < 64 ==> -1 <= #[trigger] f(s) < 12
        &&& forall|s: int, i: int|
            0 <= s < 64 && 0 <= i < 15 ==> #[trigger] isset(self.slot(i), s) == in_slot(i, f(s))
    }

    /// A position whose masks follow a board is sound, and the pieces on
    /// its squares are those of the board.
    pub proof fn lemma_follows_sound(self, f: spec_fn(int) -> int)
        requires
            self.follows(f),
        ensures
            self.sound(),
            forall|s: int| 0 <= s < 64 ==> #[trigger] self.occupant(s) == f(s),
    {
        assert forall|s: int| 0 <= s < 64 implies #[trigger] self.occupant(s) == f(s) by {
            self.lemma_follows_at(f, s);
        }
        assert forall|s: int| 0 <= s < 64 implies #[trigger] self.sound_at(s) by {
            self.lemma_follows_at(f, s);
        }
    }

    /// At one square, the masks that follow a board are sound.
    pub proof fn lemma_follows_at(self, f: spec_fn(int) -> int, s: int)
        requires
            self.follows(f),
            0 <= s < 64,
        ensures
            self.occupant(s) == f(s),
            self.sound_at(s),
    {
        reveal_with_fuel(Position::holder, 7);
        assert(-1 <= f(s) < 12);
        assert(isset(self.slot(0), s) == in_slot(0, f(s)));
        assert(isset(self.slot(1), s) == in_slot(1, f(s)));
        assert(isset(self.slot(2), s) == in_slot(2, f(s)));
        assert(isset(self.slot(3), s) == in_slot(3, f(s)));
        assert(isset(self.slot(4), s) == in_slot(4, f(s)));
        assert(isset(self.slot(5), s) == in_slot(5, f(s)));
        assert(isset(self.slot(6), s) == in_slot(6, f(s)));
        assert(isset(self.slot(7), s) == in_slot(7, f(s)));
        assert(isset(self.slot(8), s) == in_slot(8, f(s)));
        assert(isset(self.slot(9), s) == in_slot(9, f(s)));
        assert(isset(self.slot(10), s) == in_slot(10, f(s)));
        assert(isset(self.slot(11), s) == in_slot(11, f(s)));
        assert(isset(self.slot(12), s) == in_slot(12, f(s)));
        assert(isset(self.slot(13), s) == in_slot(13, f(s)));
        assert(isset(self.slot(14), s) == in_slot(14, f(s)));
    }

    /// The masks of a sound position follow the board of the pieces on its
    /// squares.
    pub proof fn lemma_sound_follows(self)
        requires
            self.sound(),
        ensures
            self.follows(|s: int| self.occupant(s)),
    {
        let f = |s: int| self.occupant(s);
        assert forall|s: int| 0 <= s < 64 implies -1 <= #[trigger] f(s) < 12 by {
            self.lemma_occupant(s);
        }
        assert forall|s: int, i: int| 0 <= s < 64 && 0 <= i < 15 implies #[trigger] isset(
            self.slot(i),
            s,
        ) == in_slot(i, f(s)) by {
            assert(self.sound_at(s));
            self.lemma_occupant(s);
        }
    }

    /// What each mask is after a piece is put on a square.
    pub proof fn lemma_put_all(self, piece: int, t: int)
        requires
            self.boards.len() == 15,
            0 <= piece < 12,
        ensures
            self.put(piece, t).boards.len() == 15,
            self.put(piece, t) == (Position { boards: self.put(piece, t).boards, ..self }),
            forall|i: int|
                0 <= i < 15 ==> #[trigger] self.put(piece, t).slot(i) == if i == piece || i
                    == side_slot(piece) || i == 14 {
                    self.slot(i) | single(t)
                } else {
                    self.slot(i)
                },
    {
        assert forall|i: int| 0 <= i < 15 implies #[trigger] self.put(piece, t).slot(i) == if i
            == piece || i == side_slot(piece) || i == 14 {
            self.slot(i) | single(t)
        } else {
            self.slot(i)
        } by {
            self.lemma_put(piece, t, i);
        }
    }

    /// What each mask is after a piece is taken off a square.
    pub proof fn lemma_take_all(self, piece: int, t: int)
        requires
            self.boards.len() == 15,
            0 <= piece < 12,
        ensures
            self.take(piece, t).boards.len() == 15,
            self.take(piece, t) == (Position { boards: self.take(piece, t).boards, ..self }),
            forall|i: int|
                0 <= i < 15 ==> #[trigger] self.take(piece, t).slot(i) == if i == piece || i
                    == side_slot(piece) || i == 14 {
                    self.slot(i) & !single(t)
                } else {
                    self.slot(i)
                },
    {
        assert forall|i: int| 0 <= i < 15 implies #[trigger] self.take(piece, t).slot(i) == if i
            == piece || i == side_slot(piece) || i == 14 {
            self.slot(i) & !single(t)
        } else {
            self.slot(i)
        } by {
            self.lemma_take(piece, t, i);
        }
    }

    /// Putting a piece on an empty square of a board gives the board with
    /// the piece on the square.
    pub proof fn lemma_put_follows(self, f: spec_fn(int) -> int, piece: int, t: int)
        requires
            self.follows(f),
            0 <= piece < 12,
            0 <= t < 64,
            f(t) == -1,
        ensures
            self.put(piece, t).follows(
                |s: int|
                    if s == t {
                        piece
                    } else {
                        f(s)
                    },
            ),
            self.put(piece, t) == (Position { boards: self.put(piece, t).boards, ..self }),
    {
        broadcast use group_bits;

        self.lemma_put_all(piece, t);
        let next = self.put(piece, t);
        let g = |s: int|
            if s == t {
                piece
            } else {
                f(s)
            };
        assert forall|s: int| 0 <= s < 64 implies -1 <= #[trigger] g(s) < 12 by {
            assert(-1 <= f(s) < 12);
        }
        assert forall|s: int, i: int| 0 <= s < 64 && 0 <= i < 15 implies #[trigger] isset(
            next.slot(i),
            s,
        ) == in_slot(i, g(s)) by {
            assert(isset(self.slot(i), s) == in_slot(i, f(s)));
        }
    }

    /// Taking the piece that stands on a square of a board off it gives the
    /// board with the square empty.
    pub proof fn lemma_take_follows(self, f: spec_fn(int) -> int, piece: int, t: int)
        requires
            self.follows(f),
            0 <= piece < 12,
            0 <= t < 64,
            f(t) == piece,
        ensures
            self.take(piece, t).follows(
                |s: int|
                    if s == t {
                        -1
                    } else {
                        f(s)
                    },
            ),
            self.take(piece, t) == (Position { boards: self.take(piece, t).boards, ..self }),
    {
        broadcast use group_bits;

        self.lemma_take_all(piece, t);
        let next = self.take(piece, t);
        let g = |s: int|
            if s == t {
                -1
            } else {
                f(s)
            };
        assert forall|s: int| 0 <= s < 64 implies -1 <= #[trigger] g(s) < 12 by {
            assert(-1 <= f(s) < 12);
        }
        assert forall|s: int, i: int| 0 <= s < 64 && 0 <= i < 15 implies #[trigger] isset(
            next.slot(i),
            s,
        ) == in_slot(i, g(s)) by {
            assert(isset(self.slot(i), s) == in_slot(i, f(s)));
        }
    }

    /// Where one mask only of the six from `first` on holds a square, it is
    /// the holder of the square among them.
    pub proof fn lemma_holder_unique(self, first: int, t: int, e: int)
        requires
            first <= e < first + 6,
            forall|i: int| first <= i < first + 6 ==> isset(self.slot(i), t) == (i == e),
        ensures
            self.holder(first, 6, t) == e,
    {
        reveal_with_fuel(Position::holder, 7);
        assert(isset(self.slot(first), t) == (first == e));
        assert(isset(self.slot(first + 1), t) == (first + 1 == e));
        assert(isset(self.slot(first + 2), t) == (first + 2 == e));
        assert(isset(self.slot(first + 3), t) == (first + 3 == e));
        assert(isset(self.slot(first + 4), t) == (first + 4 == e));
        assert(isset(self.slot(first + 5), t) == (first + 5 == e));
    }

    /// Capturing on a square of a board, that is putting a piece where a
    /// piece of the other colour stands and taking that one off, gives the
    /// board with the capturing piece on the square.
    pub proof fn lemma_capture_follows(self, f: spec_fn(int) -> int, piece: int, t: int)
        requires
            self.follows(f),
            0 <= piece < 12,
            0 <= t < 64,
            0 <= f(t) < 12,
            color_of(f(t)) != color_of(piece),
        ensures
            self.put(piece, t).captured(color_of(f(t)), t).follows(
                |s: int|
                    if s == t {
                        piece
                    } else {
                        f(s)
                    },
            ),
            self.put(piece, t).captured(color_of(f(t)), t) == (Position {
                boards: self.put(piece, t).captured(color_of(f(t)), t).boards,
                ..self
            }),
    {
        broadcast use group_bits;

        self.lemma_put_all(piece, t);
        let victim = f(t);
        let first = first_piece(color_of(victim));
        let set = self.put(piece, t);
        assert forall|i: int| first <= i < first + 6 implies isset(set.slot(i), t) == (i
            == victim) by {
            assert(isset(self.slot(i), t) == in_slot(i, f(t)));
        }
        set.lemma_holder_unique(first, t, victim);
        let next = set.captured(color_of(victim), t);
        let cleared = set.with_slot(victim, set.slot(victim) & !single(t));
        assert(next == cleared.with_slot(
            side_slot(victim),
            cleared.slot(side_slot(victim)) & !single(t),
        ));
        assert(next.boards.len() == 15);
        let g = |s: int|
            if s == t {
                piece
            } else {
                f(s)
            };
        assert forall|s: int| 0 <= s < 64 implies -1 <= #[trigger] g(s) < 12 by {
            assert(-1 <= f(s) < 12);
        }
        assert forall|s: int, i: int| 0 <= s < 64 && 0 <= i < 15 implies #[trigger] isset(
            next.slot(i),
            s,
        ) == in_slot(i, g(s)) by {
            assert(isset(self.slot(i), s) == in_slot(i, f(s)));
            assert(next.slot(i) == if i == victim || i == side_slot(victim) {
                set.slot(i) & !single(t)
            } else {
                set.slot(i)
            });
        }
    }

    /// The rook's part of castling can be done: the rook stands on its
    /// corner, away from where the moving piece came from, and the square
    /// it goes to is free.
    pub open spec fn rook_ready(self, source: int, target: int) -> bool {
        &&& target == 6 ==> self.occupant(7) == 3 && self.occupant(5) == -1 && source != 7
        &&& target == 2 ==> self.occupant(0) == 3 && self.occupant(3) == -1 && source != 0
        &&& target == 62 ==> self.occupant(63) == 9 && self.occupant(61) == -1 && source != 63
        &&& target == 58 ==> self.occupant(56) == 9 && self.occupant(59) == -1 && source != 56
    }

    /// The move fits the position: the piece it moves stands on its source
    /// and belongs to the side to move, as does the piece it lands as; its
    /// target holds a piece of the other side where it is a capture, and
    /// none where it is not; a capture in passing has its pawn behind the
    /// target; and castling has its rook ready.
    pub open spec fn admits(self, mov: MoveBitField) -> bool {
        let enemy = opponent(self.color);
        &&& 0 <= mov.piece() < 12
        &&& color_of(mov.piece()) == self.color
        &&& 0 <= mov.landing_slot() < 12
        &&& color_of(mov.landing_slot()) == self.color
        &&& mov.source() != mov.target()
        &&& self.occupant(mov.source()) == mov.piece()
        &&& if mov.enpassant() {
            &&& self.occupant(mov.target()) == -1
            &&& 0 <= behind(self.color, mov.target()) < 64
            &&& self.occupant(behind(self.color, mov.target())) == first_piece(enemy)
        } else if mov.capture() {
            &&& 0 <= self.occupant(mov.target()) < 12
            &&& color_of(self.occupant(mov.target())) == enemy
        } else {
            &&& self.occupant(mov.target()) == -1
            &&& mov.castling() && !mov.double() ==> self.rook_ready(mov.source(), mov.target())
        }
    }

    /// Moving a rook from one square of a board to a free one gives a
    /// board.
    pub proof fn lemma_rook_hop(self, f: spec_fn(int) -> int, rook: int, from: int, to: int) -> (g:
        spec_fn(int) -> int)
        requires
            self.follows(f),
            0 <= rook < 12,
            0 <= from < 64,
            0 <= to < 64,
            from != to,
            f(from) == rook,
            f(to) == -1,
        ensures
            self.take(rook, from).put(rook, to).follows(g),
            self.take(rook, from).put(rook, to) == (Position {
                boards: self.take(rook, from).put(rook, to).boards,
                ..self
            }),
    {
        let h = |s: int|
            if s == from {
                -1
            } else {
                f(s)
            };
        self.lemma_take_follows(f, rook, from);
        self.take(rook, from).lemma_put_follows(h, rook, to);
        |s: int|
            if s == to {
                rook
            } else {
                h(s)
            }
    }

    /// The piece that stands on `s` after a move that takes a piece: the
    /// piece that moved on its target, none on its source nor, for a capture
    /// in passing, on the square behind the target, and on every other square
    /// the piece that stood there.
    pub open spec fn after_capture(self, mov: MoveBitField, s: int) -> int {
        if s == mov.target() {
            mov.landing_slot()
        } else if s == mov.source() {
            -1
        } else if mov.enpassant() && s == behind(self.color, mov.target()) {
            -1
        } else {
            self.occupant(s)
        }
    }

    /// A move that fits a sound position leads to a sound position; and
    /// where it takes a piece, the pieces stand after it as they stood, but
    /// for the piece that moved and the piece that was taken.
    pub proof fn lemma_moved_wf(self, mov: MoveBitField)
        requires
            self.wf(),
            self.admits(mov),
        ensures
            self.moved(mov).wf(),
            mov.capture() || mov.enpassant() ==> forall|s: int|
                0 <= s < 64 ==> #[trigger] self.moved(mov).occupant(s) == self.after_capture(
                    mov,
                    s,
                ),
    {
        reveal(Position::moved);
        lemma_field_bounds(mov.0);
        let piece = mov.piece();
        let landing = mov.landing_slot();
        let source = mov.source();
        let target = mov.target();
        let enemy = opponent(self.color);
        assert(mov.piece_slot() == piece);
        let start = Position {
            enpassant: 64,
            half_move: if self.half_move < usize::MAX {
                self.half_move + 1
            } else {
                self.half_move
            },
            ..self
        };
        let f = |s: int| self.occupant(s);
        self.lemma_sound_follows();
        assert(start.follows(f)) by {
            assert forall|s: int, i: int| 0 <= s < 64 && 0 <= i < 15 implies #[trigger] isset(
                start.slot(i),
                s,
            ) == in_slot(i, f(s)) by {
                assert(isset(self.slot(i), s) == in_slot(i, f(s)));
            }
        }
        start.lemma_take_follows(f, piece, source);
        let lifted = start.take(piece, source);
        let g = |s: int|
            if s == source {
                -1
            } else {
                f(s)
            };
        let landed = lifted.put(landing, target);
        let settled = landed.settled(self.color, mov);
        let h = |s: int|
            if s == target {
                landing
            } else {
                g(s)
            };
        if mov.enpassant() {
            let back = behind(self.color, target);
            lifted.lemma_put_follows(g, landing, target);
            landed.lemma_take_follows(h, first_piece(enemy), back);
            settled.lemma_follows_sound(
                |s: int|
                    if s == back {
                        -1
                    } else {
                        h(s)
                    },
            );
        } else if mov.capture() {
            lifted.lemma_capture_follows(g, landing, target);
            settled.lemma_follows_sound(h);
        } else {
            lifted.lemma_put_follows(g, landing, target);
            if mov.double() {
                assert(settled.follows(h)) by {
                    assert forall|s: int, i: int|
                        0 <= s < 64 && 0 <= i < 15 implies #[trigger] isset(settled.slot(i), s)
                        == in_slot(i, h(s)) by {
                        assert(isset(landed.slot(i), s) == in_slot(i, h(s)));
                    }
                }
                settled.lemma_follows_sound(h);
            } else if mov.castling() {
                if target == 6 {
                    let k = landed.lemma_rook_hop(h, 3, 7, 5);
                    settled.lemma_follows_sound(k);
                } else if target == 2 {
                    let k = landed.lemma_rook_hop(h, 3, 0, 3);
                    settled.lemma_follows_sound(k);
                } else if target == 62 {
                    let k = landed.lemma_rook_hop(h, 9, 63, 61);
                    settled.lemma_follows_sound(k);
                } else if target == 58 {
                    let k = landed.lemma_rook_hop(h, 9, 56, 59);
                    settled.lemma_follows_sound(k);
                } else {
                    settled.lemma_follows_sound(h);
                }
            } else {
                settled.lemma_follows_sound(h);
            }
        }
        assert(settled.sound());
        assert(settled.half_move == start.half_move && settled.full_move == start.full_move);
        assert(0 <= settled.enpassant <= 64);
        let after = self.moved(mov);
        settled.lemma_sound_follows();
        assert(after.follows(|s: int| settled.occupant(s))) by {
            let k = |s: int| settled.occupant(s);
            assert forall|s: int, i: int| 0 <= s < 64 && 0 <= i < 15 implies #[trigger] isset(
                after.slot(i),
                s,
            ) == in_slot(i, k(s)) by {
                assert(isset(settled.slot(i), s) == in_slot(i, k(s)));
            }
        }
        after.lemma_follows_sound(|s: int| settled.occupant(s));
        if mov.capture() || mov.enpassant() {
            assert forall|s: int| 0 <= s < 64 implies #[trigger] after.occupant(s)
                == self.after_capture(mov, s) by {
                assert(after.occupant(s) == settled.occupant(s));
            }
        }
        let c = self.castles;
        let x = CASTLING_RIGHTS[source];
        let y = CASTLING_RIGHTS[target];
        assert(c < 16 ==> c & x & y < 16) by (bit_vector);
    }
}

impl Position {
    /// A move counts one half-move more, unless the counter is at its
    /// limit, and leaves the count of full moves as it is.
    pub proof fn lemma_moved_counters(self, mov: MoveBitField)
        ensures
            self.moved(mov).half_move == if self.half_move < usize::MAX {
                self.half_move + 1
            } else {
                self.half_move
            },
            self.moved(mov).full_move == self.full_move,
    {
        reveal(Position::moved);
    }
}

} // verus!
