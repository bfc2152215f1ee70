//! The position, the moves on it, and the generation of moves.

use vstd::prelude::*;
use crate::bits::{
    drop_lowest, group_bits, isset, lemma_lowest, lemma_nonzero, lowest, single, test_bit,
};
use crate::board_components::{opponent, BitBoard, Color, Square};
use crate::constants::squares::{
    A1, A8, C1, C8, D1, D8, E1, E8, F1, F8, G1, G8, H1, H8, NO_SQUARE,
};
use crate::pieces::bishop::bishop_attacks;
use crate::constants::board_constants::{RANK1, RANK2, RANK7, RANK8};
use crate::constants::eveluation_constants::{
    mmv_lva, mmv_lva_score, FIRST_KILLER_SCORE, SECOND_KILLER_SCORE,
};
use crate::debug::{name_of_square, square_name};
use crate::text::{extend, push_str, string_of};
use crate::uci::UciInformation;
use crate::pieces::king::{king_mask, king_step, lemma_king_mask, lemma_king_step_mutual};
use crate::pieces::knight::{
    knight_mask, knight_step, lemma_knight_mask, lemma_knight_step_mutual,
};
use crate::pieces::pawn::{lemma_pawn_mask, lemma_pawn_step_mirror, pawn_mask, pawn_step};
use crate::pieces::queen::{generate_queen_attacks, queen_attacks};
use crate::pieces::rook::rook_attacks;
use crate::pieces::sight::lemma_sight_mutual;
use crate::pieces::tables::{
    generate_bishop_attacks, generate_king_attacks, generate_knight_attacks,
    generate_rook_attakcs, genereate_pawn_attacks, AttackTables,
};
use crate::pieces::move_bits::{
    capture_bit, castling_bit, double_bit, enpassant_bit, identity_bits, lemma_field_bounds,
    lemma_identity, lemma_new_bits, lemma_with_flag, lemma_with_promoted, lemma_with_score,
    new_bits, piece_bits, promoted_bits, score_bits, source_bits, target_bits, with_flag,
    with_promoted, with_score, CAPTURE_FLAG, CASTLING_FLAG, DOUBLE_FLAG, ENPASSANT_FLAG,
};

verus! {

/// What each square allows to remain of the castling rights once a piece
/// has left it or arrived on it.
pub const CASTLING_RIGHTS: [u8; 64] = [
    13, 15, 15, 15, 12, 15, 15, 14,
    15, 15, 15, 15, 15, 15, 15, 15,
    15, 15, 15, 15, 15, 15, 15, 15,
    15, 15, 15, 15, 15, 15, 15, 15,
    15, 15, 15, 15, 15, 15, 15, 15,
    15, 15, 15, 15, 15, 15, 15, 15,
    15, 15, 15, 15, 15, 15, 15, 15,
    7, 15, 15, 15, 3, 15, 15, 11,
];

/// The four castling rights.
#[derive(Clone, Copy, Debug, PartialEq, Eq, Structural)]
pub enum CastleSlots {
    WhiteKingSide,
    WhiteQueenSide,
    BlackKingSide,
    BlackQueenSide,
}

impl CastleSlots {
    /// The bit of the right in the rights mask.
    pub open spec fn bit(self) -> u8 {
        match self {
            CastleSlots::WhiteKingSide => 1,
            CastleSlots::WhiteQueenSide => 2,
            CastleSlots::BlackKingSide => 4,
            CastleSlots::BlackQueenSide => 8,
        }
    }

    /// The bit of the right in the rights mask.
    pub fn mask(self) -> (r: u8)
        ensures
            r == self.bit(),
    {
        match self {
            CastleSlots::WhiteKingSide => 1,
            CastleSlots::WhiteQueenSide => 2,
            CastleSlots::BlackKingSide => 4,
            CastleSlots::BlackQueenSide => 8,
        }
    }
}

/// The castling rights of a position, one bit per right.
#[derive(Clone, Copy, Debug, PartialEq, Eq, Structural)]
pub struct Castles(pub u8);

impl Castles {
    /// The right `castle` is among these rights.
    pub open spec fn allows(self, castle: CastleSlots) -> bool {
        self.0 & castle.bit() != 0
    }

    /// Takes the right away; the other rights stay.
    pub fn remove_castle(&mut self, castle: CastleSlots)
        ensures
            final(self).0 == old(self).0 & !castle.bit(),
            !final(self).allows(castle),
            forall|other: CastleSlots|
                other != castle ==> final(self).allows(other) == old(self).allows(other),
    {
        let mask = castle.mask();
        proof {
            let x = self.0;
            assert(forall|m: u8|
                (m == 1 || m == 2 || m == 4 || m == 8) ==> ((x & !m) & m == 0 && ((x & !m) & 1
                    != 0 <==> x & 1 != 0 && m != 1) && ((x & !m) & 2 != 0 <==> x & 2 != 0 && m
                    != 2) && ((x & !m) & 4 != 0 <==> x & 4 != 0 && m != 4) && ((x & !m) & 8 != 0
                    <==> x & 8 != 0 && m != 8))) by (bit_vector);
        }
        self.0 = self.0 & !mask;
    }

    /// All four rights.
    pub fn new() -> (r: Self)
        ensures
            r.0 == 15,
    {
        Self(15)
    }
}

/// The fifteen bitboards of a position: one per piece of each colour, then
/// the three aggregates.
#[derive(Clone, Copy, Debug, PartialEq, Eq, Structural)]
pub enum BoardSlots {
    WhitePawn,
    WhiteKnight,
    WhiteBishop,
    WhiteRook,
    WhiteQueen,
    WhiteKing,
    BlackPawn,
    BlackKnight,
    BlackBishop,
    BlackRook,
    BlackQueen,
    BlackKing,
    BlackPieces,
    WhitePieces,
    AllPieces,
}

pub const WHITE_PAWN: usize = 0;

pub const WHITE_KNIGHT: usize = 1;

pub const WHITE_BISHOP: usize = 2;

pub const WHITE_ROOK: usize = 3;

pub const WHITE_QUEEN: usize = 4;

pub const WHITE_KING: usize = 5;

pub const BLACK_PAWN: usize = 6;

pub const BLACK_KNIGHT: usize = 7;

pub const BLACK_BISHOP: usize = 8;

pub const BLACK_ROOK: usize = 9;

pub const BLACK_QUEEN: usize = 10;

pub const BLACK_KING: usize = 11;

pub const BLACK_PIECES: usize = 12;

pub const WHITE_PIECES: usize = 13;

pub const ALL_PIECES: usize = 14;

impl BoardSlots {
    /// The place of the slot among the bitboards of a position.
    pub open spec fn idx(self) -> int {
        match self {
            BoardSlots::WhitePawn => 0,
            BoardSlots::WhiteKnight => 1,
            BoardSlots::WhiteBishop => 2,
            BoardSlots::WhiteRook => 3,
            BoardSlots::WhiteQueen => 4,
            BoardSlots::WhiteKing => 5,
            BoardSlots::BlackPawn => 6,
            BoardSlots::BlackKnight => 7,
            BoardSlots::BlackBishop => 8,
            BoardSlots::BlackRook => 9,
            BoardSlots::BlackQueen => 10,
            BoardSlots::BlackKing => 11,
            BoardSlots::BlackPieces => 12,
            BoardSlots::WhitePieces => 13,
            BoardSlots::AllPieces => 14,
        }
    }

    /// The slot at place `i`; the last slot for every place beyond it.
    pub open spec fn of(i: int) -> BoardSlots {
        if i == 0 {
            BoardSlots::WhitePawn
        } else if i == 1 {
            BoardSlots::WhiteKnight
        } else if i == 2 {
            BoardSlots::WhiteBishop
        } else if i == 3 {
            BoardSlots::WhiteRook
        } else if i == 4 {
            BoardSlots::WhiteQueen
        } else if i == 5 {
            BoardSlots::WhiteKing
        } else if i == 6 {
            BoardSlots::BlackPawn
        } else if i == 7 {
            BoardSlots::BlackKnight
        } else if i == 8 {
            BoardSlots::BlackBishop
        } else if i == 9 {
            BoardSlots::BlackRook
        } else if i == 10 {
            BoardSlots::BlackQueen
        } else if i == 11 {
            BoardSlots::BlackKing
        } else if i == 12 {
            BoardSlots::BlackPieces
        } else if i == 13 {
            BoardSlots::WhitePieces
        } else {
            BoardSlots::AllPieces
        }
    }

    /// The place of the slot among the bitboards of a position.
    pub fn index(self) -> (r: usize)
        ensures
            r == self.idx(),
            r < 15,
            BoardSlots::of(r as int) == self,
    {
        match self {
            BoardSlots::WhitePawn => 0,
            BoardSlots::WhiteKnight => 1,
            BoardSlots::WhiteBishop => 2,
            BoardSlots::WhiteRook => 3,
            BoardSlots::WhiteQueen => 4,
            BoardSlots::WhiteKing => 5,
            BoardSlots::BlackPawn => 6,
            BoardSlots::BlackKnight => 7,
            BoardSlots::BlackBishop => 8,
            BoardSlots::BlackRook => 9,
            BoardSlots::BlackQueen => 10,
            BoardSlots::BlackKing => 11,
            BoardSlots::BlackPieces => 12,
            BoardSlots::WhitePieces => 13,
            BoardSlots::AllPieces => 14,
        }
    }

    /// The slot at place `i`; the last slot for every place beyond it.
    pub fn from_index(i: usize) -> (r: BoardSlots)
        ensures
            r == BoardSlots::of(i as int),
            i < 15 ==> r.idx() == i,
    {
        if i == 0 {
            BoardSlots::WhitePawn
        } else if i == 1 {
            BoardSlots::WhiteKnight
        } else if i == 2 {
            BoardSlots::WhiteBishop
        } else if i == 3 {
            BoardSlots::WhiteRook
        } else if i == 4 {
            BoardSlots::WhiteQueen
        } else if i == 5 {
            BoardSlots::WhiteKing
        } else if i == 6 {
            BoardSlots::BlackPawn
        } else if i == 7 {
            BoardSlots::BlackKnight
        } else if i == 8 {
            BoardSlots::BlackBishop
        } else if i == 9 {
            BoardSlots::BlackRook
        } else if i == 10 {
            BoardSlots::BlackQueen
        } else if i == 11 {
            BoardSlots::BlackKing
        } else if i == 12 {
            BoardSlots::BlackPieces
        } else if i == 13 {
            BoardSlots::WhitePieces
        } else {
            BoardSlots::AllPieces
        }
    }

    /// The slots from `start` to `end`, both included, in their order.
    pub fn iterate_board_slots(start: BoardSlots, end: BoardSlots) -> (r: Vec<BoardSlots>)
        ensures
            r@.len() == if start.idx() <= end.idx() {
                end.idx() - start.idx() + 1
            } else {
                0
            },
            forall|i: int| 0 <= i < r@.len() ==> (#[trigger] r@[i]).idx() == start.idx() + i,
    {
        let first = start.index();
        let last = end.index();
        let mut out: Vec<BoardSlots> = Vec::new();
        let mut i: usize = first;
        while i <= last
            invariant
                first <= i <= last + 1 || out@.len() == 0,
                first > last ==> i == first,
                last < 15,
                out@.len() == i - first,
                forall|k: int| 0 <= k < out@.len() ==> (#[trigger] out@[k]).idx() == first + k,
            decreases last + 1 - i,
        {
            out.push(BoardSlots::from_index(i));
            i = i + 1;
        }
        out
    }

    /// The six pieces of one colour, from pawn to king.
    pub fn iterate_color_pieces(color: Color) -> (r: Vec<BoardSlots>)
        ensures
            r@.len() == 6,
            forall|i: int| 0 <= i < 6 ==> (#[trigger] r@[i]).idx() == first_piece(color) + i,
    {
        match color {
            Color::White => Self::iterate_board_slots(
                BoardSlots::WhitePawn,
                BoardSlots::WhiteKing,
            ),
            Color::Black => Self::iterate_board_slots(
                BoardSlots::BlackPawn,
                BoardSlots::BlackKing,
            ),
        }
    }

    /// The twelve pieces, white before black.
    pub fn iterate_pieces() -> (r: Vec<BoardSlots>)
        ensures
            r@.len() == 12,
            forall|i: int| 0 <= i < 12 ==> (#[trigger] r@[i]).idx() == i,
    {
        BoardSlots::iterate_board_slots(BoardSlots::WhitePawn, BoardSlots::BlackKing)
    }

    /// All fifteen slots.
    pub fn iterate_all_slots() -> (r: Vec<BoardSlots>)
        ensures
            r@.len() == 15,
            forall|i: int| 0 <= i < 15 ==> (#[trigger] r@[i]).idx() == i,
    {
        BoardSlots::iterate_board_slots(BoardSlots::WhitePawn, BoardSlots::AllPieces)
    }
}

/// The place of the pawn of a colour; its other pieces follow.
pub open spec fn first_piece(color: Color) -> int {
    match color {
        Color::White => 0,
        Color::Black => 6,
    }
}

/// The place of the aggregate bitboard of the colour that the piece at
/// place `piece` belongs to.
pub open spec fn side_slot(piece: int) -> int {
    13 - piece / 6
}

/// A move: source, target, moving piece, promoted piece and flags in the low
/// 24 bits, the ordering score above them.
#[derive(Clone, Copy, Debug)]
pub struct MoveBitField(pub u64);

impl PartialEq for MoveBitField {
    fn eq(&self, other: &Self) -> (r: bool) {
        self.0 & 0xffffff == other.0 & 0xffffff
    }
}

impl Eq for MoveBitField {

}

impl vstd::std_specs::cmp::PartialEqSpecImpl for MoveBitField {
    open spec fn obeys_eq_spec() -> bool {
        true
    }

    open spec fn eq_spec(&self, other: &Self) -> bool {
        self.0 & 0xffffff == other.0 & 0xffffff
    }
}

impl MoveBitField {
    /// The square the move starts from.
    pub open spec fn source(self) -> int {
        source_bits(self.0) as int
    }

    /// The square the move ends on.
    pub open spec fn target(self) -> int {
        target_bits(self.0) as int
    }

    /// The place of the moving piece among the slots.
    pub open spec fn piece(self) -> int {
        piece_bits(self.0) as int
    }

    /// The place of the promoted piece among the slots; zero for none.
    pub open spec fn promoted(self) -> int {
        promoted_bits(self.0) as int
    }

    /// The move takes a piece.
    pub open spec fn capture(self) -> bool {
        capture_bit(self.0)
    }

    /// The move is a pawn's push of two squares.
    pub open spec fn double(self) -> bool {
        double_bit(self.0)
    }

    /// The move takes a pawn in passing.
    pub open spec fn enpassant(self) -> bool {
        enpassant_bit(self.0)
    }

    /// The move castles.
    pub open spec fn castling(self) -> bool {
        castling_bit(self.0)
    }

    /// The ordering score written into the move.
    pub open spec fn score(self) -> int {
        score_bits(self.0) as int
    }

    /// The slot of the moving piece.
    pub open spec fn piece_slot(self) -> int {
        BoardSlots::of(self.piece()).idx()
    }

    /// The slot of the piece that stands on the target after the move: the
    /// promoted piece where there is one, else the moving piece.
    pub open spec fn landing_slot(self) -> int {
        if self.promoted() != 0 {
            BoardSlots::of(self.promoted()).idx()
        } else {
            self.piece_slot()
        }
    }

    /// Two moves are the same move: they agree in everything but, possibly,
    /// the score.
    pub open spec fn same_move(self, other: MoveBitField) -> bool {
        identity_bits(self.0) == identity_bits(other.0)
    }

    /// The move that stands for "no move".
    pub fn no_move() -> (r: MoveBitField)
        ensures
            r.0 == 0,
    {
        MoveBitField(0)
    }

    /// The move of `piece` from `source` to `target`, with no promotion, no
    /// flag and no score.
    pub fn new(piece: BoardSlots, source: Square, target: Square) -> (r: Self)
        requires
            source.on_board(),
            target.on_board(),
        ensures
            r.0 == new_bits(source.0 as u64, target.0 as u64, piece.idx() as u64),
            r.source() == source@,
            r.target() == target@,
            r.piece() == piece.idx(),
            r.promoted() == 0,
            !r.capture() && !r.double() && !r.enpassant() && !r.castling(),
            r.score() == 0,
    {
        let bits = (source.0 as u64) | ((target.0 as u64) << 6) | ((piece.index() as u64) << 12);
        proof {
            lemma_new_bits(source.0 as u64, target.0 as u64, piece.idx() as u64);
        }
        Self(bits)
    }

    /// The move with `piece` as the piece it promotes to.
    pub fn set_promoted(self, piece: BoardSlots) -> (r: Self)
        ensures
            r.0 == with_promoted(self.0, piece.idx() as u64),
            r.promoted() == piece.idx(),
            r.source() == self.source() && r.target() == self.target() && r.piece()
                == self.piece(),
            r.capture() == self.capture() && r.double() == self.double() && r.enpassant()
                == self.enpassant() && r.castling() == self.castling(),
            r.score() == self.score(),
    {
        let bits = (self.0 & !0xf0000u64) | ((piece.index() as u64) << 16);
        proof {
            lemma_with_promoted(self.0, piece.idx() as u64);
        }
        Self(bits)
    }

    /// The move marked as a capture.
    pub fn set_capture(self) -> (r: Self)
        ensures
            r.0 == with_flag(self.0, CAPTURE_FLAG),
            r.capture(),
            r.source() == self.source() && r.target() == self.target() && r.piece()
                == self.piece() && r.promoted() == self.promoted(),
            r.double() == self.double() && r.enpassant() == self.enpassant() && r.castling()
                == self.castling(),
            r.score() == self.score(),
    {
        proof {
            lemma_with_flag(self.0, CAPTURE_FLAG);
        }
        Self(self.0 | CAPTURE_FLAG)
    }

    /// The move marked as a pawn's push of two squares.
    pub fn set_double(self) -> (r: Self)
        ensures
            r.0 == with_flag(self.0, DOUBLE_FLAG),
            r.double(),
            r.source() == self.source() && r.target() == self.target() && r.piece()
                == self.piece() && r.promoted() == self.promoted(),
            r.capture() == self.capture() && r.enpassant() == self.enpassant() && r.castling()
                == self.castling(),
            r.score() == self.score(),
    {
        proof {
            lemma_with_flag(self.0, DOUBLE_FLAG);
        }
        Self(self.0 | DOUBLE_FLAG)
    }

    /// The move marked as a capture in passing.
    pub fn set_enpassant(self) -> (r: Self)
        ensures
            r.0 == with_flag(self.0, ENPASSANT_FLAG),
            r.enpassant(),
            r.source() == self.source() && r.target() == self.target() && r.piece()
                == self.piece() && r.promoted() == self.promoted(),
            r.capture() == self.capture() && r.double() == self.double() && r.castling()
                == self.castling(),
            r.score() == self.score(),
    {
        proof {
            lemma_with_flag(self.0, ENPASSANT_FLAG);
        }
        Self(self.0 | ENPASSANT_FLAG)
    }

    /// The move marked as castling.
    pub fn set_castling(self) -> (r: Self)
        ensures
            r.0 == with_flag(self.0, CASTLING_FLAG),
            r.castling(),
            r.source() == self.source() && r.target() == self.target() && r.piece()
                == self.piece() && r.promoted() == self.promoted(),
            r.capture() == self.capture() && r.double() == self.double() && r.enpassant()
                == self.enpassant(),
            r.score() == self.score(),
    {
        proof {
            lemma_with_flag(self.0, CASTLING_FLAG);
        }
        Self(self.0 | CASTLING_FLAG)
    }

    /// The ordering score written into the move.
    pub fn get_score(&self) -> (r: u64)
        ensures
            r == self.score(),
            r <= 0xffff,
    {
        proof {
            lemma_field_bounds(self.0);
        }
        (self.0 >> 24) & 0xffff
    }

    /// The square the move starts from.
    pub fn get_source(&self) -> (r: Square)
        ensures
            r@ == self.source(),
            r.on_board(),
    {
        proof {
            lemma_field_bounds(self.0);
        }
        Square((self.0 & 0x3f) as u8)
    }

    /// The square the move ends on.
    pub fn get_target(&self) -> (r: Square)
        ensures
            r@ == self.target(),
            r.on_board(),
    {
        proof {
            lemma_field_bounds(self.0);
        }
        Square(((self.0 & 0xfc0) >> 6) as u8)
    }

    /// The piece that moves.
    pub fn get_piece(&self) -> (r: BoardSlots)
        ensures
            r == BoardSlots::of(self.piece()),
    {
        proof {
            lemma_field_bounds(self.0);
        }
        BoardSlots::from_index(((self.0 & 0xf000) >> 12) as usize)
    }

    /// The piece the move promotes to; the white pawn for none.
    pub fn get_promoted(&self) -> (r: BoardSlots)
        ensures
            r == BoardSlots::of(self.promoted()),
    {
        proof {
            lemma_field_bounds(self.0);
        }
        BoardSlots::from_index(((self.0 & 0xf0000) >> 16) as usize)
    }

    /// A promoted piece other than the white pawn says that the move
    /// promotes.
    pub fn is_move_promoted(mov: BoardSlots) -> (r: bool)
        ensures
            r == (mov != BoardSlots::WhitePawn),
    {
        mov != BoardSlots::WhitePawn
    }

    /// Whether the move takes a piece.
    pub fn is_move_capture(&self) -> (r: bool)
        ensures
            r == self.capture(),
    {
        (self.0 & 0x100000) != 0
    }

    /// Whether the move is a pawn's push of two squares.
    pub fn is_move_double(&self) -> (r: bool)
        ensures
            r == self.double(),
    {
        (self.0 & 0x200000) != 0
    }

    /// Whether the move takes a pawn in passing.
    pub fn is_move_enpassant(&self) -> (r: bool)
        ensures
            r == self.enpassant(),
    {
        (self.0 & 0x400000) != 0
    }

    /// Whether the move castles.
    pub fn is_move_castling(&self) -> (r: bool)
        ensures
            r == self.castling(),
    {
        (self.0 & 0x800000) != 0
    }
}

/// The mathematical position that a `BoardStatus` stands for: the fifteen
/// masks, the side to move, the castling rights, the en-passant square (64
/// for none) and the two counters.
pub ghost struct Position {
    pub boards: Seq<u64>,
    pub color: Color,
    pub castles: u8,
    pub enpassant: int,
    pub half_move: nat,
    pub full_move: nat,
}

/// The colour that the piece at place `piece` belongs to.
pub open spec fn color_of(piece: int) -> Color {
    if piece < 6 {
        Color::White
    } else {
        Color::Black
    }
}

/// The square behind `target` as seen by the side that moves: where a pawn
/// taken in passing stands, and where the en-passant square lies after a
/// double push.
pub open spec fn behind(color: Color, target: int) -> int {
    match color {
        Color::White => target - 8,
        Color::Black => target + 8,
    }
}

/// What is left of the castling rights `castles` after a move from `source`
/// to `target`.
pub open spec fn rights_after(castles: u8, source: int, target: int) -> u8 {
    castles & CASTLING_RIGHTS[source] & CASTLING_RIGHTS[target]
}

impl Position {
    /// The empty board with White to move, all castling rights, no
    /// en-passant square and both counters at zero.
    pub open spec fn empty() -> Position {
        Position {
            boards: Seq::new(15, |i: int| 0u64),
            color: Color::White,
            castles: 15,
            enpassant: 64,
            half_move: 0,
            full_move: 0,
        }
    }

    /// The mask at place `i`.
    pub open spec fn slot(self, i: int) -> u64 {
        self.boards[i]
    }

    /// The position with `v` as the mask at place `i`.
    pub open spec fn with_slot(self, i: int, v: u64) -> Position {
        Position { boards: self.boards.update(i, v), ..self }
    }

    /// The position with the piece at place `piece` put on `s`: on its own
    /// mask, on that of its colour, and on that of all pieces.
    pub open spec fn put(self, piece: int, s: int) -> Position {
        let a = self.with_slot(piece, self.slot(piece) | single(s));
        let b = a.with_slot(side_slot(piece), a.slot(side_slot(piece)) | single(s));
        b.with_slot(14, b.slot(14) | single(s))
    }

    /// The position with the piece at place `piece` taken off `s`: off its
    /// own mask, off that of its colour, and off that of all pieces.
    pub open spec fn take(self, piece: int, s: int) -> Position {
        let a = self.with_slot(piece, self.slot(piece) & !single(s));
        let b = a.with_slot(side_slot(piece), a.slot(side_slot(piece)) & !single(s));
        b.with_slot(14, b.slot(14) & !single(s))
    }

    /// The first of the `count` places from `first` on whose mask holds `s`;
    /// -1 where none does.
    pub open spec fn holder(self, first: int, count: nat, s: int) -> int
        decreases count,
    {
        if count == 0 {
            -1
        } else if isset(self.slot(first), s) {
            first
        } else {
            self.holder(first + 1, (count - 1) as nat, s)
        }
    }

    /// The position with the piece of colour `victim` that stands on `s`
    /// taken: off its own mask and off that of its colour. The mask of all
    /// pieces keeps the square, for the capturing piece stands there.
    pub open spec fn captured(self, victim: Color, s: int) -> Position {
        let piece = self.holder(first_piece(victim), 6, s);
        if piece < 0 {
            self
        } else {
            let a = self.with_slot(piece, self.slot(piece) & !single(s));
            a.with_slot(side_slot(piece), a.slot(side_slot(piece)) & !single(s))
        }
    }

    /// The position with the rook's part of castling done, by the square the
    /// king lands on; unchanged for any other square.
    pub open spec fn rook_castled(self, target: int) -> Position {
        if target == 6 {
            self.take(3, 7).put(3, 5)
        } else if target == 2 {
            self.take(3, 0).put(3, 3)
        } else if target == 62 {
            self.take(9, 63).put(9, 61)
        } else if target == 58 {
            self.take(9, 56).put(9, 59)
        } else {
            self
        }
    }

    /// The position after the move, whether or not it leaves the mover's
    /// king attacked.
    #[verifier::opaque]
    pub open spec fn moved(self, mov: MoveBitField) -> Position {
        let start = Position {
            enpassant: 64,
            half_move: if self.half_move < usize::MAX {
                self.half_move + 1
            } else {
                self.half_move
            },
            ..self
        };
        let lifted = start.take(mov.piece_slot(), mov.source());
        let landed = lifted.put(mov.landing_slot(), mov.target());
        let settled = landed.settled(self.color, mov);
        Position {
            castles: rights_after(self.castles, mov.source(), mov.target()),
            color: opponent(self.color),
            ..settled
        }
    }

    /// What follows the move of the piece itself, made by `mover`: the pawn
    /// taken in passing leaves the board, or the piece on the target is
    /// captured, or the square behind a double push becomes the en-passant
    /// square, or the rook does its part of castling.
    pub open spec fn settled(self, mover: Color, mov: MoveBitField) -> Position {
        if mov.enpassant() {
            self.take(first_piece(opponent(mover)), behind(mover, mov.target()))
        } else if mov.capture() {
            self.captured(opponent(mover), mov.target())
        } else if mov.double() {
            Position {
                enpassant: if 0 <= behind(mover, mov.target()) < 64 {
                    behind(mover, mov.target())
                } else {
                    64
                },
                ..self
            }
        } else if mov.castling() {
            self.rook_castled(mov.target())
        } else {
            self
        }
    }

    /// Taking a piece off a square that is not on the board changes nothing.
    pub proof fn lemma_take_off_board(self, piece: int, s: int)
        requires
            !(0 <= s < 64),
            self.boards.len() == 15,
            0 <= piece < 15,
        ensures
            self.take(piece, s) == self,
    {
        assert(forall|x: u64| x & !0u64 == x) by (bit_vector);
        assert(self.take(piece, s).boards =~= self.boards);
    }

    /// A piece of colour `by` that stands on `t` attacks `s`.
    pub open spec fn attacks_from(self, by: Color, t: int, s: int) -> bool {
        let first = first_piece(by);
        let all = self.slot(14);
        ||| isset(self.slot(first), t) && pawn_step(by, t, s)
        ||| isset(self.slot(first + 1), t) && knight_step(t, s)
        ||| isset(self.slot(first + 2) | self.slot(first + 4), t) && isset(bishop_attacks(t, all), s)
        ||| isset(self.slot(first + 3) | self.slot(first + 4), t) && isset(rook_attacks(t, all), s)
        ||| isset(self.slot(first + 5), t) && king_step(t, s)
    }

    /// Some piece of colour `by` attacks `s`.
    pub open spec fn attacked_by(self, by: Color, s: int) -> bool {
        exists|t: int| 0 <= t < 64 && #[trigger] self.attacks_from(by, t, s)
    }

    /// The king of colour `color` stands attacked. A side without a king is
    /// never in check.
    #[verifier::opaque]
    pub open spec fn in_check(self, color: Color) -> bool {
        let king = self.slot(first_piece(color) + 5);
        king != 0 && self.attacked_by(opponent(color), lowest(king))
    }

    /// The move does not leave the king of the side that makes it attacked.
    #[verifier::opaque]
    pub open spec fn leaves_king_safe(self, mov: MoveBitField) -> bool {
        !self.moved(mov).in_check(self.color)
    }
}

/// A position as the engine holds it: fifteen bitboards, the side to move,
/// the castling rights, the en-passant square and the two counters.
#[derive(Clone, Copy, Debug)]
pub struct BoardStatus {
    pub boards: [BitBoard; 15],
    pub color: Color,
    pub castles: Castles,
    pub enpassant: Square,
    pub half_move: usize,
    pub full_move: usize,
}

impl View for BoardStatus {
    type V = Position;

    open spec fn view(&self) -> Position {
        Position {
            boards: Seq::new(15, |i: int| self.boards[i].0),
            color: self.color,
            castles: self.castles.0,
            enpassant: self.enpassant.0 as int,
            half_move: self.half_move as nat,
            full_move: self.full_move as nat,
        }
    }
}

impl BoardStatus {
    /// The empty board with White to move, all castling rights, no
    /// en-passant square and both counters at zero.
    pub fn new() -> (r: Self)
        ensures
            r@ == Position::empty(),
    {
        broadcast use vstd::array::axiom_spec_array_fill_for_copy_type;

        let r = Self {
            boards: [BitBoard(0);15],
            color: Color::White,
            enpassant: Square(NO_SQUARE),
            castles: Castles::new(),
            half_move: 0,
            full_move: 0,
        };
        proof {
            assert(r@.boards =~= Position::empty().boards);
        }
        r
    }

    /// The count of half-moves.
    pub fn get_half_move(&self) -> (r: usize)
        ensures
            r == self@.half_move,
    {
        self.half_move
    }

    /// The count of full moves.
    pub fn get_full_move(&self) -> (r: usize)
        ensures
            r == self@.full_move,
    {
        self.full_move
    }

    /// The en-passant square; the square with index 64 for none.
    pub fn get_enpassant(&self) -> (r: Square)
        ensures
            r@ == self@.enpassant,
    {
        self.enpassant
    }

    /// The side to move.
    pub fn get_color(&self) -> (r: Color)
        ensures
            r == self@.color,
    {
        self.color
    }

    /// Whether the right to castle is held.
    pub fn can_castle(&self, castle: CastleSlots) -> (r: bool)
        ensures
            r == (self@.castles & castle.bit() != 0),
    {
        (self.castles.0 & castle.mask()) != 0
    }

    /// The position of the parts given.
    pub fn from(
        boards: [BitBoard; 15],
        color: Color,
        enpassant: Square,
        castles: Castles,
        half_move: usize,
        full_move: usize,
    ) -> (r: Self)
        ensures
            r == (BoardStatus { boards, color, enpassant, castles, half_move, full_move }),
    {
        Self { boards, color, enpassant, castles, half_move, full_move }
    }

    /// Takes a right to castle away.
    pub fn remove_castle(&mut self, castle: CastleSlots)
        ensures
            final(self)@ == (Position {
                castles: old(self)@.castles & !castle.bit(),
                ..old(self)@
            }),
    {
        self.castles.remove_castle(castle);
        proof {
            assert(self@.boards =~= old(self)@.boards);
        }
    }

    /// Gives the move to the other side.
    pub fn change_color(&mut self)
        ensures
            final(self)@ == (Position { color: opponent(old(self)@.color), ..old(self)@ }),
    {
        self.color = self.color.other();
        proof {
            assert(self@.boards =~= old(self)@.boards);
        }
    }

    /// The board at a slot.
    pub fn board(&self, slot: BoardSlots) -> (r: BitBoard)
        ensures
            r.0 == self@.slot(slot.idx()),
    {
        self.boards[slot.index()]
    }

    /// The mask at place `i`.
    pub fn mask(&self, i: usize) -> (r: u64)
        requires
            i < 15,
        ensures
            r == self@.slot(i as int),
    {
        self.boards[i].0
    }

    /// Replaces the mask at place `i`.
    pub fn write_slot(&mut self, i: usize, value: u64)
        requires
            i < 15,
        ensures
            final(self)@ == old(self)@.with_slot(i as int, value),
    {
        self.boards[i] = BitBoard(value);
        proof {
            assert(self@.boards =~= old(self)@.boards.update(i as int, value));
        }
    }

    /// The bitboard of the colour of `piece`.
    pub fn get_pieces_board(&self, piece: BoardSlots) -> (r: BitBoard)
        ensures
            r.0 == self@.slot(side_slot(piece.idx())),
    {
        let i: usize = piece.index() / 6;
        self.boards[13 - i]
    }

    /// Puts a piece on a square: on its own board, on that of its colour and
    /// on that of all pieces.
    pub fn set_piece_bit(&mut self, piece: BoardSlots, square: Square)
        requires
            square.on_board(),
        ensures
            final(self)@ == old(self)@.put(piece.idx(), square@),
    {
        let bit: u64 = 1u64 << (square.0 as u64);
        let p: usize = piece.index();
        let side: usize = 13 - p / 6;
        let a = self.mask(p);
        self.write_slot(p, a | bit);
        let b = self.mask(side);
        self.write_slot(side, b | bit);
        let c = self.mask(ALL_PIECES);
        self.write_slot(ALL_PIECES, c | bit);
    }

    /// Takes a piece off a square: off its own board, off that of its colour
    /// and off that of all pieces.
    pub fn remove_piece(&mut self, piece: BoardSlots, square: Square)
        requires
            square.on_board(),
        ensures
            final(self)@ == old(self)@.take(piece.idx(), square@),
    {
        let bit: u64 = 1u64 << (square.0 as u64);
        let p: usize = piece.index();
        let side: usize = 13 - p / 6;
        let a = self.mask(p);
        self.write_slot(p, a & !bit);
        let b = self.mask(side);
        self.write_slot(side, b & !bit);
        let c = self.mask(ALL_PIECES);
        self.write_slot(ALL_PIECES, c & !bit);
    }

    /// The side that is not to move.
    pub fn get_other_color(&self) -> (r: Color)
        ensures
            r == opponent(self@.color),
    {
        match self.color {
            Color::White => Color::Black,
            Color::Black => Color::White,
        }
    }

    /// Sets the en-passant square.
    pub fn set_enpassant(&mut self, square: Square)
        ensures
            final(self)@ == (Position { enpassant: square@, ..old(self)@ }),
    {
        self.enpassant = square;
        proof {
            assert(self@.boards =~= old(self)@.boards);
        }
    }

    /// Counts one more half-move, unless the counter is at its limit.
    pub fn count_half_move(&mut self)
        ensures
            final(self)@ == (Position {
                half_move: if old(self)@.half_move < usize::MAX {
                    old(self)@.half_move + 1
                } else {
                    old(self)@.half_move
                },
                ..old(self)@
            }),
    {
        if self.half_move < usize::MAX {
            self.half_move = self.half_move + 1;
        }
        proof {
            assert(self@.boards =~= old(self)@.boards);
        }
    }

    /// Keeps of the castling rights what a move from `source` to `target`
    /// leaves of them.
    pub fn restrict_castles(&mut self, source: Square, target: Square)
        requires
            source.on_board(),
            target.on_board(),
        ensures
            final(self)@ == (Position {
                castles: rights_after(old(self)@.castles, source@, target@),
                ..old(self)@
            }),
    {
        self.castles = Castles(
            self.castles.0 & CASTLING_RIGHTS[source.0 as usize]
                & CASTLING_RIGHTS[target.0 as usize],
        );
        proof {
            assert(self@.boards =~= old(self)@.boards);
        }
    }

    /// Takes the piece of colour `victim` that stands on `square`, if there
    /// is one, leaving the square to the piece that captured it.
    pub fn capture_at(&mut self, victim: Color, square: Square)
        requires
            square.on_board(),
        ensures
            final(self)@ == old(self)@.captured(victim, square@),
    {
        let first: usize = match victim {
            Color::White => WHITE_PAWN,
            Color::Black => BLACK_PAWN,
        };
        let bit: u64 = 1u64 << (square.0 as u64);
        let mut i: usize = 0;
        while i < 6
            invariant
                i <= 6,
                first == first_piece(victim),
                square.on_board(),
                bit == single(square@),
                *self == *old(self),
                old(self)@.holder(first as int, 6, square@) == old(self)@.holder(
                    first + i,
                    (6 - i) as nat,
                    square@,
                ),
            decreases 6 - i,
        {
            let piece: usize = first + i;
            let own = self.mask(piece);
            if (own >> (square.0 as u64)) & 1 == 1 {
                let side: usize = 13 - piece / 6;
                self.write_slot(piece, own & !bit);
                let all_of_side = self.mask(side);
                self.write_slot(side, all_of_side & !bit);
                return ;
            }
            i = i + 1;
        }
    }

    /// Moves the rook that castles with the king landing on `target`.
    pub fn castle_rook(&mut self, target: Square)
        ensures
            final(self)@ == old(self)@.rook_castled(target@),
    {
        if target.0 == G1 {
            self.remove_piece(BoardSlots::WhiteRook, Square(H1));
            self.set_piece_bit(BoardSlots::WhiteRook, Square(F1));
        } else if target.0 == C1 {
            self.remove_piece(BoardSlots::WhiteRook, Square(A1));
            self.set_piece_bit(BoardSlots::WhiteRook, Square(D1));
        } else if target.0 == G8 {
            self.remove_piece(BoardSlots::BlackRook, Square(H8));
            self.set_piece_bit(BoardSlots::BlackRook, Square(F8));
        } else if target.0 == C8 {
            self.remove_piece(BoardSlots::BlackRook, Square(A8));
            self.set_piece_bit(BoardSlots::BlackRook, Square(D8));
        }
    }

    /// What follows the move of the piece itself: the capture, the
    /// en-passant square or the rook's part of castling.
    pub fn settle(&mut self, mover: Color, mov: MoveBitField)
        ensures
            final(self)@ == old(self)@.settled(mover, mov),
    {
        let target = mov.get_target();
        if mov.is_move_enpassant() {
            match mover {
                Color::White => {
                    if target.0 >= 8 {
                        self.remove_piece(BoardSlots::BlackPawn, Square(target.0 - 8));
                    } else {
                        proof {
                            old(self)@.lemma_take_off_board(6, target@ - 8);
                        }
                    }
                },
                Color::Black => {
                    if target.0 < 56 {
                        self.remove_piece(BoardSlots::WhitePawn, Square(target.0 + 8));
                    } else {
                        proof {
                            old(self)@.lemma_take_off_board(0, target@ + 8);
                        }
                    }
                },
            }
        } else if mov.is_move_capture() {
            self.capture_at(mover.other(), target);
        } else if mov.is_move_double() {
            match mover {
                Color::White => {
                    if target.0 >= 8 {
                        self.set_enpassant(Square(target.0 - 8));
                    } else {
                        self.set_enpassant(Square(NO_SQUARE));
                    }
                },
                Color::Black => {
                    if target.0 < 56 {
                        self.set_enpassant(Square(target.0 + 8));
                    } else {
                        self.set_enpassant(Square(NO_SQUARE));
                    }
                },
            }
        } else if mov.is_move_castling() {
            self.castle_rook(target);
        }
    }

    /// Makes the move if it leaves the mover's king safe, and says whether
    /// it did; otherwise the position stays as it was.
    pub fn make_move(&mut self, tables: &AttackTables, mov: MoveBitField) -> (legal: bool)
        requires
            tables.wf(),
        ensures
            legal == old(self)@.leaves_king_safe(mov),
            final(self)@ == if legal {
                old(self)@.moved(mov)
            } else {
                old(self)@
            },
            !legal ==> *final(self) == *old(self),
            old(self)@.wf() && old(self)@.admits(mov) ==> final(self)@.wf(),
    {
        proof {
            reveal(Position::moved);
            reveal(Position::leaves_king_safe);
            if self@.wf() && self@.admits(mov) {
                self@.lemma_moved_wf(mov);
            }
        }
        let copy_data = *self;
        let source_square = mov.get_source();
        let target_square = mov.get_target();
        let piece = mov.get_piece();
        let promoted = mov.get_promoted();
        let mover = self.color;
        self.set_enpassant(Square(NO_SQUARE));
        self.count_half_move();
        self.remove_piece(piece, source_square);
        if MoveBitField::is_move_promoted(promoted) {
            self.set_piece_bit(promoted, target_square);
        } else {
            self.set_piece_bit(piece, target_square);
        }
        self.settle(mover, mov);
        self.restrict_castles(source_square, target_square);
        self.change_color();
        if is_in_check(self, tables, mover) {
            *self = copy_data;
            false
        } else {
            true
        }
    }
}

/// The squares that hold a piece of colour `by` attacking `square`.
pub fn attackers(board_status: &BoardStatus, tables: &AttackTables, by: Color, square: Square) -> (r:
    BitBoard)
    requires
        tables.wf(),
        square.on_board(),
    ensures
        forall|t: int|
            isset(r.0, t) == (0 <= t < 64 && board_status@.attacks_from(by, t, square@)),
{
    let first: usize = match by {
        Color::White => WHITE_PAWN,
        Color::Black => BLACK_PAWN,
    };
    let all = BitBoard(board_status.mask(ALL_PIECES));
    let pawn_attack = genereate_pawn_attacks(tables, square, by.other()).0;
    let knight_attack = generate_knight_attacks(tables, square).0;
    let king_attack = generate_king_attacks(tables, square).0;
    let bishop_attack = generate_bishop_attacks(tables, square, all).0;
    let rook_attack = generate_rook_attakcs(tables, square, all).0;
    let pawns = board_status.mask(first);
    let knights = board_status.mask(first + 1);
    let bishops = board_status.mask(first + 2);
    let rooks = board_status.mask(first + 3);
    let queens = board_status.mask(first + 4);
    let kings = board_status.mask(first + 5);
    let result = (pawn_attack & pawns) | (knight_attack & knights) | (bishop_attack & (bishops
        | queens)) | (rook_attack & (rooks | queens)) | (king_attack & kings);
    proof {
        broadcast use group_bits;

        let s = square@;
        lemma_pawn_mask(opponent(by), s);
        lemma_knight_mask(s);
        lemma_king_mask(s);
        assert forall|t: int|
            isset(result, t) == (0 <= t < 64 && board_status@.attacks_from(by, t, s)) by {
            lemma_pawn_step_mirror(opponent(by), s, t);
            lemma_knight_step_mutual(s, t);
            lemma_king_step_mutual(s, t);
            if 0 <= t < 64 {
                lemma_sight_mutual(s, t, all.0);
            }
        }
    }
    BitBoard(result)
}

/// Some piece of colour `by` attacks `square`.
pub fn is_square_attacked(
    board_status: &BoardStatus,
    tables: &AttackTables,
    by: Color,
    square: Square,
) -> (r: bool)
    requires
        tables.wf(),
        square.on_board(),
    ensures
        r == board_status@.attacked_by(by, square@),
{
    let found = attackers(board_status, tables, by, square);
    proof {
        lemma_nonzero(found.0);
        if found.0 != 0 {
            let t = choose|t: int| 0 <= t < 64 && isset(found.0, t);
            assert(board_status@.attacks_from(by, t, square@));
        }
        if board_status@.attacked_by(by, square@) {
            let t = choose|t: int|
                0 <= t < 64 && #[trigger] board_status@.attacks_from(by, t, square@);
            assert(isset(found.0, t));
        }
    }
    found.0 != 0
}

/// A white piece attacks `square`: the square is unsafe for Black.
pub fn is_square_attacked_black(board_status: &BoardStatus, tables: &AttackTables, square: Square) -> (r:
    bool)
    requires
        tables.wf(),
        square.on_board(),
    ensures
        r == board_status@.attacked_by(Color::White, square@),
{
    is_square_attacked(board_status, tables, Color::White, square)
}

/// A black piece attacks `square`: the square is unsafe for White.
pub fn is_square_attacked_white(board_status: &BoardStatus, tables: &AttackTables, square: Square) -> (r:
    bool)
    requires
        tables.wf(),
        square.on_board(),
    ensures
        r == board_status@.attacked_by(Color::Black, square@),
{
    is_square_attacked(board_status, tables, Color::Black, square)
}

/// The king of colour `color` stands attacked.
pub fn is_in_check(board_status: &BoardStatus, tables: &AttackTables, color: Color) -> (r: bool)
    requires
        tables.wf(),
    ensures
        r == board_status@.in_check(color),
{
    proof {
        reveal(Position::in_check);
    }
    let king = match color {
        Color::White => BitBoard(board_status.mask(WHITE_KING)),
        Color::Black => BitBoard(board_status.mask(BLACK_KING)),
    };
    if king.0 == 0 {
        false
    } else {
        let square = Square(king.trailing_zeros() as u8);
        is_square_attacked(board_status, tables, color.other(), square)
    }
}

/// The move of the piece at place `piece` from `s` to `t`, marked as a
/// capture or not.
pub open spec fn plain_move(piece: int, s: int, t: int, capture: bool) -> MoveBitField {
    let base = new_bits(s as u64, t as u64, piece as u64);
    MoveBitField(
        if capture {
            with_flag(base, CAPTURE_FLAG)
        } else {
            base
        },
    )
}

/// The move of the pawn at place `pawn` from `s` to `t` that promotes to the
/// piece at place `promoted`.
pub open spec fn promotion(pawn: int, s: int, t: int, promoted: int, capture: bool) -> MoveBitField {
    let base = with_promoted(new_bits(s as u64, t as u64, pawn as u64), promoted as u64);
    MoveBitField(
        if capture {
            with_flag(base, CAPTURE_FLAG)
        } else {
            base
        },
    )
}

/// The four promotions of a pawn that reaches `t` from `s`: to queen, rook,
/// bishop and knight, in this order.
pub open spec fn promotions(pawn: int, s: int, t: int, capture: bool) -> Seq<MoveBitField> {
    seq![
        promotion(pawn, s, t, pawn + 4, capture),
        promotion(pawn, s, t, pawn + 3, capture),
        promotion(pawn, s, t, pawn + 2, capture),
        promotion(pawn, s, t, pawn + 1, capture),
    ]
}

/// The moves of the piece at place `piece` from `s` to each square of
/// `targets`, lowest square first; a capture where `enemy` holds the target.
pub open spec fn target_moves(piece: int, s: int, targets: u64, enemy: u64) -> Seq<MoveBitField>
    decreases targets,
    via target_moves_decreases
{
    if targets == 0 {
        Seq::empty()
    } else {
        seq![plain_move(piece, s, lowest(targets), isset(enemy, lowest(targets)))] + target_moves(
            piece,
            s,
            drop_lowest(targets),
            enemy,
        )
    }
}

/// A mask without its lowest square is a smaller number.
#[via_fn]
proof fn target_moves_decreases(piece: int, s: int, targets: u64, enemy: u64) {
    if targets != 0 {
        lemma_lowest(targets);
    }
}

/// The squares that a piece of kind `kind` (1 knight, 2 bishop, 3 rook, 4
/// queen, 5 king) on `s` attacks when the squares of `all` are occupied.
pub open spec fn reach(kind: int, s: int, all: u64) -> u64 {
    if kind == 1 {
        knight_mask(s)
    } else if kind == 2 {
        bishop_attacks(s, all)
    } else if kind == 3 {
        rook_attacks(s, all)
    } else if kind == 4 {
        queen_attacks(s, all)
    } else {
        king_mask(s)
    }
}

/// The rank a pawn of the colour starts on, as a mask.
pub open spec fn start_rank(color: Color) -> u64 {
    match color {
        Color::White => RANK2,
        Color::Black => RANK7,
    }
}

/// The rank a pawn of the colour promotes on, as a mask.
pub open spec fn finish_rank(color: Color) -> u64 {
    match color {
        Color::White => RANK8,
        Color::Black => RANK1,
    }
}

/// The step of a pawn of the colour, as a difference of square indices.
pub open spec fn pawn_push(color: Color) -> int {
    match color {
        Color::White => 8,
        Color::Black => -8,
    }
}

impl Position {
    /// The masks are fifteen, the en-passant square is a square or 64, and
    /// the rights are four bits.
    pub open spec fn shaped(self) -> bool {
        &&& self.boards.len() == 15
        &&& 0 <= self.enpassant <= 64
        &&& self.castles < 16
    }

    /// The moves of the piece at place `piece`, other than a pawn, from each
    /// square of `sources`, lowest square first: to every square it attacks
    /// that holds no piece of its colour.
    pub open spec fn piece_moves(self, piece: int, sources: u64) -> Seq<MoveBitField>
        decreases sources,
        via Self::piece_moves_decreases
    {
        if sources == 0 {
            Seq::empty()
        } else {
            self.moves_from(piece, lowest(sources)) + self.piece_moves(
                piece,
                drop_lowest(sources),
            )
        }
    }

    /// A mask without its lowest square is a smaller number.
    #[via_fn]
    proof fn piece_moves_decreases(self, piece: int, sources: u64) {
        if sources != 0 {
            lemma_lowest(sources);
        }
    }

    /// The moves of the piece at place `piece`, other than a pawn, that
    /// stands on `s`.
    pub open spec fn moves_from(self, piece: int, s: int) -> Seq<MoveBitField> {
        target_moves(
            piece,
            s,
            reach(piece % 6, s, self.slot(14)) & !self.slot(side_slot(piece)),
            self.slot(25 - side_slot(piece)),
        )
    }

    /// The pushes of the pawn of colour `color` on `s`: one square ahead if
    /// it is free, as four promotions on the last rank; then two squares
    /// ahead from the starting rank if both are free.
    pub open spec fn pawn_pushes(self, color: Color, s: int) -> Seq<MoveBitField> {
        let pawn = first_piece(color);
        let t = s + pawn_push(color);
        let u = t + pawn_push(color);
        if !(0 <= t < 64) || isset(self.slot(14), t) {
            Seq::empty()
        } else {
            (if isset(finish_rank(color), t) {
                promotions(pawn, s, t, false)
            } else {
                seq![plain_move(pawn, s, t, false)]
            }) + (if isset(start_rank(color), s) && 0 <= u < 64 && !isset(self.slot(14), u) {
                seq![MoveBitField(with_flag(new_bits(s as u64, u as u64, pawn as u64), DOUBLE_FLAG))]
            } else {
                Seq::empty()
            })
        }
    }

    /// The captures of the pawn of colour `color` on `s` onto the squares of
    /// `targets` that hold an enemy piece, lowest square first; four
    /// promotions each on the last rank.
    pub open spec fn pawn_captures(self, color: Color, s: int, targets: u64) -> Seq<MoveBitField>
        decreases targets,
        via Self::pawn_captures_decreases
    {
        let pawn = first_piece(color);
        if targets == 0 {
            Seq::empty()
        } else {
            let t = lowest(targets);
            (if !isset(self.slot(25 - side_slot(pawn)), t) {
                Seq::empty()
            } else if isset(finish_rank(color), t) {
                promotions(pawn, s, t, true)
            } else {
                seq![plain_move(pawn, s, t, true)]
            }) + self.pawn_captures(color, s, drop_lowest(targets))
        }
    }

    /// A mask without its lowest square is a smaller number.
    #[via_fn]
    proof fn pawn_captures_decreases(self, color: Color, s: int, targets: u64) {
        if targets != 0 {
            lemma_lowest(targets);
        }
    }

    /// The pushes and captures of the pawns of colour `color` on the squares
    /// of `sources`, lowest square first.
    pub open spec fn pawn_moves(self, color: Color, sources: u64) -> Seq<MoveBitField>
        decreases sources,
        via Self::pawn_moves_decreases
    {
        if sources == 0 {
            Seq::empty()
        } else {
            let s = lowest(sources);
            self.pawn_pushes(color, s) + self.pawn_captures(color, s, pawn_mask(color, s))
                + self.pawn_moves(color, drop_lowest(sources))
        }
    }

    /// A mask without its lowest square is a smaller number.
    #[via_fn]
    proof fn pawn_moves_decreases(self, color: Color, sources: u64) {
        if sources != 0 {
            lemma_lowest(sources);
        }
    }

    /// The en-passant square can be captured on: it is a square, it is
    /// free, and an enemy pawn stands behind it.
    pub open spec fn enpassant_open(self, color: Color) -> bool {
        let ep = self.enpassant;
        &&& 0 <= ep < 64
        &&& !isset(self.slot(14), ep)
        &&& isset(self.slot(first_piece(opponent(color))), behind(color, ep))
    }

    /// The en-passant captures by the pawns of colour `color` on the squares
    /// of `sources`, lowest square first.
    pub open spec fn enpassant_moves(self, color: Color, sources: u64) -> Seq<MoveBitField>
        decreases sources,
        via Self::enpassant_moves_decreases
    {
        if sources == 0 {
            Seq::empty()
        } else {
            seq![
                MoveBitField(
                    with_flag(
                        with_flag(
                            new_bits(
                                lowest(sources) as u64,
                                self.enpassant as u64,
                                first_piece(color) as u64,
                            ),
                            ENPASSANT_FLAG,
                        ),
                        CAPTURE_FLAG,
                    ),
                ),
            ] + self.enpassant_moves(color, drop_lowest(sources))
        }
    }

    /// A mask without its lowest square is a smaller number.
    #[via_fn]
    proof fn enpassant_moves_decreases(self, color: Color, sources: u64) {
        if sources != 0 {
            lemma_lowest(sources);
        }
    }

    /// All moves of the pawns of colour `color`: pushes and captures pawn by
    /// pawn, then the en-passant captures.
    pub open spec fn all_pawn_moves(self, color: Color) -> Seq<MoveBitField> {
        let pawns = self.slot(first_piece(color));
        self.pawn_moves(color, pawns) + (if self.enpassant_open(color) {
            self.enpassant_moves(color, pawn_mask(opponent(color), self.enpassant) & pawns)
        } else {
            Seq::empty()
        })
    }

    /// The side of colour `color` may castle to the king's side: it has the
    /// right, its king and rook stand on their squares, the king is not
    /// attacked where it stands nor on the square it passes, and the two
    /// squares between king and rook are free.
    pub open spec fn may_castle_king_side(self, color: Color) -> bool {
        let king = first_piece(color) + 5;
        let home = home_square(color);
        &&& self.castles & king_side_right(color) != 0
        &&& isset(self.slot(king), home)
        &&& isset(self.slot(king - 2), home + 3)
        &&& !self.attacked_by(opponent(color), home)
        &&& !self.attacked_by(opponent(color), home + 1)
        &&& !isset(self.slot(14), home + 1)
        &&& !isset(self.slot(14), home + 2)
    }

    /// The side of colour `color` may castle to the queen's side: it has the
    /// right, its king and rook stand on their squares, the king is not
    /// attacked where it stands nor on the square it passes, and the three
    /// squares between king and rook are free.
    pub open spec fn may_castle_queen_side(self, color: Color) -> bool {
        let king = first_piece(color) + 5;
        let home = home_square(color);
        &&& self.castles & queen_side_right(color) != 0
        &&& isset(self.slot(king), home)
        &&& isset(self.slot(king - 2), home - 4)
        &&& !self.attacked_by(opponent(color), home)
        &&& !self.attacked_by(opponent(color), home - 1)
        &&& !isset(self.slot(14), home - 1)
        &&& !isset(self.slot(14), home - 2)
        &&& !isset(self.slot(14), home - 3)
    }

    /// The castling moves of colour `color`: king's side before queen's
    /// side.
    pub open spec fn castling_moves(self, color: Color) -> Seq<MoveBitField> {
        let king = first_piece(color) + 5;
        let home = home_square(color);
        (if self.may_castle_king_side(color) {
            seq![
                MoveBitField(
                    with_flag(new_bits(home as u64, (home + 2) as u64, king as u64), CASTLING_FLAG),
                ),
            ]
        } else {
            Seq::empty()
        }) + (if self.may_castle_queen_side(color) {
            seq![
                MoveBitField(
                    with_flag(new_bits(home as u64, (home - 2) as u64, king as u64), CASTLING_FLAG),
                ),
            ]
        } else {
            Seq::empty()
        })
    }

    /// The moves of the side to move, before they are scored and ordered:
    /// those of the pawns, knights, bishops, rooks, queens and king, then
    /// castling.
    #[verifier::opaque]
    pub open spec fn generated(self) -> Seq<MoveBitField> {
        let first = first_piece(self.color);
        self.all_pawn_moves(self.color) + self.piece_moves(first + 1, self.slot(first + 1))
            + self.piece_moves(first + 2, self.slot(first + 2)) + self.piece_moves(
            first + 3,
            self.slot(first + 3),
        ) + self.piece_moves(first + 4, self.slot(first + 4)) + self.piece_moves(
            first + 5,
            self.slot(first + 5),
        ) + self.castling_moves(self.color)
    }
}

/// The square the king of the colour starts on.
pub open spec fn home_square(color: Color) -> int {
    match color {
        Color::White => 4,
        Color::Black => 60,
    }
}

/// The bit of the colour's right to castle to the king's side.
pub open spec fn king_side_right(color: Color) -> u8 {
    match color {
        Color::White => 1,
        Color::Black => 4,
    }
}

/// The bit of the colour's right to castle to the queen's side.
pub open spec fn queen_side_right(color: Color) -> u8 {
    match color {
        Color::White => 2,
        Color::Black => 8,
    }
}

/// The moves generated for a position, in the order in which the search
/// tries them. The list grows with the moves it is given: it is as long as
/// the position has moves, however many pieces stand on the board.
pub struct MoveList {
    pub moves: Vec<MoveBitField>,
    pub count: usize,
}

impl View for MoveList {
    type V = Seq<MoveBitField>;

    open spec fn view(&self) -> Seq<MoveBitField> {
        self.moves@
    }
}

impl MoveList {
    /// The count is the number of moves held.
    pub open spec fn wf(&self) -> bool {
        self.count == self.moves@.len()
    }

    /// The list without a move.
    pub fn empty() -> (r: Self)
        ensures
            r.wf(),
            r@ == Seq::<MoveBitField>::empty(),
    {
        MoveList { moves: Vec::new(), count: 0 }
    }

    /// Puts a move at the end of the list.
    pub fn append_move(&mut self, mov: MoveBitField)
        requires
            old(self).wf(),
        ensures
            final(self).wf(),
            final(self)@ == old(self)@.push(mov),
    {
        self.moves.push(mov);
        self.count = self.moves.len();
    }

    /// The moves of the list, in its order.
    pub fn iterate_moves(&self) -> (r: Vec<MoveBitField>)
        ensures
            r@ == self@,
    {
        self.moves.clone()
    }

    /// The move at place `index`.
    pub fn get(&self, index: usize) -> (r: MoveBitField)
        requires
            index < self@.len(),
        ensures
            r == self@[index as int],
    {
        self.moves[index]
    }

    /// Appends the four promotions of a pawn.
    fn append_promotions(
        &mut self,
        pawn: BoardSlots,
        source: Square,
        target: Square,
        capture: bool,
    )
        requires
            old(self).wf(),
            source.on_board(),
            target.on_board(),
            pawn.idx() == 0 || pawn.idx() == 6,
        ensures
            final(self).wf(),
            final(self)@ == old(self)@ + promotions(pawn.idx(), source@, target@, capture),
    {
        let base = MoveBitField::new(pawn, source, target);
        let p = pawn.index();
        let queen = base.set_promoted(BoardSlots::from_index(p + 4));
        let rook = base.set_promoted(BoardSlots::from_index(p + 3));
        let bishop = base.set_promoted(BoardSlots::from_index(p + 2));
        let knight = base.set_promoted(BoardSlots::from_index(p + 1));
        if capture {
            self.append_move(queen.set_capture());
            self.append_move(rook.set_capture());
            self.append_move(bishop.set_capture());
            self.append_move(knight.set_capture());
        } else {
            self.append_move(queen);
            self.append_move(rook);
            self.append_move(bishop);
            self.append_move(knight);
        }
        proof {
            assert(self@ =~= old(self)@ + promotions(pawn.idx(), source@, target@, capture));
        }
    }

    /// Appends the moves of one piece from `source` to the squares of
    /// `targets`.
    fn append_targets(&mut self, piece: BoardSlots, source: Square, targets: BitBoard, enemy: u64)
        requires
            old(self).wf(),
            source.on_board(),
        ensures
            final(self).wf(),
            final(self)@ == old(self)@ + target_moves(piece.idx(), source@, targets.0, enemy),
    {
        let mut rest = targets;
        while rest.0 != 0
            invariant
                self.wf(),
                source.on_board(),
                self@ + target_moves(piece.idx(), source@, rest.0, enemy) == old(self)@
                    + target_moves(piece.idx(), source@, targets.0, enemy),
            decreases rest.0,
        {
            let ghost before = rest.0;
            let ghost list = self@;
            let target = rest.pop_square();
            let mov = MoveBitField::new(piece, source, target);
            if test_bit(enemy, target.0) {
                self.append_move(mov.set_capture());
            } else {
                self.append_move(mov);
            }
            proof {
                let head = plain_move(
                    piece.idx(),
                    source@,
                    lowest(before),
                    isset(enemy, lowest(before)),
                );
                let tail = target_moves(piece.idx(), source@, drop_lowest(before), enemy);
                assert(self@ == list.push(head));
                assert(list.push(head) + tail =~= list + (seq![head] + tail));
            }
        }
        proof {
            assert(self@ + Seq::<MoveBitField>::empty() =~= self@);
        }
    }
}

/// The attack set of a piece of kind `kind` (1 knight, 2 bishop, 3 rook, 4
/// queen, otherwise king) on `square`, read from the tables.
pub fn piece_reach(tables: &AttackTables, kind: usize, square: Square, all: BitBoard) -> (r:
    BitBoard)
    requires
        tables.wf(),
        square.on_board(),
    ensures
        r.0 == reach(kind as int, square@, all.0),
{
    if kind == 1 {
        generate_knight_attacks(tables, square)
    } else if kind == 2 {
        generate_bishop_attacks(tables, square, all)
    } else if kind == 3 {
        generate_rook_attakcs(tables, square, all)
    } else if kind == 4 {
        generate_queen_attacks(tables, square, all)
    } else {
        generate_king_attacks(tables, square)
    }
}

impl MoveList {
    /// Appends the moves of the pieces at slot `piece`, which is no pawn.
    fn append_piece_moves(
        &mut self,
        board_status: &BoardStatus,
        tables: &AttackTables,
        piece: BoardSlots,
    )
        requires
            old(self).wf(),
            tables.wf(),
            piece.idx() < 12,
        ensures
            final(self).wf(),
            final(self)@ == old(self)@ + board_status@.piece_moves(
                piece.idx(),
                board_status@.slot(piece.idx()),
            ),
    {
        let p = piece.index();
        let side: usize = 13 - p / 6;
        let own = board_status.mask(side);
        let enemy = board_status.mask(25 - side);
        let all = BitBoard(board_status.mask(ALL_PIECES));
        let mut rest = BitBoard(board_status.mask(p));
        let ghost pos = board_status@;
        let ghost sources = rest.0;
        while rest.0 != 0
            invariant
                self.wf(),
                tables.wf(),
                p == piece.idx(),
                p < 12,
                side == side_slot(p as int),
                own == pos.slot(side as int),
                enemy == pos.slot(25 - side),
                all.0 == pos.slot(14),
                self@ + pos.piece_moves(p as int, rest.0) == old(self)@ + pos.piece_moves(
                    p as int,
                    sources,
                ),
            decreases rest.0,
        {
            let ghost before = rest.0;
            let ghost list = self@;
            let square = rest.pop_square();
            let attacks = piece_reach(tables, p % 6, square, all);
            self.append_targets(piece, square, BitBoard(attacks.0 & !own), enemy);
            proof {
                let here = pos.moves_from(p as int, lowest(before));
                let tail = pos.piece_moves(p as int, drop_lowest(before));
                assert(self@ == list + here);
                assert((list + here) + tail =~= list + (here + tail));
            }
        }
        proof {
            assert(self@ + Seq::<MoveBitField>::empty() =~= self@);
        }
    }

    /// Appends the moves of the bishops, rooks or queens at slot `piece`.
    pub fn generate_slider_moves(
        &mut self,
        tables: &AttackTables,
        board_status: &BoardStatus,
        piece: BoardSlots,
    )
        requires
            old(self).wf(),
            tables.wf(),
            piece.idx() < 12,
            2 <= piece.idx() % 6 <= 4,
        ensures
            final(self).wf(),
            final(self)@ == old(self)@ + board_status@.piece_moves(
                piece.idx(),
                board_status@.slot(piece.idx()),
            ),
    {
        self.append_piece_moves(board_status, tables, piece);
    }

    /// Appends the moves of the knights or the king at slot `piece`.
    pub fn generate_non_sliding_moves(
        &mut self,
        tables: &AttackTables,
        board_status: &BoardStatus,
        piece: BoardSlots,
    )
        requires
            old(self).wf(),
            tables.wf(),
            piece.idx() < 12,
            piece.idx() % 6 == 1 || piece.idx() % 6 == 5,
        ensures
            final(self).wf(),
            final(self)@ == old(self)@ + board_status@.piece_moves(
                piece.idx(),
                board_status@.slot(piece.idx()),
            ),
    {
        self.append_piece_moves(board_status, tables, piece);
    }

    /// Appends the pushes of the pawn of colour `color` on `source`.
    fn append_pawn_pushes(&mut self, board_status: &BoardStatus, color: Color, source: Square)
        requires
            old(self).wf(),
            source.on_board(),
        ensures
            final(self).wf(),
            final(self)@ == old(self)@ + board_status@.pawn_pushes(color, source@),
    {
        let all = board_status.mask(ALL_PIECES);
        let (pawn, step, start, finish): (BoardSlots, i8, u64, u64) = match color {
            Color::White => (BoardSlots::WhitePawn, 8, RANK2, RANK8),
            Color::Black => (BoardSlots::BlackPawn, -8, RANK7, RANK1),
        };
        let ghost pos = board_status@;
        let ghost list = self@;
        let t: i8 = source.0 as i8 + step;
        assert(t == source@ + pawn_push(color));
        assert(finish == finish_rank(color) && start == start_rank(color));
        assert(pawn.idx() == first_piece(color));
        if t < 0 || t > 63 || test_bit(all, t as u8) {
            proof {
                assert(pos.pawn_pushes(color, source@) =~= Seq::<MoveBitField>::empty());
                assert(list + Seq::<MoveBitField>::empty() =~= list);
            }
            return ;
        }
        let target = Square(t as u8);
        let promotes = test_bit(finish, target.0);
        if promotes {
            self.append_promotions(pawn, source, target, false);
        } else {
            self.append_move(MoveBitField::new(pawn, source, target));
        }
        let ghost first = if promotes {
            promotions(pawn.idx(), source@, target@, false)
        } else {
            seq![plain_move(pawn.idx(), source@, target@, false)]
        };
        assert(self@ =~= list + first);
        let u: i8 = t + step;
        let doubles = test_bit(start, source.0) && 0 <= u && u <= 63 && !test_bit(all, u as u8);
        if doubles {
            self.append_move(MoveBitField::new(pawn, source, Square(u as u8)).set_double());
        }
        proof {
            let second = if doubles {
                seq![
                    MoveBitField(
                        with_flag(
                            new_bits(source.0 as u64, u as u64, pawn.idx() as u64),
                            DOUBLE_FLAG,
                        ),
                    ),
                ]
            } else {
                Seq::<MoveBitField>::empty()
            };
            assert(self@ =~= (list + first) + second);
            assert(pos.pawn_pushes(color, source@) == first + second);
            assert((list + first) + second =~= list + (first + second));
        }
    }

    /// Appends the captures of the pawn of colour `color` on `source`.
    fn append_pawn_captures(
        &mut self,
        board_status: &BoardStatus,
        tables: &AttackTables,
        color: Color,
        source: Square,
    )
        requires
            old(self).wf(),
            tables.wf(),
            source.on_board(),
        ensures
            final(self).wf(),
            final(self)@ == old(self)@ + board_status@.pawn_captures(
                color,
                source@,
                pawn_mask(color, source@),
            ),
    {
        let (pawn, finish, enemy): (BoardSlots, u64, u64) = match color {
            Color::White => (BoardSlots::WhitePawn, RANK8, board_status.mask(BLACK_PIECES)),
            Color::Black => (BoardSlots::BlackPawn, RANK1, board_status.mask(WHITE_PIECES)),
        };
        let attacks = genereate_pawn_attacks(tables, source, color);
        let mut rest = attacks;
        let ghost pos = board_status@;
        while rest.0 != 0
            invariant
                self.wf(),
                source.on_board(),
                pawn.idx() == first_piece(color),
                finish == finish_rank(color),
                enemy == pos.slot(25 - side_slot(first_piece(color))),
                self@ + pos.pawn_captures(color, source@, rest.0) == old(self)@
                    + pos.pawn_captures(color, source@, attacks.0),
            decreases rest.0,
        {
            let ghost before = rest.0;
            let ghost list = self@;
            let target = rest.pop_square();
            if test_bit(enemy, target.0) {
                if test_bit(finish, target.0) {
                    self.append_promotions(pawn, source, target, true);
                } else {
                    self.append_move(MoveBitField::new(pawn, source, target).set_capture());
                }
            }
            proof {
                let t = lowest(before);
                let here = if !isset(enemy, t) {
                    Seq::<MoveBitField>::empty()
                } else if isset(finish, t) {
                    promotions(pawn.idx(), source@, t, true)
                } else {
                    seq![plain_move(pawn.idx(), source@, t, true)]
                };
                let tail = pos.pawn_captures(color, source@, drop_lowest(before));
                assert(self@ =~= list + here);
                assert((list + here) + tail =~= list + (here + tail));
            }
        }
        proof {
            assert(self@ + Seq::<MoveBitField>::empty() =~= self@);
        }
    }

    /// Appends the en-passant captures of colour `color`, if the en-passant
    /// square can be captured on.
    fn append_enpassant(
        &mut self,
        board_status: &BoardStatus,
        tables: &AttackTables,
        color: Color,
    )
        requires
            old(self).wf(),
            tables.wf(),
        ensures
            final(self).wf(),
            final(self)@ == old(self)@ + (if board_status@.enpassant_open(color) {
                board_status@.enpassant_moves(
                    color,
                    pawn_mask(opponent(color), board_status@.enpassant) & board_status@.slot(
                        first_piece(color),
                    ),
                )
            } else {
                Seq::empty()
            }),
    {
        let ep = board_status.get_enpassant();
        let all = board_status.mask(ALL_PIECES);
        let (pawn, pawns, enemy_pawns): (BoardSlots, u64, u64) = match color {
            Color::White => (
                BoardSlots::WhitePawn,
                board_status.mask(WHITE_PAWN),
                board_status.mask(BLACK_PAWN),
            ),
            Color::Black => (
                BoardSlots::BlackPawn,
                board_status.mask(BLACK_PAWN),
                board_status.mask(WHITE_PAWN),
            ),
        };
        let ghost pos = board_status@;
        proof {
            assert(self@ + Seq::<MoveBitField>::empty() =~= self@);
            assert(enemy_pawns == pos.slot(first_piece(opponent(color))));
            assert(pawns == pos.slot(first_piece(color)));
        }
        if ep.0 >= 64 {
            return ;
        }
        if test_bit(all, ep.0) {
            return ;
        }
        let victim: i8 = match color {
            Color::White => ep.0 as i8 - 8,
            Color::Black => ep.0 as i8 + 8,
        };
        assert(victim == behind(color, ep@));
        if victim < 0 || victim > 63 {
            return ;
        }
        if !test_bit(enemy_pawns, victim as u8) {
            return ;
        }
        assert(pos.enpassant_open(color));
        let sources = BitBoard(genereate_pawn_attacks(tables, ep, color.other()).0 & pawns);
        let mut rest = sources;
        while rest.0 != 0
            invariant
                self.wf(),
                ep.on_board(),
                ep@ == pos.enpassant,
                pawn.idx() == first_piece(color),
                self@ + pos.enpassant_moves(color, rest.0) == old(self)@ + pos.enpassant_moves(
                    color,
                    sources.0,
                ),
            decreases rest.0,
        {
            let ghost before = rest.0;
            let ghost list = self@;
            let square = rest.pop_square();
            let mov = MoveBitField::new(pawn, square, ep).set_enpassant().set_capture();
            self.append_move(mov);
            proof {
                let tail = pos.enpassant_moves(color, drop_lowest(before));
                assert(self@ == list.push(mov));
                assert(list.push(mov) + tail =~= list + (seq![mov] + tail));
            }
        }
        proof {
            assert(self@ + Seq::<MoveBitField>::empty() =~= self@);
        }
    }

    /// Appends all moves of the pawns of colour `color`.
    pub fn generate_pawn_moves(
        &mut self,
        tables: &AttackTables,
        board_status: &BoardStatus,
        color: Color,
    )
        requires
            old(self).wf(),
            tables.wf(),
        ensures
            final(self).wf(),
            final(self)@ == old(self)@ + board_status@.all_pawn_moves(color),
    {
        let pawns = match color {
            Color::White => board_status.mask(WHITE_PAWN),
            Color::Black => board_status.mask(BLACK_PAWN),
        };
        let mut rest = BitBoard(pawns);
        let ghost pos = board_status@;
        while rest.0 != 0
            invariant
                self.wf(),
                tables.wf(),
                pos == board_status@,
                self@ + pos.pawn_moves(color, rest.0) == old(self)@ + pos.pawn_moves(color, pawns),
            decreases rest.0,
        {
            let ghost before = rest.0;
            let ghost list = self@;
            let square = rest.pop_square();
            self.append_pawn_pushes(board_status, color, square);
            self.append_pawn_captures(board_status, tables, color, square);
            proof {
                let s = lowest(before);
                let pushes = pos.pawn_pushes(color, s);
                let captures = pos.pawn_captures(color, s, pawn_mask(color, s));
                let tail = pos.pawn_moves(color, drop_lowest(before));
                assert(self@ == (list + pushes) + captures);
                assert(((list + pushes) + captures) + tail =~= list + ((pushes + captures)
                    + tail));
            }
        }
        let ghost pushed = self@;
        self.append_enpassant(board_status, tables, color);
        proof {
            assert(pushed + Seq::<MoveBitField>::empty() =~= pushed);
            let passing = if pos.enpassant_open(color) {
                pos.enpassant_moves(
                    color,
                    pawn_mask(opponent(color), pos.enpassant) & pos.slot(first_piece(color)),
                )
            } else {
                Seq::empty()
            };
            assert((old(self)@ + pos.pawn_moves(color, pawns)) + passing =~= old(self)@ + (
            pos.pawn_moves(color, pawns) + passing));
        }
    }

    /// Appends the king's moves of colour `color` and then its castling
    /// moves.
    pub fn generate_king_moves(
        &mut self,
        tables: &AttackTables,
        board_status: &BoardStatus,
        color: Color,
    )
        requires
            old(self).wf(),
            tables.wf(),
        ensures
            final(self).wf(),
            final(self)@ == old(self)@ + board_status@.piece_moves(
                first_piece(color) + 5,
                board_status@.slot(first_piece(color) + 5),
            ) + board_status@.castling_moves(color),
    {
        let (piece, rook, home, king_side, queen_side): (
            BoardSlots,
            usize,
            u8,
            CastleSlots,
            CastleSlots,
        ) = match color {
            Color::White => (
                BoardSlots::WhiteKing,
                WHITE_ROOK,
                E1,
                CastleSlots::WhiteKingSide,
                CastleSlots::WhiteQueenSide,
            ),
            Color::Black => (
                BoardSlots::BlackKing,
                BLACK_ROOK,
                E8,
                CastleSlots::BlackKingSide,
                CastleSlots::BlackQueenSide,
            ),
        };
        self.generate_non_sliding_moves(tables, board_status, piece);
        let ghost stepped = self@;
        let ghost pos = board_status@;
        let all = board_status.mask(ALL_PIECES);
        let kings = board_status.mask(piece.index());
        let rooks = board_status.mask(rook);
        let enemy = color.other();
        let home_safe = test_bit(kings, home) && !is_square_attacked(
            board_status,
            tables,
            enemy,
            Square(home),
        );
        let king_side_open = home_safe && board_status.can_castle(king_side) && test_bit(
            rooks,
            home + 3,
        ) && !is_square_attacked(board_status, tables, enemy, Square(home + 1)) && !test_bit(
            all,
            home + 1,
        ) && !test_bit(all, home + 2);
        let queen_side_open = home_safe && board_status.can_castle(queen_side) && test_bit(
            rooks,
            home - 4,
        ) && !is_square_attacked(board_status, tables, enemy, Square(home - 1)) && !test_bit(
            all,
            home - 1,
        ) && !test_bit(all, home - 2) && !test_bit(all, home - 3);
        proof {
            assert(home == home_square(color));
            assert(king_side.bit() == king_side_right(color));
            assert(queen_side.bit() == queen_side_right(color));
            assert(kings == pos.slot(first_piece(color) + 5));
            assert(rooks == pos.slot(first_piece(color) + 3));
            assert(all == pos.slot(14));
        }
        assert(king_side_open == pos.may_castle_king_side(color));
        assert(queen_side_open == pos.may_castle_queen_side(color));
        if king_side_open {
            self.append_move(
                MoveBitField::new(piece, Square(home), Square(home + 2)).set_castling(),
            );
        }
        if queen_side_open {
            self.append_move(
                MoveBitField::new(piece, Square(home), Square(home - 2)).set_castling(),
            );
        }
        proof {
            assert(self@ =~= stepped + pos.castling_moves(color));
        }
    }
}

/// What a search remembers: the two killer moves of each ply, and the best
/// move found so far.
#[derive(Clone, Copy, Debug)]
pub struct BoardHistory {
    pub killer_moves: [[MoveBitField; 2]; 64],
    pub found_best_move: MoveBitField,
}

impl BoardHistory {
    /// The history of a search that has not begun: no killer move, no best
    /// move.
    pub open spec fn is_blank(&self) -> bool {
        &&& self.found_best_move.0 == 0
        &&& forall|h: nat| #[trigger] self.killers(h) == (MoveBitField(0), MoveBitField(0))
    }

    /// The two killer moves of the ply `half_move`, the more recent first;
    /// "no move" twice for a ply beyond the last that is remembered.
    pub open spec fn killers(&self, half_move: nat) -> (MoveBitField, MoveBitField) {
        if half_move < 64 {
            (self.killer_moves[half_move as int][0], self.killer_moves[half_move as int][1])
        } else {
            (MoveBitField(0), MoveBitField(0))
        }
    }

    /// The history of a search that has not begun.
    pub fn new() -> (r: Self)
        ensures
            r.is_blank(),
    {
        broadcast use vstd::array::axiom_spec_array_fill_for_copy_type;

        let pair = [MoveBitField(0);2];
        let killer_moves = [pair;64];
        let r = Self { killer_moves, found_best_move: MoveBitField(0) };
        proof {
            assert forall|h: nat| #[trigger]
                r.killers(h) == (MoveBitField(0), MoveBitField(0)) by {
                if h < 64 {
                    assert(killer_moves@[h as int] == pair);
                    assert(pair@[0] == MoveBitField(0));
                    assert(pair@[1] == MoveBitField(0));
                }
            }
        }
        r
    }

    /// The two killer moves of the ply `half_move`.
    pub fn killers_at(&self, half_move: usize) -> (r: (MoveBitField, MoveBitField))
        ensures
            r == self.killers(half_move as nat),
    {
        if half_move < 64 {
            let pair = self.killer_moves[half_move];
            (pair[0], pair[1])
        } else {
            (MoveBitField(0), MoveBitField(0))
        }
    }

    /// Remembers `mov` as the most recent killer move of the ply
    /// `half_move`; the one that was most recent becomes the second. A ply
    /// beyond the last that is remembered is left out.
    pub fn append_killer_move(&mut self, mov: MoveBitField, half_move: usize)
        ensures
            final(self).found_best_move == old(self).found_best_move,
            half_move < 64 ==> final(self).killers(half_move as nat) == (
                mov,
                old(self).killers(half_move as nat).0,
            ),
            forall|other: nat|
                other != half_move ==> final(self).killers(other) == old(self).killers(other),
    {
        if half_move < 64 {
            let mut pair = self.killer_moves[half_move];
            pair[1] = pair[0];
            pair[0] = mov;
            self.killer_moves[half_move] = pair;
        }
    }

    /// Remembers `mov` as the best move found.
    pub fn add_new_best_move(&mut self, mov: MoveBitField)
        ensures
            final(self).found_best_move == mov,
            final(self).killer_moves == old(self).killer_moves,
    {
        self.found_best_move = mov;
    }
}

impl BoardStatus {
    /// The first of the six pieces from place `first` on that stands on
    /// `square`.
    pub fn holder_of(&self, first: usize, square: Square) -> (r: Option<usize>)
        requires
            first + 6 <= 15,
            square.on_board(),
        ensures
            match r {
                Some(piece) => piece == self@.holder(first as int, 6, square@),
                None => self@.holder(first as int, 6, square@) == -1,
            },
    {
        let mut i: usize = 0;
        while i < 6
            invariant
                i <= 6,
                first + 6 <= 15,
                square.on_board(),
                self@.holder(first as int, 6, square@) == self@.holder(
                    first + i,
                    (6 - i) as nat,
                    square@,
                ),
            decreases 6 - i,
        {
            if test_bit(self.mask(first + i), square.0) {
                return Some(first + i);
            }
            i = i + 1;
        }
        None
    }
}

impl Position {
    /// The ordering score of a move: that of the capture where the move
    /// takes a piece of colour `enemy` that stands on its target; else that
    /// of the first or second killer move where it is one of the two; else
    /// zero.
    #[verifier::opaque]
    pub open spec fn score_of(
        self,
        enemy: Color,
        killers: (MoveBitField, MoveBitField),
        mov: MoveBitField,
    ) -> int {
        let victim = self.holder(first_piece(enemy), 6, mov.target());
        if mov.capture() && victim >= 0 {
            mmv_lva_score(mov.piece_slot(), victim)
        } else if mov.same_move(killers.0) {
            FIRST_KILLER_SCORE as int
        } else if mov.same_move(killers.1) {
            SECOND_KILLER_SCORE as int
        } else {
            0
        }
    }

    /// The move with its ordering score written into it.
    pub open spec fn scored(
        self,
        enemy: Color,
        killers: (MoveBitField, MoveBitField),
        mov: MoveBitField,
    ) -> MoveBitField {
        MoveBitField(with_score(mov.0, self.score_of(enemy, killers, mov) as u64))
    }

    /// The moves of `moves`, each with its score, ordered by falling score;
    /// moves of equal score keep the order they were generated in.
    pub open spec fn ranked(
        self,
        killers: (MoveBitField, MoveBitField),
        moves: Seq<MoveBitField>,
    ) -> Seq<MoveBitField>
        decreases moves.len(),
    {
        if moves.len() == 0 {
            Seq::empty()
        } else {
            insert_by_score(
                self.ranked(killers, moves.drop_last()),
                self.scored(opponent(self.color), killers, moves.last()),
            )
        }
    }

    /// The moves of the side to move in the order in which the search tries
    /// them.
    pub open spec fn ordered_moves(self, killers: (MoveBitField, MoveBitField)) -> Seq<
        MoveBitField,
    > {
        self.ranked(killers, self.generated())
    }
}

/// The first place from `from` on where a move scores less than `score`; the
/// length of the list where none does.
pub open spec fn insertion_point(list: Seq<MoveBitField>, score: int, from: int) -> int
    decreases list.len() - from,
{
    if from >= list.len() || list[from].score() < score {
        from
    } else {
        insertion_point(list, score, from + 1)
    }
}

/// The list with `mov` put in behind the moves that score at least as much
/// as it does.
pub open spec fn insert_by_score(list: Seq<MoveBitField>, mov: MoveBitField) -> Seq<MoveBitField> {
    list.insert(
        if 0 <= insertion_point(list, mov.score(), 0) <= list.len() {
            insertion_point(list, mov.score(), 0)
        } else {
            list.len() as int
        },
        mov,
    )
}

/// The ordering score of a move in the position of `uci_info`, with the
/// killer moves of its ply.
pub fn score_move(uci_info: &UciInformation, mov: MoveBitField, enemy_color: Color) -> (r: u64)
    ensures
        r == uci_info.board@.score_of(
            enemy_color,
            uci_info.board_history.killers(uci_info.board@.half_move),
            mov,
        ),
        r <= 0xffff,
{
    proof {
        reveal(Position::score_of);
    }
    let current_piece = mov.get_piece();
    let target_square = mov.get_target();
    let first: usize = match enemy_color {
        Color::White => WHITE_PAWN,
        Color::Black => BLACK_PAWN,
    };
    if mov.is_move_capture() {
        match uci_info.board.holder_of(first, target_square) {
            Some(enemy_piece) => {
                return mmv_lva(current_piece.index(), enemy_piece);
            },
            None => {},
        }
    }
    let killers = uci_info.board_history.killers_at(uci_info.board.get_half_move());
    if mov == killers.0 {
        return FIRST_KILLER_SCORE;
    }
    if mov == killers.1 {
        return SECOND_KILLER_SCORE;
    }
    0
}

impl MoveBitField {
    /// Writes the ordering score of the move into it.
    pub fn set_score(&mut self, uci_info: &UciInformation, other_color: Color)
        ensures
            *final(self) == uci_info.board@.scored(
                other_color,
                uci_info.board_history.killers(uci_info.board@.half_move),
                *old(self),
            ),
            final(self).same_move(*old(self)),
    {
        let score = score_move(uci_info, *self, other_color);
        proof {
            lemma_with_score(self.0, score);
        }
        self.0 = (self.0 & 0xffffff) | (score << 24);
    }
}

impl MoveList {
    /// Puts `mov` in behind the moves that score at least as much as it
    /// does.
    fn insert_ranked(&mut self, mov: MoveBitField)
        requires
            old(self).wf(),
        ensures
            final(self).wf(),
            final(self)@ == insert_by_score(old(self)@, mov),
    {
        let score = mov.get_score();
        let mut at: usize = 0;
        while at < self.moves.len() && self.moves[at].get_score() >= score
            invariant
                at <= self@.len(),
                score == mov.score(),
                insertion_point(self@, score as int, 0) == insertion_point(
                    self@,
                    score as int,
                    at as int,
                ),
            decreases self@.len() - at,
        {
            at = at + 1;
        }
        self.moves.insert(at, mov);
        self.count = self.moves.len();
    }

    /// The moves of the side to move in the position of `uci_info`, scored
    /// and ordered: those with the higher score first, and among moves of
    /// equal score those first that are generated first. The list holds each
    /// move of the rules once, and its scores never rise.
    pub fn new(uci_info: &UciInformation, tables: &AttackTables) -> (r: Self)
        requires
            tables.wf(),
        ensures
            r.wf(),
            r@ == uci_info.board@.ordered_moves(
                uci_info.board_history.killers(uci_info.board@.half_move),
            ),
            uci_info.board@.wf() ==> forall|i: int|
                0 <= i < r@.len() ==> uci_info.board@.admits(#[trigger] r@[i]),
            r@.len() == uci_info.board@.generated().len(),
            forall|i: int, j: int|
                0 <= i <= j < r@.len() ==> (#[trigger] r@[i]).score() >= (#[trigger] r@[j]).score(),
            uci_info.board@.wf() ==> crate::pieces::distinct::apart(r@),
            uci_info.board@.wf() ==> forall|x: MoveBitField| #[trigger]
                r@.contains(x) <==> uci_info.board@.scored_rule(
                    uci_info.board_history.killers(uci_info.board@.half_move),
                    x,
                ),
    {
        let generated = Self::generate(&uci_info.board, tables);
        let other_color = uci_info.board.get_other_color();
        let mut res = Self::empty();
        let ghost pos = uci_info.board@;
        let ghost killers = uci_info.board_history.killers(pos.half_move);
        let mut i: usize = 0;
        while i < generated.moves.len()
            invariant
                i <= generated@.len(),
                res.wf(),
                pos == uci_info.board@,
                killers == uci_info.board_history.killers(pos.half_move),
                other_color == opponent(pos.color),
                res@ == pos.ranked(killers, generated@.take(i as int)),
            decreases generated@.len() - i,
        {
            let mut mov = generated.moves[i];
            mov.set_score(uci_info, other_color);
            res.insert_ranked(mov);
            proof {
                let next = generated@.take(i + 1);
                assert(next.drop_last() =~= generated@.take(i as int));
                assert(next.last() == generated@[i as int]);
            }
            i = i + 1;
        }
        proof {
            assert(generated@.take(generated@.len() as int) =~= generated@);
            if pos.wf() {
                assert forall|i: int| 0 <= i < res@.len() implies pos.admits(
                    #[trigger] res@[i],
                ) by {
                    pos.lemma_ordered_fit(killers, i);
                }
                pos.lemma_ordered_moves(killers);
            }
            pos.lemma_ranked(killers, generated@);
        }
        res
    }

    /// The moves of the side to move, in the order in which they are
    /// generated, without scores.
    pub fn generate(board_status: &BoardStatus, tables: &AttackTables) -> (r: Self)
        requires
            tables.wf(),
        ensures
            r.wf(),
            r@ == board_status@.generated(),
            board_status@.wf() ==> forall|i: int|
                0 <= i < r@.len() ==> board_status@.admits(#[trigger] r@[i]),
    {
        let mut res = Self::empty();
        let color = board_status.get_color();
        let ghost pos = board_status@;
        match color {
            Color::White => {
                res.generate_pawn_moves(tables, board_status, Color::White);
                res.generate_non_sliding_moves(tables, board_status, BoardSlots::WhiteKnight);
                res.generate_slider_moves(tables, board_status, BoardSlots::WhiteBishop);
                res.generate_slider_moves(tables, board_status, BoardSlots::WhiteRook);
                res.generate_slider_moves(tables, board_status, BoardSlots::WhiteQueen);
                res.generate_king_moves(tables, board_status, Color::White);
            },
            Color::Black => {
                res.generate_pawn_moves(tables, board_status, Color::Black);
                res.generate_non_sliding_moves(tables, board_status, BoardSlots::BlackKnight);
                res.generate_slider_moves(tables, board_status, BoardSlots::BlackBishop);
                res.generate_slider_moves(tables, board_status, BoardSlots::BlackRook);
                res.generate_slider_moves(tables, board_status, BoardSlots::BlackQueen);
                res.generate_king_moves(tables, board_status, Color::Black);
            },
        }
        proof {
            reveal(Position::generated);
            assert(res@ =~= pos.generated());
            if pos.wf() {
                assert forall|i: int| 0 <= i < res@.len() implies pos.admits(
                    #[trigger] res@[i],
                ) by {
                    pos.lemma_generated_fit(i);
                }
            }
        }
        res
    }
}

/// The lower-case letter of a kind of piece, from 'p' for the pawn to 'k'
/// for the king.
pub open spec fn kind_letter(kind: int) -> char {
    if kind == 0 {
        'p'
    } else if kind == 1 {
        'n'
    } else if kind == 2 {
        'b'
    } else if kind == 3 {
        'r'
    } else if kind == 4 {
        'q'
    } else {
        'k'
    }
}

/// The lower-case letter of a kind of piece.
pub fn kind_to_char(kind: usize) -> (r: char)
    ensures
        r == kind_letter(kind as int),
{
    if kind == 0 {
        'p'
    } else if kind == 1 {
        'n'
    } else if kind == 2 {
        'b'
    } else if kind == 3 {
        'r'
    } else if kind == 4 {
        'q'
    } else {
        'k'
    }
}

impl MoveBitField {
    /// The name of the move: the source square, the target square and, for a
    /// promotion, the letter of the promoted piece, all in lower case.
    pub open spec fn name(self) -> Seq<char> {
        square_name(self.source()) + square_name(self.target()) + (if self.promoted() != 0 {
            seq![kind_letter(BoardSlots::of(self.promoted()).idx() % 6)]
        } else {
            Seq::empty()
        })
    }

    /// The name of the move, as characters.
    pub fn name_chars(&self) -> (r: Vec<char>)
        ensures
            r@ == self.name(),
    {
        let mut out = name_of_square(self.get_source());
        let target = name_of_square(self.get_target());
        extend(&mut out, &target);
        let promoted = self.get_promoted();
        if MoveBitField::is_move_promoted(promoted) {
            out.push(kind_to_char(promoted.index() % 6));
        }
        proof {
            assert(out@ =~= self.name());
        }
        out
    }

    /// The name of the move: source, target and, for a promotion, the letter
    /// of the promoted piece.
    pub fn get_move_name(&self) -> (r: String)
        ensures
            r@ == self.name(),
    {
        string_of(&self.name_chars())
    }
}

impl Position {
    /// The legal moves among `moves`, in their order: those that leave the
    /// king of the side that moves safe.
    pub open spec fn legal_among(self, moves: Seq<MoveBitField>) -> Seq<MoveBitField>
        decreases moves.len(),
    {
        if moves.len() == 0 {
            Seq::empty()
        } else if self.leaves_king_safe(moves.last()) {
            self.legal_among(moves.drop_last()).push(moves.last())
        } else {
            self.legal_among(moves.drop_last())
        }
    }

    /// The legal moves of the side to move, in the order in which they are
    /// generated.
    pub open spec fn legal_moves(self) -> Seq<MoveBitField> {
        self.legal_among(self.generated())
    }
}

/// The legal moves among those of `list`, in their order.
pub fn legal_of(board_status: &BoardStatus, tables: &AttackTables, list: &MoveList) -> (r: Vec<
    MoveBitField,
>)
    requires
        tables.wf(),
    ensures
        r@ == board_status@.legal_among(list@),
{
    let mut out: Vec<MoveBitField> = Vec::new();
    let ghost pos = board_status@;
    let mut i: usize = 0;
    while i < list.moves.len()
        invariant
            tables.wf(),
            i <= list@.len(),
            pos == board_status@,
            out@ == pos.legal_among(list@.take(i as int)),
        decreases list@.len() - i,
    {
        let mov = list.moves[i];
        let mut scratch = *board_status;
        let legal = scratch.make_move(tables, mov);
        proof {
            let next = list@.take(i + 1);
            assert(next.drop_last() =~= list@.take(i as int));
            assert(next.last() == mov);
        }
        if legal {
            out.push(mov);
        }
        i = i + 1;
    }
    proof {
        assert(list@.take(list@.len() as int) =~= list@);
    }
    out
}

/// The name of the slot at place `i`.
pub open spec fn slot_name(i: int) -> Seq<char> {
    if i == 0 {
        "WhitePawn"@
    } else if i == 1 {
        "WhiteKnight"@
    } else if i == 2 {
        "WhiteBishop"@
    } else if i == 3 {
        "WhiteRook"@
    } else if i == 4 {
        "WhiteQueen"@
    } else if i == 5 {
        "WhiteKing"@
    } else if i == 6 {
        "BlackPawn"@
    } else if i == 7 {
        "BlackKnight"@
    } else if i == 8 {
        "BlackBishop"@
    } else if i == 9 {
        "BlackRook"@
    } else if i == 10 {
        "BlackQueen"@
    } else if i == 11 {
        "BlackKing"@
    } else if i == 12 {
        "BlackPieces"@
    } else if i == 13 {
        "WhitePieces"@
    } else {
        "AllPieces"@
    }
}

impl BoardSlots {
    /// The name of the slot.
    pub fn name(self) -> (r: &'static str)
        ensures
            r@ == slot_name(self.idx()),
    {
        match self {
            BoardSlots::WhitePawn => "WhitePawn",
            BoardSlots::WhiteKnight => "WhiteKnight",
            BoardSlots::WhiteBishop => "WhiteBishop",
            BoardSlots::WhiteRook => "WhiteRook",
            BoardSlots::WhiteQueen => "WhiteQueen",
            BoardSlots::WhiteKing => "WhiteKing",
            BoardSlots::BlackPawn => "BlackPawn",
            BoardSlots::BlackKnight => "BlackKnight",
            BoardSlots::BlackBishop => "BlackBishop",
            BoardSlots::BlackRook => "BlackRook",
            BoardSlots::BlackQueen => "BlackQueen",
            BoardSlots::BlackKing => "BlackKing",
            BoardSlots::BlackPieces => "BlackPieces",
            BoardSlots::WhitePieces => "WhitePieces",
            BoardSlots::AllPieces => "AllPieces",
        }
    }
}

impl MoveBitField {
    /// The move in words: its name, the piece that moves, the piece it
    /// promotes to if any, and a word for each of its flags.
    pub open spec fn words(self) -> Seq<char> {
        self.name() + " "@ + slot_name(BoardSlots::of(self.piece()).idx()) + " "@ + (if self.promoted()
            != 0 {
            "Promoted: "@ + slot_name(BoardSlots::of(self.promoted()).idx()) + " "@
        } else {
            Seq::empty()
        }) + (if self.capture() {
            "Capture "@
        } else {
            Seq::empty()
        }) + (if self.double() {
            "Double "@
        } else {
            Seq::empty()
        }) + (if self.enpassant() {
            "Enpassant "@
        } else {
            Seq::empty()
        }) + (if self.castling() {
            "Castling "@
        } else {
            Seq::empty()
        })
    }

    /// The move in words.
    pub fn convert_to_string(&self) -> (r: String)
        ensures
            r@ == self.words(),
    {
        let mut out = self.name_chars();
        push_str(&mut out, " ");
        push_str(&mut out, self.get_piece().name());
        push_str(&mut out, " ");
        let ghost head = out@;
        let promoted = self.get_promoted();
        if MoveBitField::is_move_promoted(promoted) {
            push_str(&mut out, "Promoted: ");
            push_str(&mut out, promoted.name());
            push_str(&mut out, " ");
        }
        let ghost with_promotion = out@;
        proof {
            let part = if self.promoted() != 0 {
                "Promoted: "@ + slot_name(BoardSlots::of(self.promoted()).idx()) + " "@
            } else {
                Seq::<char>::empty()
            };
            assert(with_promotion =~= head + part);
        }
        if self.is_move_capture() {
            push_str(&mut out, "Capture ");
        }
        if self.is_move_double() {
            push_str(&mut out, "Double ");
        }
        if self.is_move_enpassant() {
            push_str(&mut out, "Enpassant ");
        }
        if self.is_move_castling() {
            push_str(&mut out, "Castling ");
        }
        proof {
            assert(out@ =~= self.words());
        }
        string_of(&out)
    }
}

} // verus!
