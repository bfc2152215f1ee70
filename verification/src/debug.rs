//! The notation of positions: reading a position from its six fields and
//! writing it back.

use vstd::prelude::*;
use crate::board_components::{board_text, BitBoard, Color, Square};
use crate::constants::squares::NO_SQUARE;
use crate::pieces::pieces_controller::{
    legal_of, BoardSlots, BoardStatus, Castles, MoveBitField, MoveList, Position,
};
use crate::pieces::tables::AttackTables;
use crate::text::{
    chars_of, char_to_digit, decimal, digit_char, digit_to_char, digit_value, extend, number,
    parse_number, push_str, string_of, to_decimal,
};

verus! {

/// The field of the notation that could not be read.
#[derive(Clone, Copy, Debug, PartialEq, Eq, Structural)]
pub enum FenError {
    Board,
    Color,
    Castles,
    Enpassant,
    HalfMove,
    FullMove,
}

/// The place among the slots of the piece that a letter stands for; -1 for
/// a character that stands for none.
pub open spec fn piece_of_letter(c: char) -> int {
    if c == 'P' {
        0
    } else if c == 'N' {
        1
    } else if c == 'B' {
        2
    } else if c == 'R' {
        3
    } else if c == 'Q' {
        4
    } else if c == 'K' {
        5
    } else if c == 'p' {
        6
    } else if c == 'n' {
        7
    } else if c == 'b' {
        8
    } else if c == 'r' {
        9
    } else if c == 'q' {
        10
    } else if c == 'k' {
        11
    } else {
        -1
    }
}

/// The letter of the piece at place `piece`: upper case for White, lower
/// case for Black.
pub open spec fn letter_of_piece(piece: int) -> char {
    if piece == 0 {
        'P'
    } else if piece == 1 {
        'N'
    } else if piece == 2 {
        'B'
    } else if piece == 3 {
        'R'
    } else if piece == 4 {
        'Q'
    } else if piece == 5 {
        'K'
    } else if piece == 6 {
        'p'
    } else if piece == 7 {
        'n'
    } else if piece == 8 {
        'b'
    } else if piece == 9 {
        'r'
    } else if piece == 10 {
        'q'
    } else {
        'k'
    }
}

/// The piece that a letter stands for.
pub fn char_to_piece(c: char) -> (r: Option<BoardSlots>)
    ensures
        match r {
            Some(piece) => piece.idx() == piece_of_letter(c) && piece.idx() < 12,
            None => piece_of_letter(c) == -1,
        },
{
    if c == 'P' {
        Some(BoardSlots::WhitePawn)
    } else if c == 'N' {
        Some(BoardSlots::WhiteKnight)
    } else if c == 'B' {
        Some(BoardSlots::WhiteBishop)
    } else if c == 'R' {
        Some(BoardSlots::WhiteRook)
    } else if c == 'Q' {
        Some(BoardSlots::WhiteQueen)
    } else if c == 'K' {
        Some(BoardSlots::WhiteKing)
    } else if c == 'p' {
        Some(BoardSlots::BlackPawn)
    } else if c == 'n' {
        Some(BoardSlots::BlackKnight)
    } else if c == 'b' {
        Some(BoardSlots::BlackBishop)
    } else if c == 'r' {
        Some(BoardSlots::BlackRook)
    } else if c == 'q' {
        Some(BoardSlots::BlackQueen)
    } else if c == 'k' {
        Some(BoardSlots::BlackKing)
    } else {
        None
    }
}

/// The letter of the piece at place `piece`.
pub fn piece_to_char(piece: usize) -> (r: char)
    requires
        piece < 12,
    ensures
        r == letter_of_piece(piece as int),
        piece_of_letter(r) == piece,
{
    if piece == 0 {
        'P'
    } else if piece == 1 {
        'N'
    } else if piece == 2 {
        'B'
    } else if piece == 3 {
        'R'
    } else if piece == 4 {
        'Q'
    } else if piece == 5 {
        'K'
    } else if piece == 6 {
        'p'
    } else if piece == 7 {
        'n'
    } else if piece == 8 {
        'b'
    } else if piece == 9 {
        'r'
    } else if piece == 10 {
        'q'
    } else {
        'k'
    }
}

/// The piece that a string of one letter stands for.
pub fn str_to_piece(asci_piece: &str) -> (r: Option<BoardSlots>)
    ensures
        match r {
            Some(piece) => asci_piece@.len() == 1 && piece.idx() == piece_of_letter(
                asci_piece@[0],
            ),
            None => asci_piece@.len() != 1 || piece_of_letter(asci_piece@[0]) == -1,
        },
{
    if asci_piece.unicode_len() != 1 {
        return None;
    }
    char_to_piece(asci_piece.get_char(0))
}

/// The letter of a file, from 'a' for the first.
pub open spec fn file_letter(file: int) -> char {
    if file == 0 {
        'a'
    } else if file == 1 {
        'b'
    } else if file == 2 {
        'c'
    } else if file == 3 {
        'd'
    } else if file == 4 {
        'e'
    } else if file == 5 {
        'f'
    } else if file == 6 {
        'g'
    } else {
        'h'
    }
}

/// The file that a letter from 'a' to 'h' stands for; -1 for any other
/// character.
pub open spec fn file_of_letter(c: char) -> int {
    if c == 'a' {
        0
    } else if c == 'b' {
        1
    } else if c == 'c' {
        2
    } else if c == 'd' {
        3
    } else if c == 'e' {
        4
    } else if c == 'f' {
        5
    } else if c == 'g' {
        6
    } else if c == 'h' {
        7
    } else {
        -1
    }
}

/// The letter of a file.
pub fn file_to_char(file: u8) -> (r: char)
    requires
        file < 8,
    ensures
        r == file_letter(file as int),
        file_of_letter(r) == file,
{
    if file == 0 {
        'a'
    } else if file == 1 {
        'b'
    } else if file == 2 {
        'c'
    } else if file == 3 {
        'd'
    } else if file == 4 {
        'e'
    } else if file == 5 {
        'f'
    } else if file == 6 {
        'g'
    } else {
        'h'
    }
}

/// The file that a letter stands for.
pub fn char_to_file(c: char) -> (r: Option<u8>)
    ensures
        match r {
            Some(file) => file < 8 && file_of_letter(c) == file,
            None => file_of_letter(c) == -1,
        },
{
    if c == 'a' {
        Some(0)
    } else if c == 'b' {
        Some(1)
    } else if c == 'c' {
        Some(2)
    } else if c == 'd' {
        Some(3)
    } else if c == 'e' {
        Some(4)
    } else if c == 'f' {
        Some(5)
    } else if c == 'g' {
        Some(6)
    } else if c == 'h' {
        Some(7)
    } else {
        None
    }
}

/// The name of a square in lower case: the letter of its file, then the
/// number of its rank.
pub open spec fn square_name(s: int) -> Seq<char> {
    seq![file_letter(s % 8), digit_char(s / 8 + 1)]
}

/// The square that a name stands for; -1 where it is no name of a square.
pub open spec fn square_of_name(name: Seq<char>) -> int {
    if name.len() == 2 && file_of_letter(name[0]) >= 0 && 1 <= digit_value(name[1]) <= 8 {
        8 * (digit_value(name[1]) - 1) + file_of_letter(name[0])
    } else {
        -1
    }
}

/// The name of a square in lower case.
pub fn name_of_square(square: Square) -> (r: Vec<char>)
    requires
        square.on_board(),
    ensures
        r@ == square_name(square@),
{
    let mut out: Vec<char> = Vec::new();
    out.push(file_to_char(square.0 % 8));
    out.push(digit_to_char(square.0 / 8 + 1));
    proof {
        assert(out@ =~= square_name(square@));
    }
    out
}

/// The square that a name stands for.
pub fn square_by_name(name: &Vec<char>) -> (r: Option<Square>)
    ensures
        match r {
            Some(square) => square.on_board() && square@ == square_of_name(name@),
            None => square_of_name(name@) == -1,
        },
{
    if name.len() != 2 {
        return None;
    }
    match char_to_file(name[0]) {
        None => None,
        Some(file) => match char_to_digit(name[1]) {
            None => None,
            Some(rank) => {
                if 1 <= rank && rank <= 8 {
                    Some(Square(8 * (rank - 1) + file))
                } else {
                    None
                }
            },
        },
    }
}

/// The place of the first space of `s` from `from` on; the length of `s`
/// where there is none.
pub open spec fn space_from(s: Seq<char>, from: int) -> int
    decreases s.len() - from,
{
    if from >= s.len() || s[from] == ' ' {
        from
    } else {
        space_from(s, from + 1)
    }
}

/// The `k`-th of the fields of `s` that single spaces separate, counted
/// from `from` on; the empty field where `s` has fewer.
pub open spec fn field(s: Seq<char>, from: int, k: nat) -> Seq<char>
    decreases k,
{
    let end = space_from(s, from);
    if !(0 <= from <= end <= s.len()) {
        Seq::empty()
    } else if k == 0 {
        s.subrange(from, end)
    } else if end >= s.len() {
        Seq::empty()
    } else {
        field(s, end + 1, (k - 1) as nat)
    }
}

/// A blank: a character of white space. These are the space, the
/// controls from the tab to the carriage return, the next-line control, and
/// the spaces and separators of the wider character set.
pub open spec fn is_blank(c: char) -> bool {
    ||| c == ' '
    ||| '\u{9}' <= c <= '\u{D}'
    ||| c == '\u{85}'
    ||| c == '\u{A0}'
    ||| c == '\u{1680}'
    ||| '\u{2000}' <= c <= '\u{200A}'
    ||| c == '\u{2028}'
    ||| c == '\u{2029}'
    ||| c == '\u{202F}'
    ||| c == '\u{205F}'
    ||| c == '\u{3000}'
}

/// The place of the first character of `s` from `from` on that is no blank.
pub open spec fn first_mark(s: Seq<char>, from: int) -> int
    decreases s.len() - from,
{
    if from >= s.len() || !is_blank(s[from]) {
        from
    } else {
        first_mark(s, from + 1)
    }
}

/// The place behind the last character of `s` before `to` that is no
/// blank.
pub open spec fn last_mark(s: Seq<char>, to: int) -> int
    decreases to,
{
    if to <= 0 || to > s.len() || !is_blank(s[to - 1]) {
        to
    } else {
        last_mark(s, to - 1)
    }
}

/// `s` without the blanks at its two ends.
pub open spec fn trimmed(s: Seq<char>) -> Seq<char> {
    let start = first_mark(s, 0);
    let end = last_mark(s, s.len() as int);
    if 0 <= start <= end <= s.len() {
        s.subrange(start, end)
    } else {
        Seq::empty()
    }
}

/// Whether the character is a blank.
pub fn is_blank_char(c: char) -> (r: bool)
    ensures
        r == is_blank(c),
{
    c == ' ' || ('\u{9}' <= c && c <= '\u{D}') || c == '\u{85}' || c == '\u{A0}' || c == '\u{1680}'
        || ('\u{2000}' <= c && c <= '\u{200A}') || c == '\u{2028}' || c == '\u{2029}' || c
        == '\u{202F}' || c == '\u{205F}' || c == '\u{3000}'
}

/// The characters without the blanks at the two ends.
pub fn trim(chars: &Vec<char>) -> (r: Vec<char>)
    ensures
        r@ == trimmed(chars@),
{
    let mut start: usize = 0;
    while start < chars.len() && is_blank_char(chars[start])
        invariant
            start <= chars@.len(),
            first_mark(chars@, 0) == first_mark(chars@, start as int),
        decreases chars@.len() - start,
    {
        start = start + 1;
    }
    let mut end: usize = chars.len();
    while end > 0 && is_blank_char(chars[end - 1])
        invariant
            end <= chars@.len(),
            last_mark(chars@, chars@.len() as int) == last_mark(chars@, end as int),
        decreases end,
    {
        end = end - 1;
    }
    let mut out: Vec<char> = Vec::new();
    if start <= end {
        let mut i: usize = start;
        while i < end
            invariant
                start <= i <= end <= chars@.len(),
                out@ == chars@.subrange(start as int, i as int),
            decreases end - i,
        {
            out.push(chars[i]);
            i = i + 1;
            proof {
                assert(out@ =~= chars@.subrange(start as int, i as int));
            }
        }
    }
    out
}

/// The `k`-th of the fields of `chars` that single spaces separate.
pub fn nth_field(chars: &Vec<char>, k: usize) -> (r: Vec<char>)
    ensures
        r@ == field(chars@, 0, k as nat),
{
    let mut from: usize = 0;
    let mut left: usize = k;
    loop
        invariant
            from <= chars@.len(),
            field(chars@, 0, k as nat) == field(chars@, from as int, left as nat),
        decreases left,
    {
        let mut end: usize = from;
        while end < chars.len() && chars[end] != ' '
            invariant
                from <= end <= chars@.len(),
                space_from(chars@, from as int) == space_from(chars@, end as int),
            decreases chars@.len() - end,
        {
            end = end + 1;
        }
        if left == 0 {
            let mut out: Vec<char> = Vec::new();
            let mut i: usize = from;
            while i < end
                invariant
                    from <= i <= end <= chars@.len(),
                    out@ == chars@.subrange(from as int, i as int),
                decreases end - i,
            {
                out.push(chars[i]);
                i = i + 1;
                proof {
                    assert(out@ =~= chars@.subrange(from as int, i as int));
                }
            }
            return out;
        }
        if end >= chars.len() {
            return Vec::new();
        }
        from = end + 1;
        left = left - 1;
    }
}

/// The six fields of the notation of a position.
pub struct FenString {
    pub board: Vec<char>,
    pub color: Vec<char>,
    pub castles: Vec<char>,
    pub enpassant: Vec<char>,
    pub half_move: Vec<char>,
    pub full_move: Vec<char>,
}

/// The six fields of the notation of a position, as sequences of
/// characters.
pub ghost struct Notation {
    pub board: Seq<char>,
    pub color: Seq<char>,
    pub castles: Seq<char>,
    pub enpassant: Seq<char>,
    pub half_move: Seq<char>,
    pub full_move: Seq<char>,
}

impl View for FenString {
    type V = Notation;

    open spec fn view(&self) -> Notation {
        Notation {
            board: self.board@,
            color: self.color@,
            castles: self.castles@,
            enpassant: self.enpassant@,
            half_move: self.half_move@,
            full_move: self.full_move@,
        }
    }
}

impl Position {
    /// The place among the slots of the piece that stands on `s`; -1 for an
    /// empty square.
    pub open spec fn occupant(self, s: int) -> int {
        if self.holder(0, 6, s) >= 0 {
            self.holder(0, 6, s)
        } else {
            self.holder(6, 6, s)
        }
    }
}

/// The run of `run` empty squares as its digit; nothing for no run.
pub open spec fn run_mark(run: int) -> Seq<char> {
    if run > 0 {
        seq![digit_char(run)]
    } else {
        Seq::empty()
    }
}

/// The notation of the squares of rank `rank` from file `file` on, after a
/// run of `run` empty squares: a letter for each piece, a digit for each
/// run of empty squares.
pub open spec fn write_rank(pos: Position, rank: int, file: int, run: int) -> Seq<char>
    decreases 8 - file,
{
    if file >= 8 {
        run_mark(run)
    } else if pos.occupant(8 * rank + file) < 0 {
        write_rank(pos, rank, file + 1, run + 1)
    } else {
        run_mark(run) + seq![letter_of_piece(pos.occupant(8 * rank + file))] + write_rank(
            pos,
            rank,
            file + 1,
            0,
        )
    }
}

/// The notation of the ranks from `rank` down to the first, with a stroke
/// between two ranks.
pub open spec fn write_rows(pos: Position, rank: int) -> Seq<char>
    decreases rank,
{
    if rank <= 0 {
        write_rank(pos, 0, 0, 0)
    } else {
        write_rank(pos, rank, 0, 0) + seq!['/'] + write_rows(pos, rank - 1)
    }
}

/// The letters of the castling rights: K, Q, k, q for those that hold, in
/// this order, or a dash for none.
pub open spec fn write_castles(castles: u8) -> Seq<char> {
    if castles & 15 == 0 {
        seq!['-']
    } else {
        (if castles & 1 != 0 {
            seq!['K']
        } else {
            Seq::empty()
        }) + (if castles & 2 != 0 {
            seq!['Q']
        } else {
            Seq::empty()
        }) + (if castles & 4 != 0 {
            seq!['k']
        } else {
            Seq::empty()
        }) + (if castles & 8 != 0 {
            seq!['q']
        } else {
            Seq::empty()
        })
    }
}

/// The notation of a position.
pub open spec fn notation_of(pos: Position) -> Notation {
    Notation {
        board: write_rows(pos, 7),
        color: match pos.color {
            Color::White => seq!['w'],
            Color::Black => seq!['b'],
        },
        castles: write_castles(pos.castles),
        enpassant: if 0 <= pos.enpassant < 64 {
            square_name(pos.enpassant)
        } else {
            seq!['-']
        },
        half_move: decimal(pos.half_move),
        full_move: decimal(pos.full_move),
    }
}

/// The position that the placement field `s` gives from its `i`-th
/// character on, when the square at `rank` and `file` is the next to fill
/// and `pos` holds what was read before: a letter puts its piece there, a
/// digit skips as many squares, a stroke goes on to the rank below once the
/// rank is full. `None` where a rank is left short or overrun, where there
/// are too few or too many ranks, or at any other character.
pub open spec fn read_rows(s: Seq<char>, i: int, rank: int, file: int, pos: Position) -> Option<
    Position,
>
    decreases s.len() - i,
{
    if i < 0 || i >= s.len() {
        if rank == 0 && file == 8 {
            Some(pos)
        } else {
            None
        }
    } else if s[i] == '/' {
        if file == 8 && rank > 0 {
            read_rows(s, i + 1, rank - 1, 0, pos)
        } else {
            None
        }
    } else if 1 <= digit_value(s[i]) <= 8 {
        if file + digit_value(s[i]) <= 8 {
            read_rows(s, i + 1, rank, file + digit_value(s[i]), pos)
        } else {
            None
        }
    } else if piece_of_letter(s[i]) >= 0 {
        if file < 8 {
            read_rows(s, i + 1, rank, file + 1, pos.put(piece_of_letter(s[i]), 8 * rank + file))
        } else {
            None
        }
    } else {
        None
    }
}

/// The letter `c` occurs in `s`.
pub open spec fn holds(s: Seq<char>, c: char) -> bool {
    exists|i: int| 0 <= i < s.len() && s[i] == c
}

/// The castling rights that the field `s` gives: one bit for each of the
/// letters K, Q, k, q that occurs in it. `None` for the empty field and for
/// one that holds anything but these letters and the dash.
pub open spec fn read_castles(s: Seq<char>) -> Option<u8> {
    if s.len() == 0 || exists|i: int|
        0 <= i < s.len() && s[i] != 'K' && s[i] != 'Q' && s[i] != 'k' && s[i] != 'q' && s[i]
            != '-' {
        None
    } else {
        Some(
            ((if holds(s, 'K') {
                1int
            } else {
                0int
            }) + (if holds(s, 'Q') {
                2int
            } else {
                0int
            }) + (if holds(s, 'k') {
                4int
            } else {
                0int
            }) + (if holds(s, 'q') {
                8int
            } else {
                0int
            })) as u8,
        )
    }
}

/// The position that a notation stands for, or the first of its fields
/// that cannot be read.
pub open spec fn position_of(n: Notation) -> Result<Position, FenError> {
    let color = if n.color == seq!['w'] {
        Some(Color::White)
    } else if n.color == seq!['b'] {
        Some(Color::Black)
    } else {
        None
    };
    let enpassant = if n.enpassant == seq!['-'] {
        64
    } else {
        square_of_name(n.enpassant)
    };
    let half_move = number(n.half_move);
    let full_move = number(n.full_move);
    if color is None {
        Err(FenError::Color)
    } else if read_castles(n.castles) is None {
        Err(FenError::Castles)
    } else if enpassant < 0 {
        Err(FenError::Enpassant)
    } else if half_move is None || half_move->0 > usize::MAX {
        Err(FenError::HalfMove)
    } else if full_move is None || full_move->0 > usize::MAX {
        Err(FenError::FullMove)
    } else {
        match read_rows(
            n.board,
            0,
            7,
            0,
            Position {
                boards: Seq::new(15, |i: int| 0u64),
                color: color->0,
                castles: read_castles(n.castles)->0,
                enpassant,
                half_move: half_move->0,
                full_move: full_move->0,
            },
        ) {
            Some(pos) => Ok(pos),
            None => Err(FenError::Board),
        }
    }
}

/// The fields of a notation with a space between each two.
pub open spec fn joined(n: Notation) -> Seq<char> {
    n.board + seq![' '] + n.color + seq![' '] + n.castles + seq![' '] + n.enpassant + seq![' ']
        + n.half_move + seq![' '] + n.full_move
}

/// Whether `c` occurs among the characters.
pub fn contains_char(chars: &Vec<char>, c: char) -> (r: bool)
    ensures
        r == holds(chars@, c),
{
    let mut i: usize = 0;
    while i < chars.len()
        invariant
            i <= chars@.len(),
            forall|k: int| 0 <= k < i ==> chars@[k] != c,
        decreases chars@.len() - i,
    {
        if chars[i] == c {
            return true;
        }
        i = i + 1;
    }
    false
}

/// The castling rights that the field gives.
pub fn parse_castles(chars: &Vec<char>) -> (r: Option<Castles>)
    ensures
        match r {
            Some(castles) => read_castles(chars@) == Some(castles.0),
            None => read_castles(chars@) is None,
        },
{
    if chars.len() == 0 {
        return None;
    }
    let mut i: usize = 0;
    while i < chars.len()
        invariant
            i <= chars@.len(),
            forall|k: int|
                0 <= k < i ==> chars@[k] == 'K' || chars@[k] == 'Q' || chars@[k] == 'k'
                    || chars@[k] == 'q' || chars@[k] == '-',
        decreases chars@.len() - i,
    {
        let c = chars[i];
        if c != 'K' && c != 'Q' && c != 'k' && c != 'q' && c != '-' {
            return None;
        }
        i = i + 1;
    }
    let mut rights: u8 = 0;
    if contains_char(chars, 'K') {
        rights = rights + 1;
    }
    if contains_char(chars, 'Q') {
        rights = rights + 2;
    }
    if contains_char(chars, 'k') {
        rights = rights + 4;
    }
    if contains_char(chars, 'q') {
        rights = rights + 8;
    }
    Some(Castles(rights))
}

/// The letters of the castling rights.
pub fn castles_to_chars(castles: u8) -> (r: Vec<char>)
    ensures
        r@ == write_castles(castles),
{
    let mut out: Vec<char> = Vec::new();
    if castles & 15 == 0 {
        out.push('-');
        proof {
            assert(out@ =~= write_castles(castles));
        }
        return out;
    }
    if castles & 1 != 0 {
        out.push('K');
    }
    if castles & 2 != 0 {
        out.push('Q');
    }
    if castles & 4 != 0 {
        out.push('k');
    }
    if castles & 8 != 0 {
        out.push('q');
    }
    proof {
        assert(out@ =~= write_castles(castles));
    }
    out
}

impl BoardStatus {
    /// The piece that stands on `square`.
    pub fn piece_on(&self, square: Square) -> (r: Option<usize>)
        requires
            square.on_board(),
        ensures
            match r {
                Some(piece) => piece == self@.occupant(square@) && piece < 12,
                None => self@.occupant(square@) == -1,
            },
    {
        proof {
            self@.lemma_holder_range(0, 6, square@);
            self@.lemma_holder_range(6, 6, square@);
        }
        match self.holder_of(0, square) {
            Some(piece) => Some(piece),
            None => self.holder_of(6, square),
        }
    }
}

impl Position {
    /// What `holder` finds lies among the places it looks at.
    pub proof fn lemma_holder_range(self, first: int, count: nat, s: int)
        ensures
            self.holder(first, count, s) == -1 || first <= self.holder(first, count, s) < first
                + count,
        decreases count,
    {
        if count > 0 {
            self.lemma_holder_range(first + 1, (count - 1) as nat, s);
        }
    }
}

/// Appends the notation of one rank.
fn push_rank(out: &mut Vec<char>, board_status: &BoardStatus, rank: u8)
    requires
        rank < 8,
    ensures
        final(out)@ == old(out)@ + write_rank(board_status@, rank as int, 0, 0),
{
    let mut file: u8 = 0;
    let mut run: u8 = 0;
    let ghost pos = board_status@;
    let ghost all = write_rank(pos, rank as int, 0, 0);
    while file < 8
        invariant
            file <= 8,
            run <= file,
            rank < 8,
            pos == board_status@,
            out@ + write_rank(pos, rank as int, file as int, run as int) == old(out)@ + all,
        decreases 8 - file,
    {
        let ghost before = out@;
        let ghost rest = write_rank(pos, rank as int, file as int + 1, 0);
        match board_status.piece_on(Square(8 * rank + file)) {
            None => {
                run = run + 1;
            },
            Some(piece) => {
                if run > 0 {
                    out.push(digit_to_char(run));
                }
                out.push(piece_to_char(piece));
                proof {
                    let here = run_mark(run as int) + seq![letter_of_piece(piece as int)];
                    assert(out@ =~= before + here);
                    assert((before + here) + rest =~= before + (here + rest));
                }
                run = 0;
            },
        }
        file = file + 1;
    }
    if run > 0 {
        out.push(digit_to_char(run));
    }
    proof {
        assert(out@ =~= old(out)@ + all);
    }
}

impl FenString {
    /// Splits a notation into its fields: what single spaces separate once
    /// the blanks at the two ends are gone. A field that is not there is
    /// empty.
    pub fn new(fen: String) -> (r: Self)
        ensures
            r@ == (Notation {
                board: field(trimmed(fen@), 0, 0),
                color: field(trimmed(fen@), 0, 1),
                castles: field(trimmed(fen@), 0, 2),
                enpassant: field(trimmed(fen@), 0, 3),
                half_move: field(trimmed(fen@), 0, 4),
                full_move: field(trimmed(fen@), 0, 5),
            }),
    {
        let all = chars_of(fen.as_str());
        let data = trim(&all);
        Self {
            board: nth_field(&data, 0),
            color: nth_field(&data, 1),
            castles: nth_field(&data, 2),
            enpassant: nth_field(&data, 3),
            half_move: nth_field(&data, 4),
            full_move: nth_field(&data, 5),
        }
    }

    /// The notation of a position.
    pub fn from_board(board_status: &BoardStatus) -> (r: Self)
        ensures
            r@ == notation_of(board_status@),
    {
        let mut board: Vec<char> = Vec::new();
        let mut rank: u8 = 8;
        let ghost pos = board_status@;
        while rank > 0
            invariant
                rank <= 8,
                pos == board_status@,
                rank > 0 ==> board@ + write_rows(pos, rank - 1) == write_rows(pos, 7),
                rank == 0 ==> board@ == write_rows(pos, 7),
            decreases rank,
        {
            rank = rank - 1;
            let ghost before = board@;
            push_rank(&mut board, board_status, rank);
            if rank > 0 {
                board.push('/');
                proof {
                    let here = write_rank(pos, rank as int, 0, 0);
                    let rest = write_rows(pos, rank - 1);
                    assert(board@ =~= (before + here) + seq!['/']);
                    assert(((before + here) + seq!['/']) + rest =~= before + (here + seq!['/']
                        + rest));
                }
            }
        }
        let mut color: Vec<char> = Vec::new();
        match board_status.get_color() {
            Color::White => color.push('w'),
            Color::Black => color.push('b'),
        }
        let castles = castles_to_chars(board_status.castles.0);
        let enpassant_square = board_status.get_enpassant();
        let mut enpassant: Vec<char> = Vec::new();
        if enpassant_square.0 < NO_SQUARE {
            enpassant = name_of_square(enpassant_square);
        } else {
            enpassant.push('-');
        }
        let half_move = to_decimal(board_status.get_half_move());
        let full_move = to_decimal(board_status.get_full_move());
        proof {
            assert(color@ =~= notation_of(pos).color);
            assert(enpassant@ =~= notation_of(pos).enpassant);
        }
        Self { board, color, castles, enpassant, half_move, full_move }
    }

    /// The fields with a space between each two.
    pub fn get_fen_string(&self) -> (r: String)
        ensures
            r@ == joined(self@),
    {
        let mut out: Vec<char> = Vec::new();
        extend(&mut out, &self.board);
        out.push(' ');
        extend(&mut out, &self.color);
        out.push(' ');
        extend(&mut out, &self.castles);
        out.push(' ');
        extend(&mut out, &self.enpassant);
        out.push(' ');
        extend(&mut out, &self.half_move);
        out.push(' ');
        extend(&mut out, &self.full_move);
        proof {
            assert(out@ =~= joined(self@));
        }
        string_of(&out)
    }

    /// The position that the fields stand for, or the first of them that
    /// cannot be read.
    pub fn convert_to_board(&self) -> (r: Result<BoardStatus, FenError>)
        ensures
            match r {
                Ok(board) => position_of(self@) == Ok::<Position, FenError>(board@) && board@.wf(),
                Err(e) => position_of(self@) == Err::<Position, FenError>(e),
            },
    {
        let color = if self.color.len() == 1 && self.color[0] == 'w' {
            Color::White
        } else if self.color.len() == 1 && self.color[0] == 'b' {
            Color::Black
        } else {
            proof {
                if self.color@ == seq!['w'] {
                    assert(self.color@[0] == 'w');
                }
                if self.color@ == seq!['b'] {
                    assert(self.color@[0] == 'b');
                }
            }
            return Err(FenError::Color);
        };
        proof {
            assert(self.color@ =~= seq![self.color@[0]]);
        }
        let castles = match parse_castles(&self.castles) {
            Some(castles) => castles,
            None => {
                return Err(FenError::Castles);
            },
        };
        let enpassant_square = if self.enpassant.len() == 1 && self.enpassant[0] == '-' {
            proof {
                assert(self.enpassant@ =~= seq!['-']);
            }
            Square(NO_SQUARE)
        } else {
            proof {
                if self.enpassant@ == seq!['-'] {
                    assert(self.enpassant@[0] == '-');
                }
            }
            match square_by_name(&self.enpassant) {
                Some(square) => square,
                None => {
                    return Err(FenError::Enpassant);
                },
            }
        };
        let half_move = match parse_number(&self.half_move) {
            Some(n) => n,
            None => {
                return Err(FenError::HalfMove);
            },
        };
        let full_move = match parse_number(&self.full_move) {
            Some(n) => n,
            None => {
                return Err(FenError::FullMove);
            },
        };
        let mut board = BoardStatus::from(
            [BitBoard(0);15],
            color,
            enpassant_square,
            castles,
            half_move,
            full_move,
        );
        let ghost start = board@;
        proof {
            broadcast use vstd::array::axiom_spec_array_fill_for_copy_type;

            assert(start.boards =~= Seq::new(15, |i: int| 0u64));
        }
        let mut rank: u8 = 7;
        let mut file: u8 = 0;
        let mut i: usize = 0;
        while i < self.board.len()
            invariant
                i <= self.board@.len(),
                rank < 8,
                file <= 8,
                position_of(self@) == (match read_rows(self.board@, 0, 7, 0, start) {
                    Some(pos) => Ok::<Position, FenError>(pos),
                    None => Err::<Position, FenError>(FenError::Board),
                }),
                read_rows(self.board@, 0, 7, 0, start) == read_rows(
                    self.board@,
                    i as int,
                    rank as int,
                    file as int,
                    board@,
                ),
            decreases self.board@.len() - i,
        {
            let c = self.board[i];
            if c == '/' {
                if file != 8 || rank == 0 {
                    return Err(FenError::Board);
                }
                rank = rank - 1;
                file = 0;
            } else {
                match char_to_digit(c) {
                    Some(skip) => {
                        if skip < 1 || skip > 8 || file + skip > 8 {
                            return Err(FenError::Board);
                        }
                        file = file + skip;
                    },
                    None => match char_to_piece(c) {
                        Some(piece) => {
                            if file >= 8 {
                                return Err(FenError::Board);
                            }
                            board.set_piece_bit(piece, Square(8 * rank + file));
                            file = file + 1;
                        },
                        None => {
                            return Err(FenError::Board);
                        },
                    },
                }
            }
            i = i + 1;
        }
        if rank != 0 || file != 8 {
            return Err(FenError::Board);
        }
        proof {
            crate::round_trip::lemma_position_of_wf(self@);
        }
        Ok(board)
    }
}

/// The number of ways to play `depth` legal moves in a row, the first of
/// them one of `moves`, which are moves of `pos`.
pub open spec fn leaves_over(pos: Position, moves: Seq<MoveBitField>, depth: nat) -> nat
    decreases depth, moves.len(),
{
    if moves.len() == 0 || depth == 0 {
        0
    } else {
        leaves_over(pos, moves.drop_last(), depth) + (if !pos.leaves_king_safe(moves.last()) {
            0
        } else if depth == 1 {
            1
        } else {
            leaves_over(
                pos.moved(moves.last()),
                pos.moved(moves.last()).generated(),
                (depth - 1) as nat,
            )
        })
    }
}

/// The number of ways to play `depth` legal moves in a row from `pos`.
pub open spec fn leaves(pos: Position, depth: nat) -> nat {
    if depth == 0 {
        1
    } else {
        leaves_over(pos, pos.generated(), depth)
    }
}

/// A count as a `u64` holds it: itself, or the greatest `u64` where it is
/// greater.
pub open spec fn clipped(count: nat) -> u64 {
    if count > u64::MAX {
        u64::MAX
    } else {
        count as u64
    }
}

/// Counts the ways to play `depth` legal moves in a row from the position.
pub fn perft_driver(board_status: &BoardStatus, tables: &AttackTables, depth: usize) -> (r: u64)
    requires
        tables.wf(),
    ensures
        r == clipped(leaves(board_status@, depth as nat)),
    decreases depth,
{
    if depth == 0 {
        return 1;
    }
    let list = MoveList::generate(board_status, tables);
    let ghost pos = board_status@;
    let mut total: u64 = 0;
    let mut i: usize = 0;
    while i < list.moves.len()
        invariant
            tables.wf(),
            depth > 0,
            i <= list@.len(),
            pos == board_status@,
            total == clipped(leaves_over(pos, list@.take(i as int), depth as nat)),
        decreases list@.len() - i,
    {
        let mov = list.moves[i];
        let mut next = *board_status;
        let mut below: u64 = 0;
        if next.make_move(tables, mov) {
            if depth == 1 {
                below = 1;
            } else {
                below = perft_driver(&next, tables, depth - 1);
            }
        }
        proof {
            let upto = list@.take(i + 1);
            assert(upto.drop_last() =~= list@.take(i as int));
            assert(upto.last() == mov);
        }
        total = if total > u64::MAX - below {
            u64::MAX
        } else {
            total + below
        };
        i = i + 1;
    }
    proof {
        assert(list@.take(list@.len() as int) =~= list@);
    }
    total
}

/// For each legal move of the position, in the order in which the moves
/// are generated, the number of ways to go on with `depth - 1` legal moves.
pub fn perft_divide(board_status: &BoardStatus, tables: &AttackTables, depth: usize) -> (r: Vec<
    (MoveBitField, u64),
>)
    requires
        tables.wf(),
        depth > 0,
    ensures
        r@.len() == board_status@.legal_moves().len(),
        forall|i: int|
            0 <= i < r@.len() ==> (#[trigger] r@[i]).0 == board_status@.legal_moves()[i] && r@[i].1
                == clipped(leaves(board_status@.moved(r@[i].0), (depth - 1) as nat)),
{
    let list = MoveList::generate(board_status, tables);
    let legal = legal_of(board_status, tables, &list);
    let mut out: Vec<(MoveBitField, u64)> = Vec::new();
    let ghost pos = board_status@;
    let mut i: usize = 0;
    while i < legal.len()
        invariant
            tables.wf(),
            depth > 0,
            pos == board_status@,
            legal@ == pos.legal_moves(),
            i <= legal@.len(),
            out@.len() == i,
            forall|k: int|
                0 <= k < i ==> (#[trigger] out@[k]).0 == legal@[k] && out@[k].1 == clipped(
                    leaves(pos.moved(out@[k].0), (depth - 1) as nat),
                ),
        decreases legal@.len() - i,
    {
        let mov = legal[i];
        let mut next = *board_status;
        let made = next.make_move(tables, mov);
        proof {
            pos.lemma_legal_among_safe(pos.generated(), i as int);
        }
        let count = perft_driver(&next, tables, depth - 1);
        out.push((mov, count));
        i = i + 1;
    }
    out
}

impl Position {
    /// Every move of the legal moves among `moves` is one of `moves` and
    /// leaves the king safe.
    pub proof fn lemma_legal_among_safe(self, moves: Seq<MoveBitField>, i: int)
        requires
            0 <= i < self.legal_among(moves).len(),
        ensures
            self.leaves_king_safe(self.legal_among(moves)[i]),
            moves.contains(self.legal_among(moves)[i]),
        decreases moves.len(),
    {
        if moves.len() > 0 {
            let head = self.legal_among(moves.drop_last());
            if i < head.len() {
                self.lemma_legal_among_safe(moves.drop_last(), i);
                let m = head[i];
                let k = choose|k: int| 0 <= k < moves.drop_last().len() && moves.drop_last()[k] == m;
                assert(moves[k] == m);
            } else {
                assert(moves[moves.len() - 1] == moves.last());
            }
        }
    }
}

/// The figure that stands for a piece where a position is shown: the
/// filled figures for the white pieces, the outlined ones for the black;
/// any other character stands for itself.
pub open spec fn figure(c: char) -> char {
    if c == 'P' {
        '\u{265F}'
    } else if c == 'N' {
        '\u{265E}'
    } else if c == 'B' {
        '\u{265D}'
    } else if c == 'R' {
        '\u{265C}'
    } else if c == 'Q' {
        '\u{265B}'
    } else if c == 'K' {
        '\u{265A}'
    } else if c == 'p' {
        '\u{2659}'
    } else if c == 'n' {
        '\u{2658}'
    } else if c == 'b' {
        '\u{2657}'
    } else if c == 'r' {
        '\u{2656}'
    } else if c == 'q' {
        '\u{2655}'
    } else if c == 'k' {
        '\u{2654}'
    } else {
        c
    }
}

/// The figure that stands for a piece where a position is shown.
pub fn figure_of(c: char) -> (r: char)
    ensures
        r == figure(c),
{
    if c == 'P' {
        '\u{265F}'
    } else if c == 'N' {
        '\u{265E}'
    } else if c == 'B' {
        '\u{265D}'
    } else if c == 'R' {
        '\u{265C}'
    } else if c == 'Q' {
        '\u{265B}'
    } else if c == 'K' {
        '\u{265A}'
    } else if c == 'p' {
        '\u{2659}'
    } else if c == 'n' {
        '\u{2658}'
    } else if c == 'b' {
        '\u{2657}'
    } else if c == 'r' {
        '\u{2656}'
    } else if c == 'q' {
        '\u{2655}'
    } else if c == 'k' {
        '\u{2654}'
    } else {
        c
    }
}

/// A cursor over the cells, kept from running far off the board.
pub open spec fn held(square: int) -> int {
    if square < -64 {
        -64
    } else if square > 128 {
        128
    } else {
        square
    }
}

/// The cells of a board to be shown, as the placement field `s` fills them
/// from its `i`-th character on with the cursor on `square`: a digit moves
/// the cursor on by its number, a stroke moves it back to the start of the
/// rank below, and any other character puts its figure on the cell under the
/// cursor, if there is one, and moves the cursor on by one.
pub open spec fn shown_cells(s: Seq<char>, i: int, square: int, data: Seq<char>) -> Seq<char>
    decreases s.len() - i,
{
    if i < 0 || i >= s.len() {
        data
    } else if digit_value(s[i]) >= 0 {
        shown_cells(s, i + 1, held(square + digit_value(s[i])), data)
    } else if s[i] == '/' {
        shown_cells(s, i + 1, held(square - 16), data)
    } else {
        shown_cells(
            s,
            i + 1,
            held(square + 1),
            if 0 <= square < 64 {
                data.update(square, figure(s[i]))
            } else {
                data
            },
        )
    }
}

/// A position in notation as it is shown: a rule, the fields by their
/// names, the notation in one line, and the board with a figure for each
/// piece and a dot for each empty square.
pub open spec fn shown(n: Notation) -> Seq<char> {
    "\n----------------------------------------------------------------\nColor: "@ + n.color
        + ", Castles: "@ + n.castles + ", Enpassant: "@ + n.enpassant + ", Half_move: "@
        + n.half_move + " Full_move: "@ + n.full_move + "\n"@ + joined(n) + "\n"@ + board_text(
        shown_cells(n.board, 0, 56, Seq::new(64, |i: int| '.')),
    )
}

impl FenString {
    /// The position in notation as it is shown to a reader.
    pub fn adjust_board_display(&self) -> (r: String)
        ensures
            r@ == shown(self@),
    {
        let mut data: [char; 64] = ['.';64];
        proof {
            broadcast use vstd::array::axiom_spec_array_fill_for_copy_type;

            assert(data@ =~= Seq::new(64, |i: int| '.'));
        }
        let ghost blank = data@;
        let mut square: i16 = 56;
        let mut i: usize = 0;
        while i < self.board.len()
            invariant
                i <= self.board@.len(),
                -64 <= square <= 128,
                shown_cells(self.board@, 0, 56, blank) == shown_cells(
                    self.board@,
                    i as int,
                    square as int,
                    data@,
                ),
            decreases self.board@.len() - i,
        {
            let c = self.board[i];
            let step: i16 = match char_to_digit(c) {
                Some(d) => d as i16,
                None => {
                    if c == '/' {
                        -16
                    } else {
                        if 0 <= square && square < 64 {
                            data[square as usize] = figure_of(c);
                        }
                        1
                    }
                },
            };
            square = square + step;
            if square < -64 {
                square = -64;
            } else if square > 128 {
                square = 128;
            }
            i = i + 1;
        }
        let board = BitBoard::get_bitboard_string(&data);
        let fen = self.get_fen_string();
        let mut out: Vec<char> = Vec::new();
        push_str(
            &mut out,
            "\n----------------------------------------------------------------\nColor: ",
        );
        extend(&mut out, &self.color);
        push_str(&mut out, ", Castles: ");
        extend(&mut out, &self.castles);
        push_str(&mut out, ", Enpassant: ");
        extend(&mut out, &self.enpassant);
        push_str(&mut out, ", Half_move: ");
        extend(&mut out, &self.half_move);
        push_str(&mut out, " Full_move: ");
        extend(&mut out, &self.full_move);
        push_str(&mut out, "\n");
        push_str(&mut out, fen.as_str());
        push_str(&mut out, "\n");
        push_str(&mut out, board.as_str());
        proof {
            assert(out@ =~= shown(self@));
        }
        string_of(&out)
    }
}

} // verus!
