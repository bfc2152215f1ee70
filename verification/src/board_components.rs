//! Squares, directions, colours and bitboards: the geometry the engine is
//! built on.

use vstd::prelude::*;
use crate::text::{digit_char, digit_to_char, push_spaces, push_str, string_of};
use crate::bits::{
    drop_lowest, group_bits, isset, lemma_ext, lemma_lowest, lemma_popcount, lowest, popcount,
    single, squares,
};

verus! {

/// A 64-bit mask with one bit per square; its view is the set of squares
/// whose bit is set.
#[derive(Copy, Clone, Debug, PartialEq, Eq, Structural)]
pub struct BitBoard(pub u64);

impl View for BitBoard {
    type V = Set<int>;

    open spec fn view(&self) -> Set<int> {
        squares(self.0)
    }
}

impl Default for BitBoard {
    fn default() -> (r: Self)
        ensures
            r.0 == 0,
    {
        BitBoard(0)
    }
}

/// A square by its index: rank-major, file-minor, 0 at the bottom-left
/// corner. Its view is that index.
#[derive(Clone, Copy, Debug, PartialEq, Eq, Structural)]
pub struct Square(pub u8);

impl View for Square {
    type V = int;

    open spec fn view(&self) -> int {
        self.0 as int
    }
}

/// A signed step between square indices.
#[derive(Clone, Copy, Debug, PartialEq, Eq, Structural)]
pub struct Direction(pub i8);

/// The two sides.
#[derive(Clone, Copy, Debug, PartialEq, Eq, Structural)]
pub enum Color {
    White,
    Black,
}

/// A multiplier that hashes the occupancy of a slider's relevant squares to
/// an index of its attack table.
#[derive(Clone, Copy, Debug, PartialEq, Eq, Structural)]
pub struct MagicNum(pub u64);

/// One value per square.
pub struct ChessBoard<T>(pub [T; 64]);

/// The generator of candidate multipliers: a 32-bit xorshift sequence.
pub struct MagicNumGenerator(u32);

/// The state of the generator after the state `x`.
pub open spec fn xorshift32(x: u32) -> u32 {
    let a = x ^ (x << 13);
    let b = a ^ (a >> 17);
    b ^ (b << 5)
}

/// The state of the generator `count` steps after the state `x`.
pub open spec fn xorshift32_steps(x: u32, count: nat) -> u32
    decreases count,
{
    if count == 0 {
        x
    } else {
        xorshift32(xorshift32_steps(x, (count - 1) as nat))
    }
}

/// The 64-bit number made of the low halves of the four states that follow
/// `x`, the first in the lowest place.
pub open spec fn random_u64(x: u32) -> u64 {
    ((xorshift32_steps(x, 1) as u64) & 0xFFFF) | (((xorshift32_steps(x, 2) as u64) & 0xFFFF)
        << 16) | (((xorshift32_steps(x, 3) as u64) & 0xFFFF) << 32) | (((xorshift32_steps(
        x,
        4,
    ) as u64) & 0xFFFF) << 48)
}

/// The candidate multiplier drawn at the state `x`: three 64-bit numbers in
/// a row, and-ed together, so that few of its bits are set.
pub open spec fn sparse_candidate(x: u32) -> u64 {
    random_u64(x) & random_u64(xorshift32_steps(x, 4)) & random_u64(xorshift32_steps(x, 8))
}

/// The first state of the generator.
pub const GENERATOR_SEED: u32 = 1804289383;

/// The upper-case letter of a file, from 'A' for the first.
pub open spec fn upper_file_letter(file: int) -> char {
    if file == 0 {
        'A'
    } else if file == 1 {
        'B'
    } else if file == 2 {
        'C'
    } else if file == 3 {
        'D'
    } else if file == 4 {
        'E'
    } else if file == 5 {
        'F'
    } else if file == 6 {
        'G'
    } else {
        'H'
    }
}

/// The blank margin to the left of a board that is shown.
pub open spec fn margin() -> Seq<char> {
    Seq::new(20, |i: int| ' ')
}

/// The upper or lower line of the frame of a board that is shown.
pub open spec fn frame_line() -> Seq<char> {
    margin() + " "@ + "  "@ + "+-----------------+\n"@
}

/// The cells of one rank from file `file` on, each with a space behind it.
pub open spec fn cells(data: Seq<char>, rank: int, file: int) -> Seq<char>
    decreases 8 - file,
{
    if file >= 8 {
        Seq::empty()
    } else {
        seq![data[8 * rank + file], ' '] + cells(data, rank, file + 1)
    }
}

/// The line of one rank: its number, and its cells between two bars.
pub open spec fn rank_line(data: Seq<char>, rank: int) -> Seq<char> {
    margin() + seq![digit_char(rank + 1)] + "  "@ + "| "@ + cells(data, rank, 0) + "|\n"@
}

/// The lines of the ranks from `rank` down to the first.
pub open spec fn rank_lines(data: Seq<char>, rank: int) -> Seq<char>
    decreases rank + 1,
{
    if rank < 0 {
        Seq::empty()
    } else {
        rank_line(data, rank) + rank_lines(data, rank - 1)
    }
}

/// A board as it is shown: the eighth rank on top, a frame around the
/// cells, the numbers of the ranks to the left and the letters of the files
/// below.
pub open spec fn board_text(data: Seq<char>) -> Seq<char> {
    "\n"@ + frame_line() + rank_lines(data, 7) + frame_line() + "\n"@ + margin() + " "@ + "  "@
        + "  "@ + "A B C D E F G H "@ + "\n\n"@
}

/// Rank of a square index, 0 for the first rank.
pub open spec fn rank_of(s: int) -> int {
    s / 8
}

/// File of a square index, 0 for the a-file.
pub open spec fn file_of(s: int) -> int {
    s % 8
}

/// Index of the square on rank `r` and file `f`.
pub open spec fn square_at(r: int, f: int) -> int {
    8 * r + f
}

/// Rank `r` and file `f` name a square of the board.
pub open spec fn on_board(r: int, f: int) -> bool {
    0 <= r < 8 && 0 <= f < 8
}

/// Moving `dr` ranks and `df` files on the board is adding `8 * dr + df` to
/// the index.
pub proof fn lemma_square_shift(s: int, dr: int, df: int, t: int)
    requires
        0 <= s < 64,
    ensures
        (on_board(rank_of(s) + dr, file_of(s) + df) && t == s + 8 * dr + df) <==> (0 <= t < 64
            && rank_of(t) == rank_of(s) + dr && file_of(t) == file_of(s) + df),
{
}

impl BitBoard {
    /// The empty board.
    pub fn new() -> (r: Self)
        ensures
            r.0 == 0,
            r@ == Set::<int>::empty(),
    {
        proof {
            broadcast use group_bits;

            assert(squares(0) =~= Set::<int>::empty());
        }
        Self(0)
    }

    /// The board of the squares whose bits are set in `num`.
    pub fn from_u64(num: u64) -> (r: Self)
        ensures
            r.0 == num,
    {
        Self(num)
    }

    /// Whether the board holds the square.
    pub fn is_square_set(&self, square: Square) -> (r: bool)
        requires
            square.on_board(),
        ensures
            r == self@.contains(square@),
            r == isset(self.0, square@),
    {
        (self.0 >> (square.0 as u64)) & 1 == 1
    }

    /// Puts the square on the board.
    pub fn set_bit(&mut self, square: Square)
        requires
            square.on_board(),
        ensures
            final(self).0 == old(self).0 | single(square@),
            final(self)@ == old(self)@.insert(square@),
    {
        proof {
            broadcast use group_bits;

            assert(squares(self.0 | single(square@)) =~= squares(self.0).insert(square@));
        }
        self.0 = self.0 | (1u64 << (square.0 as u64));
    }

    /// Takes the square off the board if it is there, and puts it there if it
    /// is not.
    pub fn toggle_bit(&mut self, square: Square)
        requires
            square.on_board(),
        ensures
            final(self).0 == old(self).0 ^ single(square@),
            final(self)@ == if old(self)@.contains(square@) {
                old(self)@.remove(square@)
            } else {
                old(self)@.insert(square@)
            },
    {
        proof {
            broadcast use group_bits;

            let t = self.0 ^ single(square@);
            if isset(self.0, square@) {
                assert(squares(t) =~= squares(self.0).remove(square@));
            } else {
                assert(squares(t) =~= squares(self.0).insert(square@));
            }
        }
        self.0 = self.0 ^ (1u64 << (square.0 as u64));
    }

    /// Moves every square `shift` indices down; squares that would leave the
    /// board are dropped.
    pub fn shift_board_left(&mut self, shift: u8)
        ensures
            forall|s: int|
                final(self)@.contains(s) == (0 <= s && s + shift < 64 && old(self)@.contains(
                    s + shift,
                )),
    {
        proof {
            broadcast use group_bits;

        }
        if shift >= 64 {
            self.0 = 0;
        } else {
            self.0 = self.0 >> (shift as u64);
        }
    }

    /// Moves every square `shift` indices up; squares that would leave the
    /// board are dropped.
    pub fn shift_board_right(&mut self, shift: u8)
        ensures
            forall|s: int|
                final(self)@.contains(s) == (s < 64 && old(self)@.contains(s - shift)),
    {
        proof {
            broadcast use group_bits;

        }
        if shift >= 64 {
            self.0 = 0;
        } else {
            self.0 = self.0 << (shift as u64);
        }
    }

    /// Moves every square `shift` ranks up.
    pub fn shift_board_up(&mut self, shift: u8)
        ensures
            forall|s: int|
                final(self)@.contains(s) == (s < 64 && old(self)@.contains(s - 8 * shift)),
    {
        if shift >= 8 {
            proof {
                broadcast use group_bits;

            }
            self.0 = 0;
        } else {
            self.shift_board_right(shift * 8);
        }
    }

    /// Moves every square `shift` ranks down.
    pub fn shift_board_down(&mut self, shift: u8)
        ensures
            forall|s: int|
                final(self)@.contains(s) == (0 <= s && s + 8 * shift < 64 && old(self)@.contains(
                    s + 8 * shift,
                )),
    {
        if shift >= 8 {
            proof {
                broadcast use group_bits;

            }
            self.0 = 0;
        } else {
            self.shift_board_left(shift * 8);
        }
    }

    /// The number of squares of the board.
    pub fn count_ones(&self) -> (r: u32)
        ensures
            r == self@.len(),
            r == popcount(self.0),
            r <= 64,
    {
        let mut rest: u64 = self.0;
        let mut count: u32 = 0;
        proof {
            lemma_popcount(self.0);
        }
        while rest != 0
            invariant
                count + popcount(rest) == popcount(self.0),
                popcount(self.0) <= 64,
            decreases rest,
        {
            proof {
                lemma_lowest(rest);
            }
            rest = rest & (rest - 1);
            count = count + 1;
        }
        count
    }

    /// Index of the lowest square, 64 for the empty board.
    pub fn trailing_zeros(&self) -> (r: u32)
        ensures
            r == lowest(self.0),
            self.0 == 0 ==> r == 64,
            self.0 != 0 ==> r < 64 && self@.contains(r as int) && forall|s: int|
                self@.contains(s) ==> r <= s,
    {
        proof {
            vstd::std_specs::bits::axiom_u64_trailing_zeros(self.0);
            if self.0 != 0 {
                lemma_lowest(self.0);
            }
        }
        self.0.trailing_zeros()
    }

    /// The cells given, shown as a board.
    pub fn get_bitboard_string(data: &[char; 64]) -> (r: String)
        ensures
            r@ == board_text(data@),
    {
        string_of(&board_chars(data))
    }

    /// The board shown with a one on each of its squares and a zero on each
    /// of the others.
    pub fn to_text(&self) -> (r: String)
        ensures
            r@ == board_text(Seq::new(64, |s: int| if isset(self.0, s) { '1' } else { '0' })),
    {
        let mut data: [char; 64] = ['0';64];
        let mut square: u8 = 0;
        proof {
            broadcast use vstd::array::axiom_spec_array_fill_for_copy_type;

        }
        while square < 64
            invariant
                square <= 64,
                forall|s: int|
                    0 <= s < square ==> #[trigger] data@[s] == (if isset(self.0, s) {
                        '1'
                    } else {
                        '0'
                    }),
            decreases 64 - square,
        {
            let mark = if self.is_square_set(Square(square)) {
                '1'
            } else {
                '0'
            };
            data[square as usize] = mark;
            square = square + 1;
        }
        proof {
            assert(data@ =~= Seq::new(64, |s: int| if isset(self.0, s) { '1' } else { '0' }));
        }
        Self::get_bitboard_string(&data)
    }

    /// The lowest square of the board; the square with index 64, which is no
    /// square, for the empty board.
    pub fn get_lsb_index(&self) -> (r: Square)
        ensures
            r@ == lowest(self.0),
            self.0 != 0 ==> r.on_board() && self@.contains(r@),
            self.0 == 0 ==> r@ == 64,
    {
        Square(self.trailing_zeros() as u8)
    }

    /// Takes the lowest square out of a board that has one.
    pub fn pop_square(&mut self) -> (r: Square)
        requires
            old(self).0 != 0,
        ensures
            r@ == lowest(old(self).0),
            r.on_board(),
            old(self)@.contains(r@),
            forall|s: int| old(self)@.contains(s) ==> r@ <= s,
            final(self).0 == drop_lowest(old(self).0),
            final(self).0 < old(self).0,
            final(self)@ == old(self)@.remove(r@),
    {
        proof {
            lemma_lowest(self.0);
            assert(squares(drop_lowest(self.0)) =~= squares(self.0).remove(lowest(self.0)));
        }
        let result = Square(self.0.trailing_zeros() as u8);
        self.0 = self.0 & (self.0 - 1);
        result
    }

    /// The squares of either board.
    pub fn union(self, other: BitBoard) -> (r: BitBoard)
        ensures
            r.0 == self.0 | other.0,
            r@ == self@.union(other@),
    {
        proof {
            broadcast use group_bits;

            assert(squares(self.0 | other.0) =~= squares(self.0).union(squares(other.0)));
        }
        BitBoard(self.0 | other.0)
    }

    /// The squares of both boards.
    pub fn intersect(self, other: BitBoard) -> (r: BitBoard)
        ensures
            r.0 == self.0 & other.0,
            r@ == self@.intersect(other@),
    {
        proof {
            broadcast use group_bits;

            assert(squares(self.0 & other.0) =~= squares(self.0).intersect(squares(other.0)));
        }
        BitBoard(self.0 & other.0)
    }

    /// The squares that the board lacks.
    pub fn complement(self) -> (r: BitBoard)
        ensures
            r.0 == !self.0,
            forall|s: int| r@.contains(s) == (0 <= s < 64 && !self@.contains(s)),
    {
        proof {
            broadcast use group_bits;

        }
        BitBoard(!self.0)
    }

    /// Boards are equal exactly when they hold the same squares.
    pub proof fn lemma_view_injective(a: BitBoard, b: BitBoard)
        requires
            a@ == b@,
        ensures
            a == b,
    {
        assert forall|s: int| 0 <= s < 64 implies isset(a.0, s) == isset(b.0, s) by {
            assert(squares(a.0).contains(s) == isset(a.0, s));
            assert(squares(b.0).contains(s) == isset(b.0, s));
        }
        lemma_ext(a.0, b.0);
    }
}

impl MagicNumGenerator {
    /// The state the next number is computed from.
    pub closed spec fn state(&self) -> u32 {
        self.0
    }

    /// The generator at its first state.
    pub fn new() -> (r: Self)
        ensures
            r.state() == GENERATOR_SEED,
    {
        Self(GENERATOR_SEED)
    }

    /// Steps the generator once and returns its new state.
    pub fn get_random_u32(&mut self) -> (r: u32)
        ensures
            final(self).state() == xorshift32(old(self).state()),
            r == final(self).state(),
    {
        self.0 = self.0 ^ (self.0 << 13);
        self.0 = self.0 ^ (self.0 >> 17);
        self.0 = self.0 ^ (self.0 << 5);
        self.0
    }

    /// Steps the generator four times and returns the low halves of the four
    /// states as one number.
    pub fn get_random_u64(&mut self) -> (r: u64)
        ensures
            final(self).state() == xorshift32_steps(old(self).state(), 4),
            r == random_u64(old(self).state()),
    {
        proof {
            reveal_with_fuel(xorshift32_steps, 5);
        }
        let n1: u64 = (self.get_random_u32() as u64) & 0xFFFF;
        let n2: u64 = (self.get_random_u32() as u64) & 0xFFFF;
        let n3: u64 = (self.get_random_u32() as u64) & 0xFFFF;
        let n4: u64 = (self.get_random_u32() as u64) & 0xFFFF;
        n1 | (n2 << 16) | (n3 << 32) | (n4 << 48)
    }

    /// Draws the next candidate multiplier.
    pub fn gen(&mut self) -> (r: MagicNum)
        ensures
            final(self).state() == xorshift32_steps(old(self).state(), 12),
            r.0 == sparse_candidate(old(self).state()),
    {
        proof {
            lemma_steps_add(self.0, 4, 4);
            lemma_steps_add(self.0, 8, 4);
        }
        let a = self.get_random_u64();
        let b = self.get_random_u64();
        let c = self.get_random_u64();
        MagicNum(a & b & c)
    }
}

/// Stepping the generator `a` times and then `b` times is stepping it
/// `a + b` times.
pub proof fn lemma_steps_add(x: u32, a: nat, b: nat)
    ensures
        xorshift32_steps(xorshift32_steps(x, a), b) == xorshift32_steps(x, a + b),
    decreases b,
{
    if b > 0 {
        lemma_steps_add(x, a, (b - 1) as nat);
    }
}

/// Appends the frame line of a board that is shown.
fn push_frame_line(out: &mut Vec<char>)
    ensures
        final(out)@ == old(out)@ + frame_line(),
{
    push_spaces(out, 20);
    push_str(out, " ");
    push_str(out, "  ");
    push_str(out, "+-----------------+\n");
    proof {
        assert(out@ =~= old(out)@ + frame_line());
    }
}

/// Appends the line of one rank of a board that is shown.
fn push_rank_line(out: &mut Vec<char>, data: &[char; 64], rank: u8)
    requires
        rank < 8,
    ensures
        final(out)@ == old(out)@ + rank_line(data@, rank as int),
{
    push_spaces(out, 20);
    out.push(digit_to_char(rank + 1));
    push_str(out, "  ");
    push_str(out, "| ");
    let ghost before = out@;
    let mut file: u8 = 0;
    while file < 8
        invariant
            file <= 8,
            rank < 8,
            out@ + cells(data@, rank as int, file as int) == before + cells(
                data@,
                rank as int,
                0,
            ),
        decreases 8 - file,
    {
        let ghost list = out@;
        out.push(data[(8 * rank + file) as usize]);
        out.push(' ');
        proof {
            let cell = seq![data@[8 * rank + file], ' '];
            let rest = cells(data@, rank as int, file + 1);
            assert(out@ =~= list + cell);
            assert((list + cell) + rest =~= list + (cell + rest));
        }
        file = file + 1;
    }
    push_str(out, "|\n");
    proof {
        assert(out@ =~= old(out)@ + rank_line(data@, rank as int));
    }
}

/// The characters of the cells given, shown as a board.
fn board_chars(data: &[char; 64]) -> (r: Vec<char>)
    ensures
        r@ == board_text(data@),
{
    let mut out: Vec<char> = Vec::new();
    push_str(&mut out, "\n");
    push_frame_line(&mut out);
    let ghost top = out@;
    let mut rank: u8 = 8;
    while rank > 0
        invariant
            rank <= 8,
            out@ + rank_lines(data@, rank - 1) == top + rank_lines(data@, 7),
        decreases rank,
    {
        rank = rank - 1;
        let ghost list = out@;
        push_rank_line(&mut out, data, rank);
        proof {
            let line = rank_line(data@, rank as int);
            let rest = rank_lines(data@, rank - 1);
            assert((list + line) + rest =~= list + (line + rest));
        }
    }
    let ghost ranks = out@;
    proof {
        assert(ranks =~= top + rank_lines(data@, 7));
    }
    push_frame_line(&mut out);
    push_str(&mut out, "\n");
    push_spaces(&mut out, 20);
    push_str(&mut out, " ");
    push_str(&mut out, "  ");
    push_str(&mut out, "  ");
    push_str(&mut out, "A B C D E F G H ");
    push_str(&mut out, "\n\n");
    proof {
        assert(out@ =~= board_text(data@));
    }
    out
}

impl Square {
    /// The index names one of the 64 squares.
    pub open spec fn on_board(self) -> bool {
        self.0 < 64
    }

    /// The file of the square, 0 for the a-file.
    pub fn get_file(&self) -> (r: u8)
        ensures
            r == file_of(self@),
            r < 8,
    {
        self.0 % 8
    }

    /// The rank of the square, 0 for the first rank.
    pub fn get_rank(&self) -> (r: u8)
        ensures
            r == rank_of(self@),
            self.on_board() ==> r < 8,
    {
        self.0 / 8
    }

    /// The name of the square in upper case: the letter of its file, then
    /// the number of its rank.
    pub open spec fn name(self) -> Seq<char> {
        seq![upper_file_letter(file_of(self@)), digit_char(rank_of(self@) + 1)]
    }

    /// The name of the square in upper case.
    pub fn get_name(&self) -> (r: String)
        requires
            self.on_board(),
        ensures
            r@ == self.name(),
    {
        let file = self.0 % 8;
        let letter = if file == 0 {
            'A'
        } else if file == 1 {
            'B'
        } else if file == 2 {
            'C'
        } else if file == 3 {
            'D'
        } else if file == 4 {
            'E'
        } else if file == 5 {
            'F'
        } else if file == 6 {
            'G'
        } else {
            'H'
        };
        let mut out: Vec<char> = Vec::new();
        out.push(letter);
        out.push(digit_to_char(self.0 / 8 + 1));
        proof {
            assert(out@ =~= self.name());
        }
        string_of(&out)
    }

    /// The square reached by one step, where the step stays within `u8`.
    pub fn plus(self, dir: Direction) -> (r: Square)
        requires
            0 <= self.0 + dir.0 <= 255,
        ensures
            r@ == self@ + dir.0,
    {
        Square((self.0 as i16 + dir.0 as i16) as u8)
    }

    /// The squares with the indices from `start` up to, but not including,
    /// `end`.
    pub fn create_squares(start: u8, end: u8) -> (r: Vec<Square>)
        ensures
            r@.len() == if start <= end {
                end - start
            } else {
                0
            },
            forall|i: int| 0 <= i < r@.len() ==> (#[trigger] r@[i])@ == start + i,
    {
        let mut out: Vec<Square> = Vec::new();
        let mut cur: u8 = start;
        while cur < end
            invariant
                start <= cur || out@.len() == 0,
                cur <= end || out@.len() == 0,
                start <= end ==> start <= cur <= end,
                start > end ==> cur == start,
                out@.len() == cur - start,
                forall|i: int| 0 <= i < out@.len() ==> (#[trigger] out@[i])@ == start + i,
            decreases end - cur,
        {
            out.push(Square(cur));
            cur = cur + 1;
        }
        out
    }
}

impl Direction {
    /// The step repeated `count` times.
    pub fn times(self, count: u8) -> (r: Direction)
        requires
            -128 <= self.0 * count <= 127,
        ensures
            r.0 == self.0 * count,
    {
        Direction((self.0 as i32 * count as i32) as i8)
    }
}

/// The other colour.
pub open spec fn opponent(color: Color) -> Color {
    match color {
        Color::White => Color::Black,
        Color::Black => Color::White,
    }
}

impl Color {
    /// The other side.
    pub fn other(self) -> (r: Color)
        ensures
            r == opponent(self),
    {
        match self {
            Color::White => Color::Black,
            Color::Black => Color::White,
        }
    }
}

impl<T> ChessBoard<T> {
    /// The board of the values given, the value of the first square first.
    pub fn from(data: [T; 64]) -> (r: Self)
        ensures
            r.0 == data,
    {
        Self(data)
    }

    /// The value of a square.
    pub fn get(&self, square: Square) -> (r: &T)
        requires
            square.on_board(),
        ensures
            *r == self.0[square@],
    {
        &self.0[square.0 as usize]
    }

    /// Replaces the value of a square.
    pub fn set(&mut self, square: Square, value: T)
        requires
            square.on_board(),
        ensures
            final(self).0@ == old(self).0@.update(square@, value),
    {
        self.0[square.0 as usize] = value;
    }
}

} // verus!
