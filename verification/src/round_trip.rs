//! Writing a position in notation and reading it back gives the position.

use vstd::prelude::*;
use crate::bits::{group_bits, isset, lemma_ext};
use crate::board_components::Color;
use crate::debug::{
    field, first_mark, holds, is_blank, joined, last_mark, letter_of_piece, notation_of,
    piece_of_letter, position_of, read_castles, read_rows, run_mark, space_from, square_name,
    square_of_name, trimmed, write_castles, write_rank, write_rows, FenError, Notation,
};
use crate::pieces::pieces_controller::Position;
use crate::text::{decimal, digit_char, digit_value, lemma_number_of_decimal, number};

verus! {

/// The square that is written in the `k`-th place: the ranks from the
/// eighth down, each from the first file up.
pub open spec fn square_in_order(k: int) -> int {
    8 * (7 - k / 8) + k % 8
}

/// The place in which a square is written.
pub open spec fn order_of(s: int) -> int {
    8 * (7 - s / 8) + s % 8
}

/// The position with the pieces of `pos` on the first `k` squares in the
/// order of writing, and none on the others.
pub open spec fn partial(pos: Position, k: nat) -> Position
    decreases k,
{
    if k == 0 {
        Position { boards: Seq::new(15, |i: int| 0u64), ..pos }
    } else if pos.occupant(square_in_order(k - 1)) >= 0 {
        partial(pos, (k - 1) as nat).put(
            pos.occupant(square_in_order(k - 1)),
            square_in_order(k - 1),
        )
    } else {
        partial(pos, (k - 1) as nat)
    }
}

/// The masks of a partial position hold the squares of the masks of the
/// position that come among the first `k`.
pub proof fn lemma_partial(pos: Position, k: nat)
    requires
        pos.wf(),
        k <= 64,
    ensures
        partial(pos, k).boards.len() == 15,
        partial(pos, k) == (Position { boards: partial(pos, k).boards, ..pos }),
        forall|i: int, s: int|
            0 <= i < 15 ==> #[trigger] isset(partial(pos, k).slot(i), s) == (isset(
                pos.slot(i),
                s,
            ) && order_of(s) < k),
    decreases k,
{
    broadcast use group_bits;

    if k > 0 {
        let prev = partial(pos, (k - 1) as nat);
        lemma_partial(pos, (k - 1) as nat);
        let t = square_in_order(k - 1);
        assert(0 <= t < 64 && order_of(t) == k - 1);
        assert(pos.sound_at(t));
        pos.lemma_occupant(t);
        let o = pos.occupant(t);
        let now = partial(pos, k);
        assert forall|i: int, s: int| 0 <= i < 15 implies #[trigger] isset(now.slot(i), s) == (isset(
            pos.slot(i),
            s,
        ) && order_of(s) < k) by {
            if 0 <= s < 64 {
                assert(order_of(s) == k - 1 <==> s == t);
            }
            assert(isset(prev.slot(i), s) == (isset(pos.slot(i), s) && order_of(s) < k - 1));
            if o >= 0 {
                prev.lemma_put(o, t, i);
            }
        }
        if o >= 0 {
            prev.lemma_put(o, t, 0);
        }
    }
}

/// The partial position of all squares is the position.
pub proof fn lemma_partial_full(pos: Position)
    requires
        pos.wf(),
    ensures
        partial(pos, 64) == pos,
{
    lemma_partial(pos, 64);
    let full = partial(pos, 64);
    assert forall|i: int| 0 <= i < 15 implies full.boards[i] == pos.boards[i] by {
        assert forall|s: int| 0 <= s < 64 implies isset(full.slot(i), s) == isset(
            pos.slot(i),
            s,
        ) by {
            assert(order_of(s) < 64);
        }
        lemma_ext(full.slot(i), pos.slot(i));
    }
    assert(full.boards =~= pos.boards);
}

/// What is still to be written of the placement field once the squares of
/// rank `rank` before file `file` are written, the last `run` of them
/// empty.
pub open spec fn rest_text(pos: Position, rank: int, file: int, run: int) -> Seq<char> {
    write_rank(pos, rank, file, run) + (if rank > 0 {
        seq!['/'] + write_rows(pos, rank - 1)
    } else {
        Seq::empty()
    })
}

/// Where a text goes on with `head` and then `tail`, it goes on with
/// `tail` behind `head`.
pub proof fn lemma_skip_prefix(text: Seq<char>, i: int, head: Seq<char>, tail: Seq<char>)
    requires
        0 <= i <= text.len(),
        text.skip(i) == head + tail,
    ensures
        i + head.len() <= text.len(),
        text.skip(i + head.len()) == tail,
        forall|j: int| 0 <= j < head.len() ==> text[i + j] == head[j],
{
    let rest = text.skip(i);
    assert(rest.len() == head.len() + tail.len());
    assert forall|j: int| 0 <= j < head.len() implies text[i + j] == head[j] by {
        assert(rest[j] == text[i + j]);
        assert((head + tail)[j] == head[j]);
    }
    assert forall|j: int| 0 <= j < tail.len() implies text.skip(i + head.len())[j] == tail[j] by {
        assert(rest[head.len() + j] == text[i + head.len() + j]);
        assert((head + tail)[head.len() + j] == tail[j]);
    }
    assert(text.skip(i + head.len()) =~= tail);
}

/// A digit from one to eight is read as its number and is no stroke.
pub proof fn lemma_digit(run: int)
    requires
        1 <= run <= 8,
    ensures
        digit_value(digit_char(run)) == run,
        digit_char(run) != '/',
{
}

/// The letter of a piece is read as the piece, and is neither a stroke nor
/// a digit.
pub proof fn lemma_letter(piece: int)
    requires
        0 <= piece < 12,
    ensures
        piece_of_letter(letter_of_piece(piece)) == piece,
        digit_value(letter_of_piece(piece)) == -1,
        letter_of_piece(piece) != '/',
{
}

/// Reading the rest of the written placement field, from where the writing
/// stood, gives the pieces of the position on all squares.
pub proof fn lemma_read_back(
    pos: Position,
    text: Seq<char>,
    i: int,
    rank: int,
    file: int,
    run: int,
)
    requires
        pos.wf(),
        0 <= i <= text.len(),
        text.skip(i) == rest_text(pos, rank, file, run),
        0 <= rank < 8,
        0 <= run <= file <= 8,
    ensures
        read_rows(text, i, rank, file - run, partial(pos, ((7 - rank) * 8 + file) as nat)) == Some(
            partial(pos, 64),
        ),
    decreases rank, 8 - file,
{
    let k = ((7 - rank) * 8 + file) as nat;
    let cur = partial(pos, k);
    let rest = rest_text(pos, rank, file, run);
    let below = if rank > 0 {
        seq!['/'] + write_rows(pos, rank - 1)
    } else {
        Seq::<char>::empty()
    };
    assert(forall|j: int| 0 <= j < rest.len() ==> text[i + j] == #[trigger] text.skip(i)[j]);
    assert(text.len() - i == rest.len());
    if file < 8 {
        let s = 8 * rank + file;
        assert(square_in_order(k as int) == s);
        let o = pos.occupant(s);
        pos.lemma_occupant(s);
        if o < 0 {
            assert(partial(pos, k + 1) == cur);
            lemma_read_back(pos, text, i, rank, file + 1, run + 1);
        } else {
            let tail = write_rank(pos, rank, file + 1, 0);
            assert(write_rank(pos, rank, file, run) == run_mark(run) + seq![letter_of_piece(o)]
                + tail);
            lemma_letter(o);
            let next = cur.put(o, s);
            assert(partial(pos, k + 1) == next);
            let head = run_mark(run) + seq![letter_of_piece(o)];
            assert(rest =~= head + rest_text(pos, rank, file + 1, 0));
            lemma_skip_prefix(text, i, head, rest_text(pos, rank, file + 1, 0));
            if run > 0 {
                lemma_digit(run);
                assert(head[0] == digit_char(run));
                assert(head[1] == letter_of_piece(o));
                assert(text[i] == digit_char(run));
                assert(text[i + 1] == letter_of_piece(o));
                lemma_read_back(pos, text, i + 2, rank, file + 1, 0);
                assert(read_rows(text, i + 1, rank, file, cur) == read_rows(
                    text,
                    i + 2,
                    rank,
                    file + 1,
                    next,
                ));
                assert(read_rows(text, i, rank, file - run, cur) == read_rows(
                    text,
                    i + 1,
                    rank,
                    file,
                    cur,
                ));
            } else {
                assert(head[0] == letter_of_piece(o));
                assert(text[i] == letter_of_piece(o));
                lemma_read_back(pos, text, i + 1, rank, file + 1, 0);
                assert(read_rows(text, i, rank, file, cur) == read_rows(
                    text,
                    i + 1,
                    rank,
                    file + 1,
                    next,
                ));
            }
        }
    } else {
        assert(write_rank(pos, rank, file, run) == run_mark(run));
        let j = if run > 0 {
            i + 1
        } else {
            i
        };
        lemma_skip_prefix(text, i, run_mark(run), below);
        if run > 0 {
            lemma_digit(run);
            assert(run_mark(run)[0] == digit_char(run));
            assert(text[i] == digit_char(run));
            assert(read_rows(text, i, rank, file - run, cur) == read_rows(text, j, rank, 8, cur));
        }
        assert(text.skip(j) == below);
        if rank > 0 {
            lemma_skip_prefix(text, j, seq!['/'], write_rows(pos, rank - 1));
            assert(seq!['/'][0] == '/');
            assert(text[j] == '/');
            assert(write_rows(pos, rank - 1) =~= rest_text(pos, rank - 1, 0, 0)) by {
                if rank - 1 > 0 {
                    assert(write_rows(pos, rank - 1) =~= write_rank(pos, rank - 1, 0, 0) + (
                    seq!['/'] + write_rows(pos, rank - 2)));
                }
            }
            lemma_read_back(pos, text, j + 1, rank - 1, 0, 0);
            assert(read_rows(text, j, rank, 8, cur) == read_rows(text, j + 1, rank - 1, 0, cur));
        } else {
            assert(j == text.len());
            assert(k == 64);
        }
    }
}

/// Reading a set of castling rights that was written gives the rights.
pub proof fn lemma_castles_back(castles: u8)
    requires
        castles < 16,
    ensures
        read_castles(write_castles(castles)) == Some(castles),
{
    let k = castles & 1 != 0;
    let q = castles & 2 != 0;
    let bk = castles & 4 != 0;
    let bq = castles & 8 != 0;
    assert(castles < 16 ==> castles == (if castles & 1 != 0 {
        1u8
    } else {
        0u8
    }) + (if castles & 2 != 0 {
        2u8
    } else {
        0u8
    }) + (if castles & 4 != 0 {
        4u8
    } else {
        0u8
    }) + (if castles & 8 != 0 {
        8u8
    } else {
        0u8
    }) && (castles & 15 == 0 <==> castles == 0)) by (bit_vector);
    let text = write_castles(castles);
    let a = if k {
        seq!['K']
    } else {
        Seq::<char>::empty()
    };
    let b = if q {
        seq!['Q']
    } else {
        Seq::<char>::empty()
    };
    let c = if bk {
        seq!['k']
    } else {
        Seq::<char>::empty()
    };
    let d = if bq {
        seq!['q']
    } else {
        Seq::<char>::empty()
    };
    if castles == 0 {
        assert(text == seq!['-']);
        assert(!holds(text, 'K') && !holds(text, 'Q') && !holds(text, 'k') && !holds(text, 'q'));
    } else {
        assert(text == a + b + c + d);
        lemma_holds_add(a + b + c, d, 'K');
        lemma_holds_add(a + b, c, 'K');
        lemma_holds_add(a, b, 'K');
        lemma_holds_add(a + b + c, d, 'Q');
        lemma_holds_add(a + b, c, 'Q');
        lemma_holds_add(a, b, 'Q');
        lemma_holds_add(a + b + c, d, 'k');
        lemma_holds_add(a + b, c, 'k');
        lemma_holds_add(a, b, 'k');
        lemma_holds_add(a + b + c, d, 'q');
        lemma_holds_add(a + b, c, 'q');
        lemma_holds_add(a, b, 'q');
        lemma_holds_one(a, 'K', k);
        lemma_holds_one(b, 'Q', q);
        lemma_holds_one(c, 'k', bk);
        lemma_holds_one(d, 'q', bq);
        assert(text.len() > 0);
    }
    assert(forall|i: int|
        0 <= i < text.len() ==> text[i] == 'K' || text[i] == 'Q' || text[i] == 'k' || text[i] == 'q'
            || text[i] == '-');
}

/// A letter occurs in two texts in a row where it occurs in one of them.
pub proof fn lemma_holds_add(a: Seq<char>, b: Seq<char>, c: char)
    ensures
        holds(a + b, c) == (holds(a, c) || holds(b, c)),
{
    if holds(a, c) {
        let i = choose|i: int| 0 <= i < a.len() && a[i] == c;
        assert((a + b)[i] == c);
    }
    if holds(b, c) {
        let i = choose|i: int| 0 <= i < b.len() && b[i] == c;
        assert((a + b)[a.len() + i] == c);
    }
    if holds(a + b, c) {
        let i = choose|i: int| 0 <= i < (a + b).len() && (a + b)[i] == c;
        if i < a.len() {
            assert(a[i] == c);
        } else {
            assert(b[i - a.len()] == c);
        }
    }
}

/// The text of one letter, or of none, holds that letter where it is
/// there, and no other.
pub proof fn lemma_holds_one(text: Seq<char>, letter: char, there: bool)
    requires
        text == (if there {
            seq![letter]
        } else {
            Seq::<char>::empty()
        }),
    ensures
        forall|c: char| holds(text, c) == (there && c == letter),
{
    assert forall|c: char| holds(text, c) == (there && c == letter) by {
        if there && c == letter {
            assert(text[0] == c);
        }
    }
}

/// Reading the name of a square that was written gives the square, and no
/// name of a square is a dash.
pub proof fn lemma_square_back(s: int)
    requires
        0 <= s < 64,
    ensures
        square_of_name(square_name(s)) == s,
        square_name(s) != seq!['-'],
{
    let name = square_name(s);
    assert(name.len() == 2);
    assert(seq!['-'].len() == 1);
    lemma_digit(s / 8 + 1);
}

/// Writing a sound position in notation and reading the notation gives the
/// position.
pub proof fn lemma_round_trip(pos: Position)
    requires
        pos.wf(),
    ensures
        position_of(notation_of(pos)) == Ok::<Position, FenError>(pos),
{
    let n = notation_of(pos);
    assert(seq!['w'][0] == 'w');
    assert(seq!['b'][0] == 'b');
    lemma_castles_back(pos.castles);
    if 0 <= pos.enpassant < 64 {
        lemma_square_back(pos.enpassant);
    }
    lemma_number_of_decimal(pos.half_move);
    lemma_number_of_decimal(pos.full_move);
    let start = Position { boards: Seq::new(15, |i: int| 0u64), ..pos };
    assert(partial(pos, 0) == start);
    assert(n.board.skip(0) =~= n.board);
    assert(write_rows(pos, 7) =~= rest_text(pos, 7, 0, 0)) by {
        assert(write_rows(pos, 7) =~= write_rank(pos, 7, 0, 0) + (seq!['/'] + write_rows(pos, 6)));
    }
    lemma_read_back(pos, n.board, 0, 7, 0, 0);
    lemma_partial_full(pos);
}

/// The position read from a placement field is sound, where the position
/// that held what was read before is a board whose squares from the next to
/// fill on are empty.
pub proof fn lemma_read_rows_sound(
    text: Seq<char>,
    i: int,
    rank: int,
    file: int,
    cur: Position,
    f: spec_fn(int) -> int,
)
    requires
        0 <= i,
        0 <= rank < 8,
        0 <= file <= 8,
        cur.follows(f),
        forall|s: int| 0 <= s < 64 && order_of(s) >= (7 - rank) * 8 + file ==> #[trigger] f(s) == -1,
        read_rows(text, i, rank, file, cur) is Some,
    ensures
        read_rows(text, i, rank, file, cur)->0.sound(),
        read_rows(text, i, rank, file, cur)->0 == (Position {
            boards: read_rows(text, i, rank, file, cur)->0.boards,
            ..cur
        }),
    decreases text.len() - i,
{
    if i >= text.len() {
        cur.lemma_follows_sound(f);
    } else if text[i] == '/' {
        lemma_read_rows_sound(text, i + 1, rank - 1, 0, cur, f);
    } else if 1 <= digit_value(text[i]) <= 8 {
        lemma_read_rows_sound(text, i + 1, rank, file + digit_value(text[i]), cur, f);
    } else {
        let piece = piece_of_letter(text[i]);
        let t = 8 * rank + file;
        assert(order_of(t) == (7 - rank) * 8 + file);
        cur.lemma_put_follows(f, piece, t);
        let g = |s: int|
            if s == t {
                piece
            } else {
                f(s)
            };
        assert forall|s: int| 0 <= s < 64 && order_of(s) >= (7 - rank) * 8 + file + 1 implies #[trigger] g(
            s,
        ) == -1 by {
            assert(f(s) == -1);
        }
        lemma_read_rows_sound(text, i + 1, rank, file + 1, cur.put(piece, t), g);
    }
}

/// Every position that is read from a notation is sound.
pub proof fn lemma_position_of_wf(n: Notation)
    requires
        position_of(n) is Ok,
    ensures
        position_of(n)->Ok_0.wf(),
{
    broadcast use group_bits;

    let pos = position_of(n)->Ok_0;
    let castles = read_castles(n.castles)->0;
    let enpassant = if n.enpassant == seq!['-'] {
        64
    } else {
        square_of_name(n.enpassant)
    };
    let color = if n.color == seq!['w'] {
        Some(Color::White)
    } else if n.color == seq!['b'] {
        Some(Color::Black)
    } else {
        None
    };
    let start = Position {
        boards: Seq::new(15, |i: int| 0u64),
        color: color->0,
        castles,
        enpassant,
        half_move: number(n.half_move)->0,
        full_move: number(n.full_move)->0,
    };
    let f = |s: int| -1int;
    assert(start.follows(f));
    lemma_read_rows_sound(n.board, 0, 7, 0, start, f);
    assert(pos == read_rows(n.board, 0, 7, 0, start)->0);
    assert(castles < 16);
    assert(0 <= enpassant <= 64);
}

/// No character of the text is a blank.
pub open spec fn unbroken(text: Seq<char>) -> bool {
    forall|i: int| 0 <= i < text.len() ==> !is_blank(#[trigger] text[i])
}

/// Two texts without a blank make one in a row.
pub proof fn lemma_unbroken_add(a: Seq<char>, b: Seq<char>)
    requires
        unbroken(a),
        unbroken(b),
    ensures
        unbroken(a + b),
{
    assert forall|i: int| 0 <= i < (a + b).len() implies !is_blank(#[trigger] (a + b)[i]) by {
        if i < a.len() {
            assert((a + b)[i] == a[i]);
        } else {
            assert((a + b)[i] == b[i - a.len()]);
        }
    }
}

/// No digit is a blank.
pub proof fn lemma_digit_unbroken(d: int)
    ensures
        !is_blank(digit_char(d)),
        unbroken(seq![digit_char(d)]),
        unbroken(run_mark(d)),
{
}

/// The written digits of a number hold no blank.
pub proof fn lemma_decimal_unbroken(n: nat)
    ensures
        unbroken(decimal(n)),
        decimal(n).len() >= 1,
    decreases n,
{
    lemma_digit_unbroken((n % 10) as int);
    if n >= 10 {
        lemma_decimal_unbroken(n / 10);
        lemma_unbroken_add(decimal(n / 10), seq![digit_char((n % 10) as int)]);
        assert(decimal(n) =~= decimal(n / 10) + seq![digit_char((n % 10) as int)]);
    } else {
        lemma_digit_unbroken(n as int);
    }
}

/// The written squares of a rank hold no blank.
pub proof fn lemma_rank_unbroken(pos: Position, rank: int, file: int, run: int)
    ensures
        unbroken(write_rank(pos, rank, file, run)),
    decreases 8 - file,
{
    lemma_digit_unbroken(run);
    if file < 8 {
        if pos.occupant(8 * rank + file) < 0 {
            lemma_rank_unbroken(pos, rank, file + 1, run + 1);
        } else {
            lemma_rank_unbroken(pos, rank, file + 1, 0);
            let letter = seq![letter_of_piece(pos.occupant(8 * rank + file))];
            assert(unbroken(letter));
            lemma_unbroken_add(run_mark(run), letter);
            lemma_unbroken_add(run_mark(run) + letter, write_rank(pos, rank, file + 1, 0));
        }
    }
}

/// The written ranks hold no blank, and something is written.
pub proof fn lemma_rows_unbroken(pos: Position, rank: int)
    requires
        0 <= rank < 8,
    ensures
        unbroken(write_rows(pos, rank)),
        write_rows(pos, rank).len() >= 1 || rank == 0,
    decreases rank,
{
    lemma_rank_unbroken(pos, rank, 0, 0);
    if rank > 0 {
        lemma_rows_unbroken(pos, rank - 1);
        let stroke = seq!['/'];
        assert(unbroken(stroke));
        lemma_unbroken_add(write_rank(pos, rank, 0, 0), stroke);
        lemma_unbroken_add(write_rank(pos, rank, 0, 0) + stroke, write_rows(pos, rank - 1));
    }
}

/// The six fields of the notation of a position hold no blank, and none of
/// them is empty.
pub proof fn lemma_notation_unbroken(pos: Position)
    requires
        pos.wf(),
    ensures
        unbroken(notation_of(pos).board) && notation_of(pos).board.len() >= 1,
        unbroken(notation_of(pos).color) && notation_of(pos).color.len() >= 1,
        unbroken(notation_of(pos).castles) && notation_of(pos).castles.len() >= 1,
        unbroken(notation_of(pos).enpassant) && notation_of(pos).enpassant.len() >= 1,
        unbroken(notation_of(pos).half_move) && notation_of(pos).half_move.len() >= 1,
        unbroken(notation_of(pos).full_move) && notation_of(pos).full_move.len() >= 1,
{
    lemma_rows_unbroken(pos, 7);
    assert(write_rows(pos, 7).len() >= 1);
    lemma_decimal_unbroken(pos.half_move);
    lemma_decimal_unbroken(pos.full_move);
    let c = pos.castles;
    let a = if c & 1 != 0 {
        seq!['K']
    } else {
        Seq::<char>::empty()
    };
    let b = if c & 2 != 0 {
        seq!['Q']
    } else {
        Seq::<char>::empty()
    };
    let d = if c & 4 != 0 {
        seq!['k']
    } else {
        Seq::<char>::empty()
    };
    let e = if c & 8 != 0 {
        seq!['q']
    } else {
        Seq::<char>::empty()
    };
    assert(unbroken(a) && unbroken(b) && unbroken(d) && unbroken(e));
    lemma_unbroken_add(a, b);
    lemma_unbroken_add(a + b, d);
    lemma_unbroken_add(a + b + d, e);
    assert(c & 15 != 0 ==> c & 1 != 0 || c & 2 != 0 || c & 4 != 0 || c & 8 != 0) by (bit_vector);
    if 0 <= pos.enpassant < 64 {
        lemma_digit_unbroken(pos.enpassant / 8 + 1);
    }
}

/// Where `count` characters without a space stand in a text from `from` on,
/// and a space or the end of the text behind them, the first space from
/// `from` on is behind them.
pub proof fn lemma_space_from(text: Seq<char>, from: int, count: int)
    requires
        0 <= from,
        0 <= count,
        from + count <= text.len(),
        forall|i: int| from <= i < from + count ==> text[i] != ' ',
        from + count == text.len() || text[from + count] == ' ',
    ensures
        space_from(text, from) == from + count,
    decreases count,
{
    if count > 0 {
        lemma_space_from(text, from + 1, count - 1);
    }
}

/// The first of the fields from `from` on is the text up to the next
/// space, and the later ones are those behind that space.
pub proof fn lemma_field_step(text: Seq<char>, from: int, word: Seq<char>, k: nat)
    requires
        0 <= from,
        from + word.len() <= text.len(),
        text.subrange(from, from + word.len()) == word,
        unbroken(word),
        from + word.len() == text.len() || text[from + word.len()] == ' ',
    ensures
        field(text, from, 0) == word,
        k >= 1 && from + word.len() < text.len() ==> field(text, from, k) == field(
            text,
            from + word.len() + 1,
            (k - 1) as nat,
        ),
{
    assert forall|i: int| from <= i < from + word.len() implies text[i] != ' ' by {
        assert(text[i] == word[i - from]);
        assert(!is_blank(word[i - from]));
    }
    lemma_space_from(text, from, word.len() as int);
}

/// Splitting the joined fields of a notation gives the fields, where none
/// of them is empty or holds a blank.
pub proof fn lemma_fields_of_joined(n: Notation)
    requires
        unbroken(n.board) && n.board.len() >= 1,
        unbroken(n.color) && n.color.len() >= 1,
        unbroken(n.castles) && n.castles.len() >= 1,
        unbroken(n.enpassant) && n.enpassant.len() >= 1,
        unbroken(n.half_move) && n.half_move.len() >= 1,
        unbroken(n.full_move) && n.full_move.len() >= 1,
    ensures
        crate::fields_of(joined(n)) == n,
{
    let text = joined(n);
    let a = 0int;
    let b = a + n.board.len() + 1;
    let c = b + n.color.len() + 1;
    let d = c + n.castles.len() + 1;
    let e = d + n.enpassant.len() + 1;
    let f = e + n.half_move.len() + 1;
    assert(text.len() == f + n.full_move.len());
    assert(text.subrange(a, b - 1) =~= n.board);
    assert(text.subrange(b, c - 1) =~= n.color);
    assert(text.subrange(c, d - 1) =~= n.castles);
    assert(text.subrange(d, e - 1) =~= n.enpassant);
    assert(text.subrange(e, f - 1) =~= n.half_move);
    assert(text.subrange(f, text.len() as int) =~= n.full_move);
    assert(text[b - 1] == ' ' && text[c - 1] == ' ' && text[d - 1] == ' ' && text[e - 1] == ' '
        && text[f - 1] == ' ');
    assert(text[0] == n.board[0]);
    assert(text[text.len() - 1] == n.full_move[n.full_move.len() - 1]);
    assert(!is_blank(n.board[0]));
    assert(!is_blank(n.full_move[n.full_move.len() - 1]));
    assert(first_mark(text, 0) == 0);
    assert(last_mark(text, text.len() as int) == text.len());
    assert(text.subrange(0, text.len() as int) =~= text);
    assert(trimmed(text) == text);
    lemma_field_step(text, f, n.full_move, 0);
    lemma_field_step(text, e, n.half_move, 1);
    lemma_field_step(text, d, n.enpassant, 2);
    lemma_field_step(text, c, n.castles, 3);
    lemma_field_step(text, b, n.color, 4);
    lemma_field_step(text, a, n.board, 5);
    lemma_field_step(text, e, n.half_move, 0);
    lemma_field_step(text, d, n.enpassant, 1);
    lemma_field_step(text, c, n.castles, 2);
    lemma_field_step(text, b, n.color, 3);
    lemma_field_step(text, a, n.board, 4);
    lemma_field_step(text, d, n.enpassant, 0);
    lemma_field_step(text, c, n.castles, 1);
    lemma_field_step(text, b, n.color, 2);
    lemma_field_step(text, a, n.board, 3);
    lemma_field_step(text, c, n.castles, 0);
    lemma_field_step(text, b, n.color, 1);
    lemma_field_step(text, a, n.board, 2);
    lemma_field_step(text, b, n.color, 0);
    lemma_field_step(text, a, n.board, 1);
    lemma_field_step(text, a, n.board, 0);
}

/// Writing a sound position as one line of notation and reading that line
/// gives the position.
pub proof fn lemma_round_trip_text(pos: Position)
    requires
        pos.wf(),
    ensures
        position_of(crate::fields_of(joined(notation_of(pos)))) == Ok::<Position, FenError>(pos),
{
    lemma_notation_unbroken(pos);
    lemma_fields_of_joined(notation_of(pos));
    lemma_round_trip(pos);
}

} // verus!
