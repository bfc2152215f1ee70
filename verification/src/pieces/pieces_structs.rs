//! The attack table of a sliding piece: for each square, the attack sets of
//! all occupancies of its relevant squares, found by a multiply-and-shift
//! hash.

use vstd::prelude::*;
use crate::bits::{lemma_high_bits_bound, lemma_shl_two_pow, popcount, two_pow};
use crate::board_components::{BitBoard, ChessBoard, MagicNum, Square};
use crate::constants::board_constants::magic_values;
use crate::pieces::bishop::{
    bishop_attacks, bishop_attacks_on_fly, bishop_mask, lemma_bishop_relevant,
    mask_bishop_attacks,
};
use crate::pieces::helper_functions::{
    get_possible_occupancy, index_of, lemma_index_of, occupancy,
};
use crate::pieces::rook::{
    lemma_rook_relevant, mask_rook_attacks, rook_attacks, rook_attacks_on_fly, rook_mask,
};

verus! {

/// The two kinds of piece whose attacks are looked up by occupancy. A queen
/// is both at once.
#[derive(Clone, Copy, Debug, PartialEq, Eq, Structural)]
pub enum Slider {
    Bishop,
    Rook,
}

/// The squares a slider on `s` attacks when the squares of `occ` are
/// occupied.
pub open spec fn slider_attacks(kind: Slider, s: int, occ: u64) -> u64 {
    match kind {
        Slider::Bishop => bishop_attacks(s, occ),
        Slider::Rook => rook_attacks(s, occ),
    }
}

/// The squares whose occupancy decides what a slider on `s` attacks.
pub open spec fn slider_mask(kind: Slider, s: int) -> u64 {
    match kind {
        Slider::Bishop => bishop_mask(s),
        Slider::Rook => rook_mask(s),
    }
}

/// Where the attack set for the occupancy `occ` is kept in a square's table.
pub open spec fn magic_index(occ: u64, magic: u64, bits: u64) -> int {
    (occ.wrapping_mul(magic) >> ((64 - bits) as u64)) as int
}

/// No two occupancies of the relevant squares of `s` with different attack
/// sets share an index.
pub open spec fn is_magic(kind: Slider, s: int, magic: u64, bits: u64) -> bool {
    forall|i: u64, j: u64|
        i < two_pow(bits as nat) && j < two_pow(bits as nat) && magic_index(
            #[trigger] occupancy(slider_mask(kind, s), i),
            magic,
            bits,
        ) == magic_index(#[trigger] occupancy(slider_mask(kind, s), j), magic, bits)
            ==> slider_attacks(kind, s, occupancy(slider_mask(kind, s), i)) == slider_attacks(
            kind,
            s,
            occupancy(slider_mask(kind, s), j),
        )
}

/// The table `t` of square `s` holds, for every occupancy of the relevant
/// squares, the attack set at that occupancy's index.
pub open spec fn square_filled(
    kind: Slider,
    t: Seq<BitBoard>,
    s: int,
    magic: u64,
    bits: u64,
) -> bool {
    forall|j: u64|
        j < two_pow(bits as nat) ==> {
            let at = magic_index(#[trigger] occupancy(slider_mask(kind, s), j), magic, bits);
            0 <= at < t.len() && t[at].0 == slider_attacks(
                kind,
                s,
                occupancy(slider_mask(kind, s), j),
            )
        }
}

/// The relevant squares of a slider on `square`.
pub fn slider_mask_of(kind: Slider, square: Square) -> (r: BitBoard)
    requires
        square.on_board(),
    ensures
        r.0 == slider_mask(kind, square@),
{
    match kind {
        Slider::Bishop => mask_bishop_attacks(square),
        Slider::Rook => mask_rook_attacks(square),
    }
}

/// The squares a slider on `square` attacks over the blockers given, found
/// by walking its lines.
pub fn slider_attacks_on_fly(kind: Slider, square: Square, blockers: BitBoard) -> (r: BitBoard)
    requires
        square.on_board(),
    ensures
        r.0 == slider_attacks(kind, square@, blockers.0),
{
    match kind {
        Slider::Bishop => bishop_attacks_on_fly(square, blockers),
        Slider::Rook => rook_attacks_on_fly(square, blockers),
    }
}

/// Only the blockers on the relevant squares matter to a slider.
pub proof fn lemma_slider_relevant(kind: Slider, s: int, occ: u64)
    ensures
        slider_attacks(kind, s, occ) == slider_attacks(kind, s, occ & slider_mask(kind, s)),
{
    match kind {
        Slider::Bishop => lemma_bishop_relevant(s, occ),
        Slider::Rook => lemma_rook_relevant(s, occ),
    }
}

/// A table of `size` entries per square can be built from the counts and
/// multipliers given: each count is that of the square's relevant squares
/// and fits the table, and no multiplier lets two occupancies with
/// different attack sets collide.
pub open spec fn constructible(kind: Slider, counts: Seq<u64>, magics: Seq<u64>, size: int) -> bool {
    forall|s: int|
        0 <= s < 64 ==> {
            &&& 1 <= #[trigger] counts[s] <= 62
            &&& counts[s] == popcount(slider_mask(kind, s))
            &&& two_pow(counts[s] as nat) <= size
            &&& is_magic(kind, s, magics[s], counts[s])
        }
}

/// A filled table answers for every occupancy of the whole board, not only
/// for the subsets of the relevant squares.
pub proof fn lemma_filled_lookup(
    kind: Slider,
    t: Seq<BitBoard>,
    s: int,
    magic: u64,
    bits: u64,
    occ: u64,
)
    requires
        square_filled(kind, t, s, magic, bits),
        bits == popcount(slider_mask(kind, s)),
        bits <= 62,
    ensures
        0 <= magic_index(occ & slider_mask(kind, s), magic, bits) < t.len(),
        t[magic_index(occ & slider_mask(kind, s), magic, bits)].0 == slider_attacks(kind, s, occ),
{
    let mask = slider_mask(kind, s);
    lemma_index_of(mask, occ);
    let j = index_of(mask, occ) as u64;
    assert(occupancy(mask, j) == occ & mask);
    lemma_slider_relevant(kind, s, occ);
}

/// A vector of `count` copies of `value`.
pub fn repeated<T: Copy>(value: T, count: usize) -> (r: Vec<T>)
    ensures
        r@.len() == count,
        forall|i: int| 0 <= i < count ==> r@[i] == value,
{
    let mut out: Vec<T> = Vec::new();
    let mut i: usize = 0;
    while i < count
        invariant
            i <= count,
            out@.len() == i,
            forall|k: int| 0 <= k < i ==> out@[k] == value,
        decreases count - i,
    {
        out.push(value);
        i = i + 1;
    }
    out
}

/// Builds the table of one square for the multiplier `magic`, or finds that
/// two occupancies with different attack sets collide under it.
pub fn build_square_table(kind: Slider, square: Square, magic: MagicNum, bits: u64, size: usize) -> (r:
    Option<Vec<BitBoard>>)
    requires
        square.on_board(),
        1 <= bits < 64,
        two_pow(bits as nat) <= size,
    ensures
        r is Some <==> is_magic(kind, square@, magic.0, bits),
        r matches Some(t) ==> t@.len() == size && square_filled(
            kind,
            t@,
            square@,
            magic.0,
            bits,
        ),
{
    let mask = slider_mask_of(kind, square);
    let total: u64 = 1u64 << bits;
    proof {
        lemma_shl_two_pow(bits as nat);
    }
    let mut table: Vec<BitBoard> = repeated(BitBoard(0), size);
    let mut used: Vec<bool> = repeated(false, size);
    let ghost mut owner: Seq<u64> = Seq::new(size as nat, |i: int| 0u64);
    let mut j: u64 = 0;
    while j < total
        invariant
            square.on_board(),
            1 <= bits < 64,
            total == two_pow(bits as nat),
            total <= size,
            mask.0 == slider_mask(kind, square@),
            j <= total,
            table@.len() == size,
            used@.len() == size,
            owner.len() == size,
            forall|k: u64|
                k < j ==> {
                    let at = magic_index(#[trigger] occupancy(mask.0, k), magic.0, bits);
                    0 <= at < size && used@[at] && table@[at].0 == slider_attacks(
                        kind,
                        square@,
                        occupancy(mask.0, k),
                    )
                },
            forall|i: int|
                0 <= i < size && #[trigger] used@[i] ==> owner[i] < j && magic_index(
                    occupancy(mask.0, owner[i]),
                    magic.0,
                    bits,
                ) == i && table@[i].0 == slider_attacks(
                    kind,
                    square@,
                    occupancy(mask.0, owner[i]),
                ),
        decreases total - j,
    {
        let occ = get_possible_occupancy(mask, j);
        proof {
            lemma_high_bits_bound(occ.0.wrapping_mul(magic.0), bits as nat);
        }
        let at: usize = (occ.0.wrapping_mul(magic.0) >> (64 - bits)) as usize;
        let attack = slider_attacks_on_fly(kind, square, occ);
        if used[at] {
            if table[at].0 != attack.0 {
                proof {
                    let k = owner[at as int];
                    assert(magic_index(occupancy(mask.0, k), magic.0, bits) == magic_index(
                        occupancy(mask.0, j),
                        magic.0,
                        bits,
                    ));
                    assert(!is_magic(kind, square@, magic.0, bits));
                }
                return None;
            }
        } else {
            used.set(at, true);
            table.set(at, attack);
            proof {
                owner = owner.update(at as int, j);
            }
        }
        j = j + 1;
    }
    proof {
        assert forall|a: u64, b: u64|
            a < two_pow(bits as nat) && b < two_pow(bits as nat) && magic_index(
                #[trigger] occupancy(slider_mask(kind, square@), a),
                magic.0,
                bits,
            ) == magic_index(
                #[trigger] occupancy(slider_mask(kind, square@), b),
                magic.0,
                bits,
            ) implies slider_attacks(kind, square@, occupancy(slider_mask(kind, square@), a))
            == slider_attacks(kind, square@, occupancy(slider_mask(kind, square@), b)) by {
            let ia = magic_index(occupancy(mask.0, a), magic.0, bits);
            let ib = magic_index(occupancy(mask.0, b), magic.0, bits);
            assert(table@[ia].0 == slider_attacks(kind, square@, occupancy(mask.0, a)));
            assert(table@[ib].0 == slider_attacks(kind, square@, occupancy(mask.0, b)));
        }
    }
    Some(table)
}

/// The attack table of one kind of slider, for all squares.
pub struct SliderPieceTable<const SIZE: usize> {
    kind: Slider,
    table: Vec<Vec<BitBoard>>,
    attacks: ChessBoard<BitBoard>,
    magics: ChessBoard<MagicNum>,
    move_counts: ChessBoard<u64>,
}

impl<const SIZE: usize> SliderPieceTable<SIZE> {
    /// The kind of slider the table was built for.
    pub closed spec fn kind(&self) -> Slider {
        self.kind
    }

    /// Every square has its relevant squares, their number, and a table
    /// filled for all their occupancies.
    pub closed spec fn wf(&self) -> bool {
        &&& self.table@.len() == 64
        &&& forall|s: int|
            0 <= s < 64 ==> {
                &&& (#[trigger] self.attacks.0[s]).0 == slider_mask(self.kind, s)
                &&& 1 <= self.move_counts.0[s] <= 62
                &&& self.move_counts.0[s] == popcount(slider_mask(self.kind, s))
                &&& square_filled(
                    self.kind,
                    self.table@[s]@,
                    s,
                    self.magics.0[s].0,
                    self.move_counts.0[s],
                )
            }
    }

    /// Builds the table from the multipliers and the numbers of relevant
    /// squares given; `None` where a number is not that of the square's
    /// relevant squares or does not fit the table, or where a multiplier
    /// lets two occupancies with different attack sets collide.
    pub fn new(kind: Slider, move_counts: ChessBoard<u64>, magics: ChessBoard<MagicNum>) -> (r:
        Option<Self>)
        ensures
            r matches Some(t) ==> t.wf() && t.kind() == kind,
            r is Some <==> constructible(kind, move_counts.0@, magic_values(magics), SIZE as int),
    {
        let mut attacks: ChessBoard<BitBoard> = ChessBoard([BitBoard(0);64]);
        crate::pieces::tables::initialize_slider_attacks(kind, &mut attacks);
        let table = crate::pieces::tables::initialize_slider_table::<SIZE>(
            kind,
            &magics,
            &move_counts,
        );
        match table {
            Some(table) => Some(Self { kind, table, attacks, magics, move_counts }),
            None => None,
        }
    }

    /// The attack set of the slider on `square` with the pieces of `board`
    /// in its way.
    pub fn lookup(&self, square: Square, board: BitBoard) -> (r: BitBoard)
        requires
            self.wf(),
            square.on_board(),
        ensures
            r.0 == slider_attacks(self.kind(), square@, board.0),
    {
        let s: usize = square.0 as usize;
        let occ: u64 = board.0 & self.attacks.0[s].0;
        let bits: u64 = self.move_counts.0[s];
        proof {
            assert((self.attacks.0[s as int]).0 == slider_mask(self.kind, s as int));
            lemma_filled_lookup(
                self.kind,
                self.table@[s as int]@,
                s as int,
                self.magics.0[s as int].0,
                bits,
                board.0,
            );
        }
        let row = &self.table[s];
        let at: u64 = occ.wrapping_mul(self.magics.0[s].0) >> (64 - bits);
        assert(at < row.len());
        row[at as usize]
    }
}

} // verus!
