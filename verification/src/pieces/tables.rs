//! The attack tables of all pieces, built once and read by move generation.

use vstd::prelude::*;
use crate::bits::{popcount, two_pow};
use crate::board_components::{
    sparse_candidate, xorshift32_steps, BitBoard, ChessBoard, Color, MagicNum,
    MagicNumGenerator, Square, GENERATOR_SEED,
};
use crate::constants::board_constants::{
    create_bishop_magics, create_bishop_move_counts, create_rook_magics,
    create_rook_move_counts, lemma_bishop_counts, lemma_rook_counts, magic_values,
    BISHOP_MAGICS, BISHOP_MAX_BLOCK_PERM, BISHOP_MOVE_COUNTS, ROOK_MAGICS, ROOK_MAX_BLOCK_PERM,
    ROOK_MOVE_COUNTS,
};
use crate::pieces::mask_counts::{lemma_bishop_mask_count, lemma_rook_mask_count};
use crate::pieces::bishop::bishop_attacks;
use crate::pieces::king::{king_mask, mask_king_attacks};
use crate::pieces::knight::{knight_mask, mask_knight_attacks};
use crate::pieces::pawn::{mask_pawn_attacks, pawn_mask};
use crate::pieces::pieces_structs::{
    build_square_table, constructible, is_magic, slider_mask, slider_mask_of, square_filled,
    Slider, SliderPieceTable,
};
use crate::pieces::rook::rook_attacks;

verus! {

/// Fills `attacks` with the relevant squares of a slider on each square.
pub fn initialize_slider_attacks(kind: Slider, attacks: &mut ChessBoard<BitBoard>)
    ensures
        forall|s: int| 0 <= s < 64 ==> (#[trigger] final(attacks).0[s]).0 == slider_mask(kind, s),
{
    let mut index: u8 = 0;
    while index < 64
        invariant
            index <= 64,
            forall|s: int| 0 <= s < index ==> (#[trigger] attacks.0[s]).0 == slider_mask(kind, s),
        decreases 64 - index,
    {
        let square = Square(index);
        let mask = slider_mask_of(kind, square);
        attacks.set(square, mask);
        index = index + 1;
    }
}

/// Builds the tables of all squares for the multipliers and the numbers of
/// relevant squares given.
pub fn initialize_slider_table<const LEN: usize>(
    kind: Slider,
    magics: &ChessBoard<MagicNum>,
    move_counts: &ChessBoard<u64>,
) -> (r: Option<Vec<Vec<BitBoard>>>)
    ensures
        r matches Some(t) ==> t@.len() == 64 && forall|s: int|
            0 <= s < 64 ==> square_filled(
                kind,
                (#[trigger] t@[s])@,
                s,
                magics.0[s].0,
                move_counts.0[s],
            ),
        r is Some <==> constructible(kind, move_counts.0@, magic_values(*magics), LEN as int),
{
    let mut table: Vec<Vec<BitBoard>> = Vec::new();
    let mut index: u8 = 0;
    while index < 64
        invariant
            index <= 64,
            table@.len() == index,
            forall|s: int|
                0 <= s < index ==> {
                    &&& 1 <= #[trigger] move_counts.0@[s] <= 62
                    &&& move_counts.0@[s] == popcount(slider_mask(kind, s))
                    &&& two_pow(move_counts.0@[s] as nat) <= LEN
                    &&& is_magic(kind, s, magic_values(*magics)[s], move_counts.0@[s])
                },
            forall|s: int|
                0 <= s < index ==> square_filled(
                    kind,
                    (#[trigger] table@[s])@,
                    s,
                    magics.0[s].0,
                    move_counts.0[s],
                ),
        decreases 64 - index,
    {
        let square = Square(index);
        let bits: u64 = *move_counts.get(square);
        let mask = slider_mask_of(kind, square);
        if bits < 1 || bits > 62 || bits != mask.count_ones() as u64 {
            assert(!(1 <= move_counts.0@[index as int] <= 62 && move_counts.0@[index as int]
                == popcount(slider_mask(kind, index as int))));
            return None;
        }
        let total: u64 = 1u64 << bits;
        proof {
            crate::bits::lemma_shl_two_pow(bits as nat);
        }
        if total > LEN as u64 {
            assert(!(two_pow(move_counts.0@[index as int] as nat) <= LEN));
            return None;
        }
        match build_square_table(kind, square, *magics.get(square), bits, LEN) {
            Some(entries) => {
                table.push(entries);
            },
            None => {
                assert(!is_magic(
                    kind,
                    index as int,
                    magic_values(*magics)[index as int],
                    move_counts.0@[index as int],
                ));
                return None;
            },
        }
        index = index + 1;
    }
    Some(table)
}

/// The attack tables of all pieces.
pub struct AttackTables {
    bishop: SliderPieceTable<512>,
    rook: SliderPieceTable<4096>,
    king: ChessBoard<BitBoard>,
    knight: ChessBoard<BitBoard>,
    white_pawn: ChessBoard<BitBoard>,
    black_pawn: ChessBoard<BitBoard>,
}

/// The tables can be built from the multipliers and counts of this crate:
/// each count is that of the square's relevant squares and fits the table,
/// and no multiplier lets two occupancies with different attack sets
/// collide.
pub open spec fn magics_valid() -> bool {
    &&& constructible(
        Slider::Bishop,
        BISHOP_MOVE_COUNTS@,
        BISHOP_MAGICS@,
        BISHOP_MAX_BLOCK_PERM as int,
    )
    &&& constructible(Slider::Rook, ROOK_MOVE_COUNTS@, ROOK_MAGICS@, ROOK_MAX_BLOCK_PERM as int)
}

/// No multiplier of this crate lets two occupancies of the relevant squares
/// of its square with different attack sets collide.
pub open spec fn multipliers_magic() -> bool {
    &&& forall|s: int|
        0 <= s < 64 ==> is_magic(
            Slider::Bishop,
            s,
            #[trigger] BISHOP_MAGICS[s],
            BISHOP_MOVE_COUNTS[s],
        )
    &&& forall|s: int|
        0 <= s < 64 ==> is_magic(Slider::Rook, s, #[trigger] ROOK_MAGICS[s], ROOK_MOVE_COUNTS[s])
}

/// The counts of this crate are those of the relevant squares and fit the
/// tables; so the tables can be built exactly when the multipliers are free
/// of collisions.
pub proof fn lemma_magics_valid()
    ensures
        magics_valid() == multipliers_magic(),
{
    assert(two_pow(12) == 4096 && two_pow(9) == 512) by {
        reveal_with_fuel(two_pow, 13);
    }
    assert forall|s: int| 0 <= s < 64 implies 1 <= #[trigger] BISHOP_MOVE_COUNTS@[s] <= 62
        && BISHOP_MOVE_COUNTS@[s] == popcount(slider_mask(Slider::Bishop, s)) && two_pow(
        BISHOP_MOVE_COUNTS@[s] as nat,
    ) <= BISHOP_MAX_BLOCK_PERM by {
        lemma_bishop_counts(s);
        lemma_bishop_mask_count(s);
        crate::bits::lemma_two_pow_monotonic(BISHOP_MOVE_COUNTS@[s] as nat, 9);
    }
    assert forall|s: int| 0 <= s < 64 implies 1 <= #[trigger] ROOK_MOVE_COUNTS@[s] <= 62
        && ROOK_MOVE_COUNTS@[s] == popcount(slider_mask(Slider::Rook, s)) && two_pow(
        ROOK_MOVE_COUNTS@[s] as nat,
    ) <= ROOK_MAX_BLOCK_PERM by {
        lemma_rook_counts(s);
        lemma_rook_mask_count(s);
        crate::bits::lemma_two_pow_monotonic(ROOK_MOVE_COUNTS@[s] as nat, 12);
    }
    if multipliers_magic() {
        assert forall|s: int| 0 <= s < 64 implies is_magic(
            Slider::Bishop,
            s,
            BISHOP_MAGICS@[s],
            #[trigger] BISHOP_MOVE_COUNTS@[s],
        ) by {
            assert(is_magic(Slider::Bishop, s, BISHOP_MAGICS[s], BISHOP_MOVE_COUNTS[s]));
        }
        assert forall|s: int| 0 <= s < 64 implies is_magic(
            Slider::Rook,
            s,
            ROOK_MAGICS@[s],
            #[trigger] ROOK_MOVE_COUNTS@[s],
        ) by {
            assert(is_magic(Slider::Rook, s, ROOK_MAGICS[s], ROOK_MOVE_COUNTS[s]));
        }
    }
    if magics_valid() {
        assert forall|s: int| 0 <= s < 64 implies is_magic(
            Slider::Bishop,
            s,
            #[trigger] BISHOP_MAGICS[s],
            BISHOP_MOVE_COUNTS[s],
        ) by {
            assert(1 <= BISHOP_MOVE_COUNTS@[s] <= 62);
        }
        assert forall|s: int| 0 <= s < 64 implies is_magic(
            Slider::Rook,
            s,
            #[trigger] ROOK_MAGICS[s],
            ROOK_MOVE_COUNTS[s],
        ) by {
            assert(1 <= ROOK_MOVE_COUNTS@[s] <= 62);
        }
    }
}

impl AttackTables {
    /// Every table holds, for every square, what the geometry of its piece
    /// says.
    pub closed spec fn wf(&self) -> bool {
        &&& self.bishop.wf()
        &&& self.bishop.kind() == Slider::Bishop
        &&& self.rook.wf()
        &&& self.rook.kind() == Slider::Rook
        &&& forall|s: int| 0 <= s < 64 ==> (#[trigger] self.king.0[s]).0 == king_mask(s)
        &&& forall|s: int| 0 <= s < 64 ==> (#[trigger] self.knight.0[s]).0 == knight_mask(s)
        &&& forall|s: int|
            0 <= s < 64 ==> (#[trigger] self.white_pawn.0[s]).0 == pawn_mask(Color::White, s)
        &&& forall|s: int|
            0 <= s < 64 ==> (#[trigger] self.black_pawn.0[s]).0 == pawn_mask(Color::Black, s)
    }
}

/// Builds all attack tables. `None` where the slider tables cannot be built
/// from the multipliers of this crate.
pub fn init_statics() -> (r: Option<AttackTables>)
    ensures
        r matches Some(t) ==> t.wf(),
        r is Some <==> magics_valid(),
        r is Some <==> multipliers_magic(),
{
    proof {
        lemma_magics_valid();
    }
    let bishop = initialize_bishop_components();
    let rook = initialize_rook_components();
    match bishop {
        Some(bishop) => match rook {
            Some(rook) => Some(assemble(bishop, rook)),
            None => None,
        },
        None => None,
    }
}

/// Builds the bishop's table from the multipliers and counts of this
/// crate.
pub fn initialize_bishop_components() -> (r: Option<SliderPieceTable<512>>)
    ensures
        r matches Some(t) ==> t.wf() && t.kind() == Slider::Bishop,
        r is Some <==> constructible(
            Slider::Bishop,
            BISHOP_MOVE_COUNTS@,
            BISHOP_MAGICS@,
            BISHOP_MAX_BLOCK_PERM as int,
        ),
{
    SliderPieceTable::<512>::new(
        Slider::Bishop,
        create_bishop_move_counts(),
        create_bishop_magics(),
    )
}

/// Builds the rook's table from the multipliers and counts of this crate.
pub fn initialize_rook_components() -> (r: Option<SliderPieceTable<4096>>)
    ensures
        r matches Some(t) ==> t.wf() && t.kind() == Slider::Rook,
        r is Some <==> constructible(
            Slider::Rook,
            ROOK_MOVE_COUNTS@,
            ROOK_MAGICS@,
            ROOK_MAX_BLOCK_PERM as int,
        ),
{
    SliderPieceTable::<4096>::new(Slider::Rook, create_rook_move_counts(), create_rook_magics())
}

/// Puts the slider tables together with the tables of the other pieces.
fn assemble(bishop: SliderPieceTable<512>, rook: SliderPieceTable<4096>) -> (r: AttackTables)
    requires
        bishop.wf(),
        bishop.kind() == Slider::Bishop,
        rook.wf(),
        rook.kind() == Slider::Rook,
    ensures
        r.wf(),
{
    let mut king: ChessBoard<BitBoard> = ChessBoard([BitBoard(0);64]);
    let mut knight: ChessBoard<BitBoard> = ChessBoard([BitBoard(0);64]);
    let mut white_pawn: ChessBoard<BitBoard> = ChessBoard([BitBoard(0);64]);
    let mut black_pawn: ChessBoard<BitBoard> = ChessBoard([BitBoard(0);64]);
    initialize_king_table(&mut king);
    initialize_knight_table(&mut knight);
    initialize_pawn_table(&mut white_pawn, &mut black_pawn);
    AttackTables { bishop, rook, king, knight, white_pawn, black_pawn }
}

/// Fills the table with the king's attacks from every square.
pub fn initialize_king_table(table: &mut ChessBoard<BitBoard>)
    ensures
        forall|s: int| 0 <= s < 64 ==> (#[trigger] final(table).0[s]).0 == king_mask(s),
{
    let mut index: u8 = 0;
    while index < 64
        invariant
            index <= 64,
            forall|s: int| 0 <= s < index ==> (#[trigger] table.0[s]).0 == king_mask(s),
        decreases 64 - index,
    {
        let square = Square(index);
        let mask = mask_king_attacks(square);
        table.set(square, mask);
        index = index + 1;
    }
}

/// Fills the table with the knight's attacks from every square.
pub fn initialize_knight_table(table: &mut ChessBoard<BitBoard>)
    ensures
        forall|s: int| 0 <= s < 64 ==> (#[trigger] final(table).0[s]).0 == knight_mask(s),
{
    let mut index: u8 = 0;
    while index < 64
        invariant
            index <= 64,
            forall|s: int| 0 <= s < index ==> (#[trigger] table.0[s]).0 == knight_mask(s),
        decreases 64 - index,
    {
        let square = Square(index);
        let mask = mask_knight_attacks(square);
        table.set(square, mask);
        index = index + 1;
    }
}

/// Fills the two tables with the attacks of the white and of the black pawn
/// from every square.
pub fn initialize_pawn_table(white: &mut ChessBoard<BitBoard>, black: &mut ChessBoard<BitBoard>)
    ensures
        forall|s: int|
            0 <= s < 64 ==> (#[trigger] final(white).0[s]).0 == pawn_mask(Color::White, s),
        forall|s: int|
            0 <= s < 64 ==> (#[trigger] final(black).0[s]).0 == pawn_mask(Color::Black, s),
{
    let mut index: u8 = 0;
    while index < 64
        invariant
            index <= 64,
            forall|s: int|
                0 <= s < index ==> (#[trigger] white.0[s]).0 == pawn_mask(Color::White, s),
            forall|s: int|
                0 <= s < index ==> (#[trigger] black.0[s]).0 == pawn_mask(Color::Black, s),
        decreases 64 - index,
    {
        let square = Square(index);
        let white_mask = mask_pawn_attacks(Color::White, square);
        let black_mask = mask_pawn_attacks(Color::Black, square);
        white.set(square, white_mask);
        black.set(square, black_mask);
        index = index + 1;
    }
}

/// The table of the king's attacks from every square.
pub fn create_king_table() -> (r: ChessBoard<BitBoard>)
    ensures
        forall|s: int| 0 <= s < 64 ==> (#[trigger] r.0[s]).0 == king_mask(s),
{
    let mut table: ChessBoard<BitBoard> = ChessBoard([BitBoard(0);64]);
    initialize_king_table(&mut table);
    table
}

/// The table of the knight's attacks from every square.
pub fn create_knight_table() -> (r: ChessBoard<BitBoard>)
    ensures
        forall|s: int| 0 <= s < 64 ==> (#[trigger] r.0[s]).0 == knight_mask(s),
{
    let mut table: ChessBoard<BitBoard> = ChessBoard([BitBoard(0);64]);
    initialize_knight_table(&mut table);
    table
}

/// The tables of the pawn's attacks from every square: that of the white
/// pawn, then that of the black.
pub fn create_pawn_table() -> (r: (ChessBoard<BitBoard>, ChessBoard<BitBoard>))
    ensures
        forall|s: int| 0 <= s < 64 ==> (#[trigger] r.0.0[s]).0 == pawn_mask(Color::White, s),
        forall|s: int| 0 <= s < 64 ==> (#[trigger] r.1.0[s]).0 == pawn_mask(Color::Black, s),
{
    let mut white: ChessBoard<BitBoard> = ChessBoard([BitBoard(0);64]);
    let mut black: ChessBoard<BitBoard> = ChessBoard([BitBoard(0);64]);
    initialize_pawn_table(&mut white, &mut black);
    (white, black)
}

/// Looks a slider's attack set up in its table.
pub fn generate_slider_moves<const LEN: usize>(
    square: Square,
    board: BitBoard,
    table: &SliderPieceTable<LEN>,
) -> (r: BitBoard)
    requires
        table.wf(),
        square.on_board(),
    ensures
        r.0 == crate::pieces::pieces_structs::slider_attacks(table.kind(), square@, board.0),
{
    table.lookup(square, board)
}

/// The squares a bishop on `square` attacks with the pieces of `board` in
/// its way, read from the tables.
pub fn generate_bishop_attacks(tables: &AttackTables, square: Square, board: BitBoard) -> (r:
    BitBoard)
    requires
        tables.wf(),
        square.on_board(),
    ensures
        r.0 == bishop_attacks(square@, board.0),
{
    generate_slider_moves(square, board, &tables.bishop)
}

/// The squares a rook on `square` attacks with the pieces of `board` in its
/// way, read from the tables.
pub fn generate_rook_attakcs(tables: &AttackTables, square: Square, board: BitBoard) -> (r:
    BitBoard)
    requires
        tables.wf(),
        square.on_board(),
    ensures
        r.0 == rook_attacks(square@, board.0),
{
    generate_slider_moves(square, board, &tables.rook)
}

/// The squares a king on `square` attacks, read from the tables.
pub fn generate_king_attacks(tables: &AttackTables, square: Square) -> (r: BitBoard)
    requires
        tables.wf(),
        square.on_board(),
    ensures
        r.0 == king_mask(square@),
{
    *tables.king.get(square)
}

/// The squares a knight on `square` attacks, read from the tables.
pub fn generate_knight_attacks(tables: &AttackTables, square: Square) -> (r: BitBoard)
    requires
        tables.wf(),
        square.on_board(),
    ensures
        r.0 == knight_mask(square@),
{
    *tables.knight.get(square)
}

/// The squares a pawn of colour `side` on `square` attacks, read from the
/// tables.
pub fn genereate_pawn_attacks(tables: &AttackTables, square: Square, side: Color) -> (r:
    BitBoard)
    requires
        tables.wf(),
        square.on_board(),
    ensures
        r.0 == pawn_mask(side, square@),
{
    match side {
        Color::White => *tables.white_pawn.get(square),
        Color::Black => *tables.black_pawn.get(square),
    }
}

/// How many candidates the search for a multiplier draws before it gives up.
pub const MAGIC_RETRIES: u64 = 1000000000;

/// The candidate has enough bits in the highest byte of its product with
/// the mask to be worth a full test.
pub open spec fn well_spread(mask: u64, candidate: u64) -> bool {
    popcount(mask.wrapping_mul(candidate) & 0xFF00000000000000) >= 6
}

/// The first of the next `tries` candidates, drawn from the generator state
/// `state` on, that is well spread and free of collisions for the square.
pub open spec fn first_magic(kind: Slider, s: int, bits: u64, state: u32, tries: nat) -> Option<
    MagicNum,
>
    decreases tries,
{
    if tries == 0 {
        None
    } else {
        let candidate = sparse_candidate(state);
        if well_spread(slider_mask(kind, s), candidate) && is_magic(kind, s, candidate, bits) {
            Some(MagicNum(candidate))
        } else {
            first_magic(kind, s, bits, xorshift32_steps(state, 12), (tries - 1) as nat)
        }
    }
}

/// Searches for a multiplier for the table of `square`: draws candidates
/// from a fixed seed and returns the first that passes, `None` after
/// `MAGIC_RETRIES` candidates, or where the square has no relevant squares
/// or more than twelve.
pub fn find_magic_number(kind: Slider, square: Square) -> (r: Option<MagicNum>)
    requires
        square.on_board(),
    ensures
        r == if 1 <= popcount(slider_mask(kind, square@)) <= 12 {
            first_magic(
                kind,
                square@,
                popcount(slider_mask(kind, square@)) as u64,
                GENERATOR_SEED,
                MAGIC_RETRIES as nat,
            )
        } else {
            None
        },
{
    let mask = slider_mask_of(kind, square);
    let bits: u64 = mask.count_ones() as u64;
    if bits < 1 || bits > 12 {
        return None;
    }
    proof {
        crate::bits::lemma_two_pow_monotonic(bits as nat, 12);
        assert(two_pow(12) == 4096) by {
            reveal_with_fuel(two_pow, 13);
        }
    }
    let mut generator = MagicNumGenerator::new();
    let mut tries: u64 = 0;
    let ghost goal = first_magic(kind, square@, bits, GENERATOR_SEED, MAGIC_RETRIES as nat);
    while tries < MAGIC_RETRIES
        invariant
            square.on_board(),
            1 <= bits <= 12,
            two_pow(bits as nat) <= 4096,
            mask.0 == slider_mask(kind, square@),
            tries <= MAGIC_RETRIES,
            bits == popcount(slider_mask(kind, square@)),
            goal == first_magic(kind, square@, bits, GENERATOR_SEED, MAGIC_RETRIES as nat),
            goal == first_magic(
                kind,
                square@,
                bits,
                generator.state(),
                (MAGIC_RETRIES - tries) as nat,
            ),
        decreases MAGIC_RETRIES - tries,
    {
        let candidate = generator.gen();
        let spread = BitBoard(mask.0.wrapping_mul(candidate.0) & 0xFF00000000000000).count_ones();
        if spread >= 6 {
            if build_square_table(kind, square, candidate, bits, ROOK_MAX_BLOCK_PERM).is_some() {
                assert(well_spread(slider_mask(kind, square@), candidate.0));
                assert(is_magic(kind, square@, candidate.0, bits));
                assert(candidate == MagicNum(candidate.0));
                assert(goal == Some(candidate));
                return Some(candidate);
            }
        }
        tries = tries + 1;
    }
    None
}

} // verus!
