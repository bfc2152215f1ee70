//! Masks of ranks, files and edges, and the multipliers of the slider tables.

use vstd::prelude::*;
use crate::bits::{bit, isset};
use crate::board_components::{file_of, rank_of, ChessBoard, MagicNum, Square};

verus! {

/// The greatest number of occupancies of the relevant squares of a rook.
pub const ROOK_MAX_BLOCK_PERM: usize = 4096;

/// The greatest number of occupancies of the relevant squares of a bishop.
pub const BISHOP_MAX_BLOCK_PERM: usize = 512;

pub const EMPTY_BITBOARD: u64 = 0;

pub const A_FILE: u64 = 0x0101010101010101;

pub const B_FILE: u64 = 0x0202020202020202;

pub const G_FILE: u64 = 0x4040404040404040;

pub const H_FILE: u64 = 0x8080808080808080;

pub const RANK1: u64 = 0x00000000000000FF;

pub const RANK2: u64 = 0x000000000000FF00;

pub const RANK7: u64 = 0x00FF000000000000;

pub const RANK8: u64 = 0xFF00000000000000;

pub const A1_H8_DIOGNAL: u64 = 0x8040201008040201;

pub const H1_A8_ANTI_DIOGNAL: u64 = 0x0102040810204080;

pub const LIGHT_SQUARES: u64 = 0x55AA55AA55AA55AA;

pub const DARK_SQUARES: u64 = 0xAA55AA55AA55AA55;

pub const EDGES: u64 = 0xFF818181818181FF;

pub const CORNERS: u64 = 0x8100000000000081;

pub const TOP_2_RANK: u64 = 0xFFFF000000000000;

pub const RIGHT_2_FILE: u64 = 0xC0C0C0C0C0C0C0C0;

pub const BOTTOM_2_RANK: u64 = 0x000000000000FFFF;

pub const LEFT_2_FILE: u64 = 0x0303030303030303;

/// Which bits the file and rank masks hold.
proof fn bv_edge_masks()
    by (bit_vector)
    ensures
        forall|s: u64| #[trigger] bit(0x0101010101010101, s) == (s < 64 && s % 8 == 0),
        forall|s: u64| #[trigger] bit(0x8080808080808080, s) == (s < 64 && s % 8 == 7),
        forall|s: u64| #[trigger] bit(0x0303030303030303, s) == (s < 64 && s % 8 <= 1),
        forall|s: u64| #[trigger] bit(0xC0C0C0C0C0C0C0C0, s) == (s < 64 && s % 8 >= 6),
        forall|s: u64| #[trigger] bit(0x00000000000000FF, s) == (s < 8),
        forall|s: u64| #[trigger] bit(0x000000000000FF00, s) == (8 <= s < 16),
        forall|s: u64| #[trigger] bit(0x00FF000000000000, s) == (48 <= s < 56),
        forall|s: u64| #[trigger] bit(0xFF00000000000000, s) == (56 <= s < 64),
        forall|s: u64| #[trigger] bit(0x000000000000FFFF, s) == (s < 16),
        forall|s: u64| #[trigger] bit(0xFFFF000000000000, s) == (48 <= s < 64),
{
}

/// Which squares the file and rank masks hold.
pub proof fn lemma_edge_masks()
    ensures
        forall|s: int| #[trigger] isset(A_FILE, s) == (0 <= s < 64 && file_of(s) == 0),
        forall|s: int| #[trigger] isset(H_FILE, s) == (0 <= s < 64 && file_of(s) == 7),
        forall|s: int| #[trigger] isset(LEFT_2_FILE, s) == (0 <= s < 64 && file_of(s) <= 1),
        forall|s: int| #[trigger] isset(RIGHT_2_FILE, s) == (0 <= s < 64 && file_of(s) >= 6),
        forall|s: int| #[trigger] isset(RANK1, s) == (0 <= s < 64 && rank_of(s) == 0),
        forall|s: int| #[trigger] isset(RANK2, s) == (0 <= s < 64 && rank_of(s) == 1),
        forall|s: int| #[trigger] isset(RANK7, s) == (0 <= s < 64 && rank_of(s) == 6),
        forall|s: int| #[trigger] isset(RANK8, s) == (0 <= s < 64 && rank_of(s) == 7),
        forall|s: int| #[trigger] isset(BOTTOM_2_RANK, s) == (0 <= s < 64 && rank_of(s) <= 1),
        forall|s: int| #[trigger] isset(TOP_2_RANK, s) == (0 <= s < 64 && rank_of(s) >= 6),
{
    bv_edge_masks();
    assert forall|s: int| #[trigger] isset(A_FILE, s) == (0 <= s < 64 && file_of(s) == 0) by {
        if 0 <= s < 64 {
            assert(bit(A_FILE, s as u64) == ((s as u64) < 64 && (s as u64) % 8 == 0));
        }
    }
    assert forall|s: int| #[trigger] isset(H_FILE, s) == (0 <= s < 64 && file_of(s) == 7) by {
        if 0 <= s < 64 {
            assert(bit(H_FILE, s as u64) == ((s as u64) < 64 && (s as u64) % 8 == 7));
        }
    }
    assert forall|s: int| #[trigger]
        isset(LEFT_2_FILE, s) == (0 <= s < 64 && file_of(s) <= 1) by {
        if 0 <= s < 64 {
            assert(bit(LEFT_2_FILE, s as u64) == ((s as u64) < 64 && (s as u64) % 8 <= 1));
        }
    }
    assert forall|s: int| #[trigger]
        isset(RIGHT_2_FILE, s) == (0 <= s < 64 && file_of(s) >= 6) by {
        if 0 <= s < 64 {
            assert(bit(RIGHT_2_FILE, s as u64) == ((s as u64) < 64 && (s as u64) % 8 >= 6));
        }
    }
    assert forall|s: int| #[trigger] isset(RANK1, s) == (0 <= s < 64 && rank_of(s) == 0) by {
        if 0 <= s < 64 {
            assert(bit(RANK1, s as u64) == ((s as u64) < 8));
        }
    }
    assert forall|s: int| #[trigger] isset(RANK2, s) == (0 <= s < 64 && rank_of(s) == 1) by {
        if 0 <= s < 64 {
            assert(bit(RANK2, s as u64) == (8 <= (s as u64) < 16));
        }
    }
    assert forall|s: int| #[trigger] isset(RANK7, s) == (0 <= s < 64 && rank_of(s) == 6) by {
        if 0 <= s < 64 {
            assert(bit(RANK7, s as u64) == (48 <= (s as u64) < 56));
        }
    }
    assert forall|s: int| #[trigger] isset(RANK8, s) == (0 <= s < 64 && rank_of(s) == 7) by {
        if 0 <= s < 64 {
            assert(bit(RANK8, s as u64) == (56 <= (s as u64) < 64));
        }
    }
    assert forall|s: int| #[trigger]
        isset(BOTTOM_2_RANK, s) == (0 <= s < 64 && rank_of(s) <= 1) by {
        if 0 <= s < 64 {
            assert(bit(BOTTOM_2_RANK, s as u64) == ((s as u64) < 16));
        }
    }
    assert forall|s: int| #[trigger]
        isset(TOP_2_RANK, s) == (0 <= s < 64 && rank_of(s) >= 6) by {
        if 0 <= s < 64 {
            assert(bit(TOP_2_RANK, s as u64) == (48 <= (s as u64) < 64));
        }
    }
}

/// Multipliers of the rook tables, one per square.
pub const ROOK_MAGICS: [u64; 64] = [
    0x8A80104000800020, 0xC40100040082000, 0x100102001000840, 0x1080041000080080,
    0x4280240080020800, 0x4800A00211C0080, 0x1080008001000200, 0x42000082C9020424,
    0x2002081004200, 0x2002081004200, 0x801000802000, 0x201001000082100,
    0xE41001005000800, 0x1022001008854200, 0x211000100020084, 0x18801041000080,
    0x80084000200040, 0x20A0024000500020, 0x80410010200901, 0x2083090010002300,
    0x808004000800, 0x804008080040200, 0x8800040002100108, 0x20001208044,
    0x4020800080204000, 0x40008280200042, 0x820200204010, 0x200100480080080,
    0x300040080080080, 0x804008080040200, 0x8000020400881001, 0x88808200204401,
    0x6480042006400041, 0x4080804000802000, 0x801000802000, 0x1518001000800882,
    0xE41001005000800, 0x1012001002000408, 0x140108804006201, 0x2050882000054,
    0x90080C000618011, 0xA0004000208080, 0x22001080220043, 0x1012010050008,
    0x40008008080, 0x1100040002008080, 0x40100182040008, 0x800000648102000C,
    0x481248002C90100, 0x2002081004200, 0x400C802211420200, 0x280200C10010100,
    0x300040080080080, 0x1100040002008080, 0x4000018802100400, 0x4310800100004080,
    0x4024800508102041, 0x88801100204001, 0x401080104200200A, 0x8010210408100101,
    0x9202002005881002, 0x8012004824011022, 0x2000011002080084, 0x1010549228402,
];

/// Multipliers of the bishop tables, one per square.
pub const BISHOP_MAGICS: [u64; 64] = [
    0x40040822862081, 0x10201A0200411402, 0x81024288020C000, 0x1404640080008810,
    0x9004242000012008, 0x10A412020A04008, 0x1000989008208000, 0x22010108410402,
    0x2104840810014200, 0x2150210810A080, 0x81080089061040, 0x2400A82040408008,
    0x240420005810, 0x4200022860180000, 0x4000090082504000, 0x410402422220,
    0x8140420C80200, 0x2038A4832080200, 0xC108005006404048, 0x2208001041404049,
    0xC014021880A01000, 0x704200110101006, 0x2808C12013100, 0x6400411200444402,
    0x124240A1041400, 0x8802088010100088, 0x4020040408508, 0x604080004006128,
    0x8000848004002004, 0x4008020008405210, 0x806000AA22902, 0x2200888682020080,
    0x10C2105000400320, 0x8018010800102208, 0x4000841102100044, 0x200800050104,
    0x160C030400280408, 0x820080320094405, 0x201E40100540101, 0x8408248080002227,
    0x8021004001040, 0x400455030034803, 0x912020322180400, 0x8026013002800,
    0xE000040810130200, 0x2168500092000020, 0x2002304119002200, 0x1901020400400510,
    0x1000989008208000, 0x100840108020006, 0x3010020842088080, 0x8000001B84044881,
    0x8004404010510072, 0xC10801010000, 0x4090808148101, 0x10201A0200411402,
    0x22010108410402, 0x410402422220, 0x41000114204D004, 0x4082000100840440,
    0x400C802211420200, 0x81800140828C8100, 0x2104840810014200, 0x40040822862081,
];

/// Number of relevant squares of a bishop, one per square.
pub const BISHOP_MOVE_COUNTS: [u64; 64] = [
    6, 5, 5, 5, 5, 5, 5, 6,
    5, 5, 5, 5, 5, 5, 5, 5,
    5, 5, 7, 7, 7, 7, 5, 5,
    5, 5, 7, 9, 9, 7, 5, 5,
    5, 5, 7, 9, 9, 7, 5, 5,
    5, 5, 7, 7, 7, 7, 5, 5,
    5, 5, 5, 5, 5, 5, 5, 5,
    6, 5, 5, 5, 5, 5, 5, 6,
];

/// Number of relevant squares of a rook, one per square.
pub const ROOK_MOVE_COUNTS: [u64; 64] = [
    12, 11, 11, 11, 11, 11, 11, 12,
    11, 10, 10, 10, 10, 10, 10, 11,
    11, 10, 10, 10, 10, 10, 10, 11,
    11, 10, 10, 10, 10, 10, 10, 11,
    11, 10, 10, 10, 10, 10, 10, 11,
    11, 10, 10, 10, 10, 10, 10, 11,
    11, 10, 10, 10, 10, 10, 10, 11,
    12, 11, 11, 11, 11, 11, 11, 12,
];

/// How many squares lie strictly between a square and the edge of the board,
/// counted from the square that has `ahead` squares before it in some
/// direction.
pub open spec fn inner_count(ahead: int) -> int {
    if ahead >= 1 {
        ahead - 1
    } else {
        0
    }
}

/// The multipliers of a board, as plain numbers.
pub open spec fn magic_values(magics: ChessBoard<MagicNum>) -> Seq<u64> {
    Seq::new(64, |s: int| magics.0[s].0)
}

/// The smaller of two numbers.
pub open spec fn least(a: int, b: int) -> int {
    if a <= b {
        a
    } else {
        b
    }
}

/// Number of squares whose occupancy matters to a rook on `s`.
pub open spec fn rook_relevant_count(s: int) -> int {
    inner_count(7 - file_of(s)) + inner_count(file_of(s)) + inner_count(7 - rank_of(s))
        + inner_count(rank_of(s))
}

/// Number of squares whose occupancy matters to a bishop on `s`.
pub open spec fn bishop_relevant_count(s: int) -> int {
    inner_count(least(7 - rank_of(s), 7 - file_of(s))) + inner_count(
        least(rank_of(s), file_of(s)),
    ) + inner_count(least(7 - rank_of(s), file_of(s))) + inner_count(
        least(rank_of(s), 7 - file_of(s)),
    )
}

/// The number of relevant squares of a bishop on each square.
pub fn create_bishop_move_counts() -> (r: ChessBoard<u64>)
    ensures
        r.0@ == BISHOP_MOVE_COUNTS@,
        forall|s: int| 0 <= s < 64 ==> #[trigger] r.0[s] == bishop_relevant_count(s),
{
    let r = ChessBoard(BISHOP_MOVE_COUNTS);
    proof {
        assert forall|s: int| 0 <= s < 64 implies #[trigger] r.0[s] == bishop_relevant_count(
            s,
        ) by {
            lemma_bishop_counts(s);
        }
    }
    r
}

/// The number of relevant squares of a rook on each square.
pub fn create_rook_move_counts() -> (r: ChessBoard<u64>)
    ensures
        r.0@ == ROOK_MOVE_COUNTS@,
        forall|s: int| 0 <= s < 64 ==> #[trigger] r.0[s] == rook_relevant_count(s),
{
    let r = ChessBoard(ROOK_MOVE_COUNTS);
    proof {
        assert forall|s: int| 0 <= s < 64 implies #[trigger] r.0[s] == rook_relevant_count(s) by {
            lemma_rook_counts(s);
        }
    }
    r
}

/// The counts of the rook are those of the squares between it and the edges.
pub proof fn lemma_rook_counts(s: int)
    requires
        0 <= s < 64,
    ensures
        ROOK_MOVE_COUNTS[s] == rook_relevant_count(s),
{
    let r = rank_of(s);
    let f = file_of(s);
    assert(s == 8 * r + f);
    assert(ROOK_MOVE_COUNTS[8 * r + f] == rook_relevant_count(8 * r + f)) by {
        if r == 0 {
        } else if r == 1 {
        } else if r == 2 {
        } else if r == 3 {
        } else if r == 4 {
        } else if r == 5 {
        } else if r == 6 {
        } else {
        }
    }
}

/// The counts of the bishop are those of the squares between it and the
/// edges.
pub proof fn lemma_bishop_counts(s: int)
    requires
        0 <= s < 64,
    ensures
        BISHOP_MOVE_COUNTS[s] == bishop_relevant_count(s),
{
    let r = rank_of(s);
    let f = file_of(s);
    assert(s == 8 * r + f);
    assert(BISHOP_MOVE_COUNTS[8 * r + f] == bishop_relevant_count(8 * r + f)) by {
        if r == 0 {
        } else if r == 1 {
        } else if r == 2 {
        } else if r == 3 {
        } else if r == 4 {
        } else if r == 5 {
        } else if r == 6 {
        } else {
        }
    }
}

/// The rook multipliers, as a board of multipliers.
pub fn create_rook_magics() -> (r: ChessBoard<MagicNum>)
    ensures
        magic_values(r) == ROOK_MAGICS@,
{
    magics_of(&ROOK_MAGICS)
}

/// The bishop multipliers, as a board of multipliers.
pub fn create_bishop_magics() -> (r: ChessBoard<MagicNum>)
    ensures
        magic_values(r) == BISHOP_MAGICS@,
{
    magics_of(&BISHOP_MAGICS)
}

/// The numbers given, as a board of multipliers.
fn magics_of(values: &[u64; 64]) -> (r: ChessBoard<MagicNum>)
    ensures
        magic_values(r) == values@,
{
    let mut out: ChessBoard<MagicNum> = ChessBoard([MagicNum(0);64]);
    let mut index: u8 = 0;
    while index < 64
        invariant
            index <= 64,
            forall|s: int| 0 <= s < index ==> (#[trigger] out.0[s]).0 == values[s],
        decreases 64 - index,
    {
        out.set(Square(index), MagicNum(values[index as usize]));
        index = index + 1;
    }
    proof {
        assert(magic_values(out) =~= values@);
    }
    out
}

} // verus!
