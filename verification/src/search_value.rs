//! What the search computes: the value of a position under best play to a
//! given depth, and what follows from its definition.

use vstd::prelude::*;

use crate::constants::eveluation_constants::{MATE_SCORE, MAX_DEPTH, QUIET_PLIES};
use crate::pieces::move_bits::lemma_identity;
use crate::eveluation::{evaluation, lemma_evaluation};
use crate::pieces::pieces_controller::{MoveBitField, Position};

verus! {

/// The greater of two numbers.
pub open spec fn greater(a: int, b: int) -> int {
    if a >= b {
        a
    } else {
        b
    }
}

/// `v` held within the bounds: `hi` where it is no less, `lo` where it is
/// no more.
pub open spec fn clamped(v: int, lo: int, hi: int) -> int {
    if v >= hi {
        hi
    } else if v <= lo {
        lo
    } else {
        v
    }
}

/// What a search within the bounds `lo` and `hi` may return for a position
/// of value `v`: `v` itself where it lies between the bounds, and else a
/// number on the same side of the bound that `v` has passed.
pub open spec fn tells(r: int, v: int, lo: int, hi: int) -> bool {
    &&& (r <= lo <==> v <= lo)
    &&& (r >= hi <==> v >= hi)
    &&& (lo < r < hi ==> r == v)
}

/// The value of a position once the captures have been played out: the
/// worth of the position as it stands or, where that is better for the side
/// to move, what its best legal capture leads to, for at most `plies`
/// captures in a row.
pub open spec fn quiet_value(pos: Position, plies: nat) -> int
    decreases plies, 2nat, 0nat,
{
    quiet_over(pos, pos.generated(), plies, evaluation(pos))
}

/// The best of `floor` and of what each legal capture among `moves` leads
/// to.
pub open spec fn quiet_over(pos: Position, moves: Seq<MoveBitField>, plies: nat, floor: int) -> int
    decreases plies, 1nat, moves.len(),
{
    if moves.len() == 0 || plies == 0 {
        floor
    } else if moves.last().capture() && pos.leaves_king_safe(moves.last()) {
        greater(
            quiet_over(pos, moves.drop_last(), plies, floor),
            -quiet_value(pos.moved(moves.last()), (plies - 1) as nat),
        )
    } else {
        quiet_over(pos, moves.drop_last(), plies, floor)
    }
}

/// The value of a position to the side to move under best play of `depth`
/// moves: what its best legal move leads to; where it has no legal move,
/// the mate score lowered by the depth if its king is attacked, and zero if
/// not; at depth zero, the value once the captures have been played out.
pub open spec fn node_value(pos: Position, depth: nat) -> int
    decreases depth, 2nat, 0nat,
{
    if depth == 0 {
        quiet_value(pos, QUIET_PLIES as nat)
    } else {
        match best_over(pos, pos.generated(), depth) {
            Some(v) => v,
            None => if pos.in_check(pos.color) {
                -MATE_SCORE - depth
            } else {
                0
            },
        }
    }
}

/// What the best of the legal moves among `moves` leads to at depth
/// `depth`; `None` where none of them is legal.
pub open spec fn best_over(pos: Position, moves: Seq<MoveBitField>, depth: nat) -> Option<int>
    decreases depth, 1nat, moves.len(),
{
    if moves.len() == 0 || depth == 0 {
        None
    } else if pos.leaves_king_safe(moves.last()) {
        let here = -node_value(pos.moved(moves.last()), (depth - 1) as nat);
        match best_over(pos, moves.drop_last(), depth) {
            Some(v) => Some(greater(v, here)),
            None => Some(here),
        }
    } else {
        best_over(pos, moves.drop_last(), depth)
    }
}

/// What the move `m` leads to at depth `depth`, for the side that makes
/// it.
pub open spec fn reply_value(pos: Position, m: MoveBitField, depth: nat) -> int {
    -node_value(pos.moved(m), (depth - 1) as nat)
}

/// Some move of `list` is the same move as `m`.
#[verifier::opaque]
pub open spec fn has_move(list: Seq<MoveBitField>, m: MoveBitField) -> bool {
    exists|j: int| 0 <= j < list.len() && m.same_move(#[trigger] list[j])
}

/// Every move of `a` is the same move as some move of `b`.
pub open spec fn covers(a: Seq<MoveBitField>, b: Seq<MoveBitField>) -> bool {
    forall|i: int| 0 <= i < a.len() ==> has_move(b, #[trigger] a[i])
}

/// The place of a move of `list` that is the same move as `m`.
pub proof fn lemma_has_move(list: Seq<MoveBitField>, m: MoveBitField) -> (j: int)
    requires
        has_move(list, m),
    ensures
        0 <= j < list.len(),
        m.same_move(list[j]),
{
    reveal(has_move);
    choose|j: int| 0 <= j < list.len() && m.same_move(#[trigger] list[j])
}

/// Two moves that are the same move are both captures or neither, and lead
/// to the same position.
pub proof fn lemma_same_move(pos: Position, a: MoveBitField, b: MoveBitField)
    requires
        a.same_move(b),
    ensures
        a.capture() == b.capture(),
        pos.moved(a) == pos.moved(b),
        pos.leaves_king_safe(a) == pos.leaves_king_safe(b),
{
    reveal(Position::moved);
    reveal(Position::leaves_king_safe);
    lemma_identity(a.0, b.0);
}

/// The best over moves is no less than what any legal one of them leads
/// to.
pub proof fn lemma_best_over_upper(pos: Position, moves: Seq<MoveBitField>, depth: nat, k: int)
    requires
        depth >= 1,
        0 <= k < moves.len(),
        pos.leaves_king_safe(moves[k]),
    ensures
        best_over(pos, moves, depth) is Some,
        best_over(pos, moves, depth)->0 >= reply_value(pos, moves[k], depth),
    decreases moves.len(),
{
    if k < moves.len() - 1 {
        assert(moves.drop_last()[k] == moves[k]);
        lemma_best_over_upper(pos, moves.drop_last(), depth, k);
    }
}

/// The best over moves is what some legal one of them leads to.
pub proof fn lemma_best_over_witness(pos: Position, moves: Seq<MoveBitField>, depth: nat) -> (k:
    int)
    requires
        best_over(pos, moves, depth) is Some,
    ensures
        0 <= k < moves.len(),
        depth >= 1,
        pos.leaves_king_safe(moves[k]),
        best_over(pos, moves, depth)->0 == reply_value(pos, moves[k], depth),
    decreases moves.len(),
{
    let head = moves.drop_last();
    let last = moves.last();
    if pos.leaves_king_safe(last) {
        let here = reply_value(pos, last, depth);
        match best_over(pos, head, depth) {
            Some(v) => {
                if v >= here {
                    let k = lemma_best_over_witness(pos, head, depth);
                    assert(head[k] == moves[k]);
                    k
                } else {
                    moves.len() - 1
                }
            },
            None => moves.len() - 1,
        }
    } else {
        let k = lemma_best_over_witness(pos, head, depth);
        assert(head[k] == moves[k]);
        k
    }
}

/// The best over two lists that hold the same moves is the same.
pub proof fn lemma_best_over_same(
    pos: Position,
    a: Seq<MoveBitField>,
    b: Seq<MoveBitField>,
    depth: nat,
)
    requires
        covers(a, b),
        covers(b, a),
    ensures
        best_over(pos, a, depth) == best_over(pos, b, depth),
{
    lemma_best_over_below(pos, a, b, depth);
    lemma_best_over_below(pos, b, a, depth);
}

/// Where every move of `a` is one of `b`, the best over `a` is no more
/// than the best over `b`.
pub proof fn lemma_best_over_below(
    pos: Position,
    a: Seq<MoveBitField>,
    b: Seq<MoveBitField>,
    depth: nat,
)
    requires
        covers(a, b),
    ensures
        best_over(pos, a, depth) is Some ==> best_over(pos, b, depth) is Some && best_over(
            pos,
            a,
            depth,
        )->0 <= best_over(pos, b, depth)->0,
{
    if best_over(pos, a, depth) is Some {
        let k = lemma_best_over_witness(pos, a, depth);
        assert(has_move(b, a[k]));
        let j = lemma_has_move(b, a[k]);
        lemma_same_move(pos, a[k], b[j]);
        lemma_best_over_upper(pos, b, depth, j);
    }
}

/// The best over the captures among moves is no less than the floor and
/// than what any legal capture among them leads to.
pub proof fn lemma_quiet_over_upper(
    pos: Position,
    moves: Seq<MoveBitField>,
    plies: nat,
    floor: int,
    k: int,
)
    requires
        plies >= 1,
        0 <= k < moves.len(),
    ensures
        quiet_over(pos, moves, plies, floor) >= floor,
        moves[k].capture() && pos.leaves_king_safe(moves[k]) ==> quiet_over(
            pos,
            moves,
            plies,
            floor,
        ) >= -quiet_value(pos.moved(moves[k]), (plies - 1) as nat),
    decreases moves.len(),
{
    if moves.len() > 1 {
        let j = if k < moves.len() - 1 {
            k
        } else {
            0
        };
        assert(moves.drop_last()[j] == moves[j]);
        lemma_quiet_over_upper(pos, moves.drop_last(), plies, floor, j);
    } else {
        assert(quiet_over(pos, moves.drop_last(), plies, floor) == floor);
    }
}

/// The best over the captures among moves is the floor or what some legal
/// capture among them leads to.
pub proof fn lemma_quiet_over_witness(
    pos: Position,
    moves: Seq<MoveBitField>,
    plies: nat,
    floor: int,
) -> (k: int)
    ensures
        quiet_over(pos, moves, plies, floor) >= floor,
        quiet_over(pos, moves, plies, floor) != floor ==> 0 <= k < moves.len() && plies >= 1
            && moves[k].capture() && pos.leaves_king_safe(moves[k]) && quiet_over(
            pos,
            moves,
            plies,
            floor,
        ) == -quiet_value(pos.moved(moves[k]), (plies - 1) as nat),
    decreases moves.len(),
{
    if moves.len() == 0 || plies == 0 {
        0
    } else {
        let head = moves.drop_last();
        let k = lemma_quiet_over_witness(pos, head, plies, floor);
        if quiet_over(pos, moves, plies, floor) == quiet_over(pos, head, plies, floor) {
            if quiet_over(pos, head, plies, floor) != floor {
                assert(head[k] == moves[k]);
            }
            k
        } else {
            moves.len() - 1
        }
    }
}

/// Where every move of `a` is one of `b`, the best over the captures of
/// `a` is no more than that over those of `b`.
pub proof fn lemma_quiet_over_below(
    pos: Position,
    a: Seq<MoveBitField>,
    b: Seq<MoveBitField>,
    plies: nat,
    floor: int,
)
    requires
        covers(a, b),
    ensures
        quiet_over(pos, a, plies, floor) <= quiet_over(pos, b, plies, floor),
{
    let k = lemma_quiet_over_witness(pos, a, plies, floor);
    let other = lemma_quiet_over_witness(pos, b, plies, floor);
    if quiet_over(pos, a, plies, floor) != floor {
        assert(has_move(b, a[k]));
        let j = lemma_has_move(b, a[k]);
        lemma_same_move(pos, a[k], b[j]);
        lemma_quiet_over_upper(pos, b, plies, floor, j);
    }
}

/// The best over the captures of two lists that hold the same moves is the
/// same.
pub proof fn lemma_quiet_over_same(
    pos: Position,
    a: Seq<MoveBitField>,
    b: Seq<MoveBitField>,
    plies: nat,
    floor: int,
)
    requires
        covers(a, b),
        covers(b, a),
    ensures
        quiet_over(pos, a, plies, floor) == quiet_over(pos, b, plies, floor),
{
    lemma_quiet_over_below(pos, a, b, plies, floor);
    lemma_quiet_over_below(pos, b, a, plies, floor);
}

/// The moves in the order in which the search tries them are the moves
/// that are generated.
pub proof fn lemma_ordered_covers(pos: Position, killers: (MoveBitField, MoveBitField))
    ensures
        covers(pos.ordered_moves(killers), pos.generated()),
        covers(pos.generated(), pos.ordered_moves(killers)),
        pos.ordered_moves(killers).len() == pos.generated().len(),
{
    let ordered = pos.ordered_moves(killers);
    let generated = pos.generated();
    pos.lemma_ranked(killers, generated);
    assert forall|i: int| 0 <= i < ordered.len() implies has_move(
        generated,
        #[trigger] ordered[i],
    ) by {
        let k = pos.lemma_ranked_source(killers, generated, i);
        reveal(has_move);
        assert(ordered[i].same_move(generated[k]));
    }
    assert forall|i: int| 0 <= i < generated.len() implies has_move(
        ordered,
        #[trigger] generated[i],
    ) by {
        let j = pos.lemma_ranked_target(killers, generated, i);
        reveal(has_move);
        assert(generated[i].same_move(ordered[j]));
    }
}

/// The greatest that a value can be, either way.
pub const VALUE_BOUND: isize = 844800;

/// The value of a position once the captures have been played out lies
/// within the bound.
pub proof fn lemma_quiet_value_bound(pos: Position, plies: nat)
    ensures
        -VALUE_BOUND <= quiet_value(pos, plies) <= VALUE_BOUND,
    decreases plies,
{
    lemma_evaluation(pos);
    let moves = pos.generated();
    let floor = evaluation(pos);
    let k = lemma_quiet_over_witness(pos, moves, plies, floor);
    if quiet_over(pos, moves, plies, floor) != floor {
        lemma_quiet_value_bound(pos.moved(moves[k]), (plies - 1) as nat);
    }
}

/// The value of a position at a depth that the search reaches lies within
/// the bound.
pub proof fn lemma_node_value_bound(pos: Position, depth: nat)
    requires
        depth <= MAX_DEPTH,
    ensures
        -VALUE_BOUND <= node_value(pos, depth) <= VALUE_BOUND,
    decreases depth,
{
    if depth == 0 {
        lemma_quiet_value_bound(pos, QUIET_PLIES as nat);
    } else {
        let moves = pos.generated();
        if best_over(pos, moves, depth) is Some {
            let k = lemma_best_over_witness(pos, moves, depth);
            lemma_node_value_bound(pos.moved(moves[k]), (depth - 1) as nat);
        }
    }
}

/// What a search within bounds returns for a position: its value held
/// within the bounds; but its value as it is where the side to move has no
/// legal move.
pub open spec fn search_result(pos: Position, depth: nat, lo: int, hi: int) -> int {
    if depth > 0 && best_over(pos, pos.generated(), depth) is None {
        node_value(pos, depth)
    } else {
        clamped(node_value(pos, depth), lo, hi)
    }
}

/// What a search returns tells the value of the position as far as the
/// bounds let it.
pub proof fn lemma_search_result_tells(pos: Position, depth: nat, lo: int, hi: int)
    requires
        lo < hi,
    ensures
        tells(search_result(pos, depth, lo, hi), node_value(pos, depth), lo, hi),
        tells(clamped(node_value(pos, depth), lo, hi), node_value(pos, depth), lo, hi),
{
}

/// A position in which the side to move has no legal move and its king is
/// attacked has the mate score, lowered by the depth, as its value at every
/// depth from one on; and zero where its king is not attacked.
pub proof fn lemma_mate_value(pos: Position, depth: nat)
    requires
        depth >= 1,
        pos.legal_moves().len() == 0,
    ensures
        best_over(pos, pos.generated(), depth) is None,
        pos.in_check(pos.color) ==> node_value(pos, depth) == -MATE_SCORE - depth,
        !pos.in_check(pos.color) ==> node_value(pos, depth) == 0,
{
    let moves = pos.generated();
    if best_over(pos, moves, depth) is Some {
        let k = lemma_best_over_witness(pos, moves, depth);
        pos.lemma_legal_among(moves, moves[k]);
        assert(moves.contains(moves[k]));
        assert(pos.legal_moves().contains(moves[k]));
    }
}

/// A mate that is found with more depth left to search counts for less to
/// the side that is mated than one found with less depth left: of two
/// lines that end in mate the search prefers, for the side that mates, the
/// one in which the mate stands nearer to the root.
pub proof fn lemma_mate_sooner(pos: Position, near: nat, far: nat)
    requires
        1 <= near < far,
        pos.legal_moves().len() == 0,
        pos.in_check(pos.color),
    ensures
        node_value(pos, far) < node_value(pos, near),
        node_value(pos, near) - node_value(pos, far) == far - near,
{
    lemma_mate_value(pos, near);
    lemma_mate_value(pos, far);
}

/// What the search of the root finds at a depth: no move where the side to
/// move has no legal move, and else a legal move among the generated ones
/// that leads to the value of the position, with that value.
pub open spec fn root_choice(pos: Position, depth: nat, best: MoveBitField, value: int) -> bool {
    match best_over(pos, pos.generated(), depth) {
        None => best.0 == 0,
        Some(v) => {
            &&& value == v
            &&& v == node_value(pos, depth)
            &&& has_move(pos.generated(), best)
            &&& pos.leaves_king_safe(best)
            &&& reply_value(pos, best, depth) == v
        },
    }
}

/// Where the side to move has one legal move only, the search of the root
/// finds it.
pub proof fn lemma_forced_reply(
    pos: Position,
    depth: nat,
    best: MoveBitField,
    value: int,
    only: MoveBitField,
)
    requires
        depth >= 1,
        root_choice(pos, depth, best, value),
        pos.legal_moves().contains(only),
        forall|m: MoveBitField| pos.legal_moves().contains(m) ==> m.same_move(only),
    ensures
        best.same_move(only),
{
    let moves = pos.generated();
    pos.lemma_legal_among(moves, only);
    assert(moves.contains(only));
    let k = choose|k: int| 0 <= k < moves.len() && moves[k] == only;
    lemma_best_over_upper(pos, moves, depth, k);
    assert(best_over(pos, moves, depth) is Some);
    assert(has_move(moves, best));
    let j = lemma_has_move(moves, best);
    lemma_same_move(pos, best, moves[j]);
    pos.lemma_legal_among(moves, moves[j]);
    assert(moves.contains(moves[j]));
    assert(pos.legal_moves().contains(moves[j]));
    assert(moves[j].same_move(only));
}

/// The side to move has a legal move exactly when some move leads to a
/// value for it at every depth from one on.
pub proof fn lemma_some_legal(pos: Position, depth: nat)
    requires
        depth >= 1,
    ensures
        best_over(pos, pos.generated(), depth) is Some <==> pos.legal_moves().len() > 0,
{
    let moves = pos.generated();
    if pos.legal_moves().len() > 0 {
        pos.lemma_legal_among_safe(moves, 0);
        let m = pos.legal_moves()[0];
        let k = choose|k: int| 0 <= k < moves.len() && moves[k] == m;
        lemma_best_over_upper(pos, moves, depth, k);
    } else {
        lemma_mate_value(pos, depth);
    }
}

/// What a search leaves as the best move of a position whatever depth it
/// reached: no move where the side to move has no legal move, and else one
/// of its legal moves.
pub open spec fn root_pick(pos: Position, best: MoveBitField) -> bool {
    if pos.legal_moves().len() == 0 {
        best.0 == 0
    } else {
        has_move(pos.generated(), best) && pos.leaves_king_safe(best)
    }
}

/// What the search of the root finds is what a search may leave as the
/// best move.
pub proof fn lemma_root_choice_pick(pos: Position, depth: nat, best: MoveBitField, value: int)
    requires
        depth >= 1,
        root_choice(pos, depth, best, value),
    ensures
        root_pick(pos, best),
{
    lemma_some_legal(pos, depth);
}

/// The place of the first of `moves` from `from` on that leaves the king of
/// the side that moves safe; the length of `moves` where none does.
pub open spec fn first_safe(pos: Position, moves: Seq<MoveBitField>, from: int) -> int
    decreases moves.len() - from,
{
    if from < 0 || from >= moves.len() {
        moves.len() as int
    } else if pos.leaves_king_safe(moves[from]) {
        from
    } else {
        first_safe(pos, moves, from + 1)
    }
}

/// The first legal move in the order in which the search tries the moves;
/// no move where none is legal.
pub open spec fn first_legal(pos: Position, killers: (MoveBitField, MoveBitField)) -> MoveBitField {
    let moves = pos.ordered_moves(killers);
    if 0 <= first_safe(pos, moves, 0) < moves.len() {
        moves[first_safe(pos, moves, 0)]
    } else {
        MoveBitField(0)
    }
}

/// The first safe move of a list is safe, and no move before it is.
pub proof fn lemma_first_safe(pos: Position, moves: Seq<MoveBitField>, from: int)
    requires
        0 <= from <= moves.len(),
    ensures
        from <= first_safe(pos, moves, from) <= moves.len(),
        first_safe(pos, moves, from) < moves.len() ==> pos.leaves_king_safe(
            moves[first_safe(pos, moves, from)],
        ),
        forall|k: int|
            from <= k < first_safe(pos, moves, from) ==> !pos.leaves_king_safe(#[trigger] moves[k]),
    decreases moves.len() - from,
{
    if from < moves.len() && !pos.leaves_king_safe(moves[from]) {
        lemma_first_safe(pos, moves, from + 1);
    }
}

/// The first legal move in the order of the search is what a search may
/// leave as the best move.
pub proof fn lemma_first_legal_pick(pos: Position, killers: (MoveBitField, MoveBitField))
    ensures
        root_pick(pos, first_legal(pos, killers)),
{
    let moves = pos.ordered_moves(killers);
    let generated = pos.generated();
    let at = first_safe(pos, moves, 0);
    lemma_first_safe(pos, moves, 0);
    lemma_ordered_covers(pos, killers);
    if at < moves.len() {
        assert(has_move(generated, moves[at]));
        let j = lemma_has_move(generated, moves[at]);
        lemma_same_move(pos, moves[at], generated[j]);
        pos.lemma_legal_among(generated, generated[j]);
        assert(generated.contains(generated[j]));
        assert(pos.legal_moves().contains(generated[j]));
    } else if pos.legal_moves().len() > 0 {
        pos.lemma_legal_among_safe(generated, 0);
        let m = pos.legal_moves()[0];
        let k = choose|k: int| 0 <= k < generated.len() && generated[k] == m;
        assert(has_move(moves, generated[k]));
        let j = lemma_has_move(moves, generated[k]);
        lemma_same_move(pos, generated[k], moves[j]);
        assert(!pos.leaves_king_safe(moves[j]));
    }
}

/// The place of the first of `moves` from `from` on that is legal and
/// leads to a value no less than `beta`: the move at which a search within
/// the upper bound `beta` stops looking further. The length of `moves` where
/// there is none.
pub open spec fn first_cut(
    pos: Position,
    moves: Seq<MoveBitField>,
    depth: nat,
    beta: int,
    from: int,
) -> int
    decreases moves.len() - from,
{
    if from < 0 || from >= moves.len() {
        moves.len() as int
    } else if pos.leaves_king_safe(moves[from]) && reply_value(pos, moves[from], depth) >= beta {
        from
    } else {
        first_cut(pos, moves, depth, beta, from + 1)
    }
}

/// The killer moves of the ply of a position after a search of it to the
/// depth `depth` within the upper bound `beta`, where `killers` were the
/// killer moves of the ply before: where the move at which the search stops
/// looking further takes no piece, it becomes the first killer move, and the
/// former first becomes the second; else the killer moves stay. They stay
/// too at depth zero and for a ply beyond the last that is remembered.
pub open spec fn killers_after(
    pos: Position,
    killers: (MoveBitField, MoveBitField),
    depth: nat,
    beta: int,
) -> (MoveBitField, MoveBitField) {
    let moves = pos.ordered_moves(killers);
    let at = first_cut(pos, moves, depth, beta, 0);
    if depth >= 1 && pos.half_move < 64 && 0 <= at < moves.len() && !moves[at].capture() {
        (moves[at], killers.0)
    } else {
        killers
    }
}

} // verus!
