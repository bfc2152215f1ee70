//! A chess engine on bitboards: attack tables, the generation of moves, and
//! a search for the best move.

pub mod bits;
pub mod board_components;
pub mod constants;
pub mod debug;
pub mod eveluation;
pub mod pieces;
pub mod quiet_plies;
pub mod round_trip;
pub mod search_value;
pub mod text;
pub mod uci;

use vstd::prelude::*;
use crate::debug::{position_of, FenError, FenString, Notation};
use crate::pieces::pieces_controller::{is_in_check, legal_of, MoveBitField, MoveList, Position};
use crate::pieces::tables::{init_statics, multipliers_magic, AttackTables};
use crate::uci::{get_move, named_from, RequestError, UciInformation};

verus! {

/// Builds all attack tables.
pub fn init_all_statics() -> (r: Option<AttackTables>)
    ensures
        r matches Some(t) ==> t.wf(),
        r is Some <==> multipliers_magic(),
{
    init_statics()
}

/// The fields of a notation once the blanks at its two ends are gone.
pub open spec fn fields_of(fen: Seq<char>) -> Notation {
    Notation {
        board: crate::debug::field(crate::debug::trimmed(fen), 0, 0),
        color: crate::debug::field(crate::debug::trimmed(fen), 0, 1),
        castles: crate::debug::field(crate::debug::trimmed(fen), 0, 2),
        enpassant: crate::debug::field(crate::debug::trimmed(fen), 0, 3),
        half_move: crate::debug::field(crate::debug::trimmed(fen), 0, 4),
        full_move: crate::debug::field(crate::debug::trimmed(fen), 0, 5),
    }
}

/// The names of the legal moves of the position that the notation gives,
/// in the order in which the search tries them; no name comes twice.
pub fn get_moves(tables: &AttackTables, fen: String) -> (r: Result<Vec<String>, FenError>)
    requires
        tables.wf(),
    ensures
        match r {
            Ok(names) => match position_of(fields_of(fen@)) {
                Ok(pos) => {
                    let moves = pos.legal_among(
                        pos.ordered_moves((MoveBitField(0), MoveBitField(0))),
                    );
                    &&& names@.len() == moves.len()
                    &&& forall|i: int|
                        0 <= i < moves.len() ==> (#[trigger] names@[i])@ == moves[i].name()
                    &&& forall|i: int, j: int|
                        0 <= i < j < names@.len() ==> (#[trigger] names@[i])@
                            != (#[trigger] names@[j])@
                },
                Err(_) => false,
            },
            Err(e) => position_of(fields_of(fen@)) == Err::<Position, FenError>(e),
        },
{
    let board = match FenString::new(fen).convert_to_board() {
        Ok(board) => board,
        Err(e) => {
            return Err(e);
        },
    };
    let info = UciInformation::new().set_board(board);
    let moves = MoveList::new(&info, tables);
    let legal = legal_of(&board, tables, &moves);
    let mut names: Vec<String> = Vec::new();
    let mut i: usize = 0;
    while i < legal.len()
        invariant
            i <= legal@.len(),
            names@.len() == i,
            forall|k: int| 0 <= k < i ==> (#[trigger] names@[k])@ == legal@[k].name(),
        decreases legal@.len() - i,
    {
        names.push(legal[i].get_move_name());
        i = i + 1;
    }
    proof {
        board@.lemma_legal_names((MoveBitField(0), MoveBitField(0)));
    }
    Ok(names)
}

/// The notation of the position that follows when the legal move named
/// `move_name` is made in the position that the notation `fen` gives.
pub fn make_move(tables: &AttackTables, fen: String, move_name: String) -> (r: Result<
    String,
    RequestError,
>)
    requires
        tables.wf(),
    ensures
        match position_of(fields_of(fen@)) {
            Err(e) => r == Err::<String, RequestError>(RequestError::Notation(e)),
            Ok(pos) => {
                let moves = pos.ordered_moves((MoveBitField(0), MoveBitField(0)));
                let at = named_from(pos, moves, move_name@, 0);
                match r {
                    Ok(text) => 0 <= at < moves.len() && text@ == crate::debug::joined(
                        crate::debug::notation_of(pos.moved(moves[at])),
                    ),
                    Err(e) => e == RequestError::IllegalMove && at == moves.len(),
                }
            },
        },
{
    let mut board = match FenString::new(fen).convert_to_board() {
        Ok(board) => board,
        Err(e) => {
            return Err(RequestError::Notation(e));
        },
    };
    let info = UciInformation::new().set_board(board);
    match get_move(&info, tables, move_name) {
        Some(mov) => {
            let made = board.make_move(tables, mov);
            Ok(FenString::from_board(&board).get_fen_string())
        },
        None => Err(RequestError::IllegalMove),
    }
}

/// Whether the king of the side to move stands attacked in the position
/// that the notation gives.
pub fn is_king_attacked(tables: &AttackTables, fen: String) -> (r: Result<bool, FenError>)
    requires
        tables.wf(),
    ensures
        match r {
            Ok(attacked) => match position_of(fields_of(fen@)) {
                Ok(pos) => attacked == pos.in_check(pos.color),
                Err(_) => false,
            },
            Err(e) => position_of(fields_of(fen@)) == Err::<Position, FenError>(e),
        },
{
    match FenString::new(fen).convert_to_board() {
        Ok(board) => Ok(is_in_check(&board, tables, board.get_color())),
        Err(e) => Err(e),
    }
}

} // verus!
