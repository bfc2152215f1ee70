//! What a search is given and what it keeps: the position, the limits, the
//! signals from the controlling side, and the history of the search.

use std::sync::atomic::AtomicBool;
use std::sync::Arc;
use vstd::prelude::*;
use crate::pieces::pieces_controller::{
    BoardHistory, BoardStatus, MoveBitField, MoveList, Position,
};
use crate::pieces::tables::AttackTables;
use crate::debug::{position_of, FenError, FenString, Notation};
use crate::pieces::move_bits::{lemma_identity, source_bits, target_bits};
use crate::search_value::{lemma_has_move, root_pick};
use crate::text::{chars_of, number, parse_number, string_of};

verus! {

/// `std::time::Instant`, a moment on the clock of the machine. It is
/// carried through as it is; nothing is known of what it holds.
#[verifier::external_type_specification]
#[verifier::external_body]
pub struct ExInstant(std::time::Instant);

/// The present moment, by `std::time::Instant::now`. Nothing is claimed of
/// it.
#[verifier::external_body]
fn clock_now() -> std::time::Instant {
    std::time::Instant::now()
}

/// The milliseconds gone by since `start`, by `std::time::Instant::elapsed`.
/// Nothing is claimed of their number.
#[verifier::external_body]
fn elapsed_millis(start: &std::time::Instant) -> u128 {
    start.elapsed().as_millis()
}

/// Whether the signal is raised at this moment. The controlling side may
/// raise or clear it at any time.
pub fn is_raised(signal: &Arc<AtomicBool>) -> bool {
    signal.load(std::sync::atomic::Ordering::Relaxed)
}

/// Raises or clears the signal.
pub fn set_signal(signal: &Arc<AtomicBool>, value: bool) {
    signal.store(value, std::sync::atomic::Ordering::Relaxed)
}

/// What a search works with: the signals that it shares with the side that
/// controls it, the limits of time, depth and nodes, the position, and what
/// it counts and remembers.
pub struct UciInformation {
    pub find_move_signal: Arc<AtomicBool>,
    pub is_searching: Arc<AtomicBool>,
    pub quit_signal: Arc<AtomicBool>,
    pub wtime: usize,
    pub btime: usize,
    pub winc: usize,
    pub binc: usize,
    pub depth_limit: isize,
    pub board: BoardStatus,
    pub moves_to_go: Option<usize>,
    pub nodes_limit: Option<usize>,
    pub time_limit: Option<usize>,
    pub search_until_mate: bool,
    pub ponder_search: bool,
    pub infinity_search: bool,
    pub stop_signal: Arc<AtomicBool>,
    pub start_time: std::time::Instant,
    pub node_count: usize,
    pub board_history: BoardHistory,
    /// The answers that the search was given each time it asked whether it
    /// has to end.
    pub answers: Answers,
}

/// The answers that a search was given each time it asked whether it has
/// to end, the first asked first. Only asking adds to them.
#[derive(Clone, Copy)]
pub struct Answers {
    given: Ghost<Seq<bool>>,
}

impl View for Answers {
    type V = Seq<bool>;

    closed spec fn view(&self) -> Seq<bool> {
        self.given@
    }
}

impl Answers {
    /// No answer yet.
    fn none() -> (r: Self)
        ensures
            r@.len() == 0,
    {
        Answers { given: Ghost(Seq::empty()) }
    }

    /// Puts an answer behind the answers given before.
    fn note(&mut self, answer: bool)
        ensures
            final(self)@ == old(self)@.push(answer),
    {
        self.given = Ghost(self.given@.push(answer));
    }
}

/// The answers `after` are the answers `before` and, behind them, answers
/// that all say to go on.
pub open spec fn went_on(before: Seq<bool>, after: Seq<bool>) -> bool {
    &&& before.len() <= after.len()
    &&& forall|i: int| 0 <= i < before.len() ==> after[i] == before[i]
    &&& forall|i: int| before.len() <= i < after.len() ==> !after[i]
}

/// The answers `after` are the answers `before` and, behind them, answers
/// of which the last says to end and the others say to go on.
pub open spec fn was_stopped(before: Seq<bool>, after: Seq<bool>) -> bool {
    &&& before.len() < after.len()
    &&& forall|i: int| 0 <= i < before.len() ==> after[i] == before[i]
    &&& forall|i: int| before.len() <= i < after.len() - 1 ==> !after[i]
    &&& after[after.len() - 1]
}

/// What follows answers that said to go on, follows the answers before
/// them too: more answers to go on, or an answer to end.
pub proof fn lemma_went_on(a: Seq<bool>, b: Seq<bool>, c: Seq<bool>)
    requires
        went_on(a, b),
    ensures
        went_on(b, c) ==> went_on(a, c),
        was_stopped(b, c) ==> was_stopped(a, c),
{
}

/// Whether a limit of time, if there is one, has gone by when `elapsed`
/// milliseconds have.
pub fn limit_passed(elapsed: u128, limit: Option<usize>) -> (r: bool)
    ensures
        r == (limit matches Some(time) && elapsed >= time),
{
    match limit {
        Some(time) => elapsed >= time as u128,
        None => false,
    }
}

/// Whether a search has to end, by what the signals and the clock say and
/// by its count of nodes: once a signal is raised, the time is up, or the
/// node limit, if there is one, has been reached.
pub fn search_is_over(
    stop: bool,
    quit: bool,
    late: bool,
    nodes_limit: Option<usize>,
    node_count: usize,
) -> (r: bool)
    ensures
        r == (stop || quit || late || (nodes_limit matches Some(limit) && node_count >= limit)),
{
    if stop || quit || late {
        return true;
    }
    match nodes_limit {
        Some(limit) => node_count >= limit,
        None => false,
    }
}

impl UciInformation {
    /// The settings before any command: the empty board, depth one, no
    /// limit on nodes or time, no signal raised.
    pub fn new() -> (r: Self)
        ensures
            r.board@ == Position::empty(),
            r.board_history.is_blank(),
            r.wtime == usize::MAX,
            r.btime == usize::MAX,
            r.winc == 0,
            r.binc == 0,
            r.depth_limit == 1,
            r.moves_to_go is None,
            r.nodes_limit is None,
            r.time_limit is None,
            !r.search_until_mate,
            !r.ponder_search,
            !r.infinity_search,
            r.node_count == 0,
            r.answers@.len() == 0,
    {
        Self {
            is_searching: Arc::new(AtomicBool::new(false)),
            find_move_signal: Arc::new(AtomicBool::new(false)),
            quit_signal: Arc::new(AtomicBool::new(false)),
            wtime: usize::MAX,
            btime: usize::MAX,
            winc: 0,
            binc: 0,
            moves_to_go: None,
            depth_limit: 1,
            nodes_limit: None,
            search_until_mate: false,
            node_count: 0,
            ponder_search: false,
            infinity_search: false,
            time_limit: None,
            start_time: clock_now(),
            board: BoardStatus::new(),
            board_history: BoardHistory::new(),
            stop_signal: Arc::new(AtomicBool::new(false)),
            answers: Answers::none(),
        }
    }

    /// The same settings, sharing the signals with `self`.
    pub fn copy(&self) -> (r: Self)
        ensures
            r == *self,
    {
        Self {
            is_searching: self.is_searching.clone(),
            find_move_signal: self.find_move_signal.clone(),
            quit_signal: self.quit_signal.clone(),
            wtime: self.wtime,
            btime: self.btime,
            winc: self.winc,
            binc: self.binc,
            depth_limit: self.depth_limit,
            board: self.board,
            moves_to_go: self.moves_to_go,
            nodes_limit: self.nodes_limit,
            time_limit: self.time_limit,
            search_until_mate: self.search_until_mate,
            ponder_search: self.ponder_search,
            infinity_search: self.infinity_search,
            stop_signal: self.stop_signal.clone(),
            start_time: self.start_time,
            node_count: self.node_count,
            board_history: self.board_history,
            answers: self.answers,
        }
    }

    /// The node limit, if there is one, has been reached.
    pub open spec fn out_of_nodes(&self) -> bool {
        self.nodes_limit matches Some(limit) && self.node_count >= limit
    }

    /// Whether the search has to end: a stop or quit signal is raised, the
    /// time limit has gone by, or the node limit has been reached. The
    /// signals and the clock are outside this library; only of the node limit
    /// can the answer be foretold.
    pub fn is_search_fnished(&self) -> (r: bool)
        ensures
            self.out_of_nodes() ==> r,
    {
        let stop = is_raised(&self.stop_signal);
        let quit = is_raised(&self.quit_signal);
        let late = self.time_is_up();
        search_is_over(stop, quit, late, self.nodes_limit, self.node_count)
    }

    /// The time limit, if there is one, has gone by on the clock. Without a
    /// time limit the clock is not read, and the answer is no.
    pub fn time_is_up(&self) -> (r: bool)
        ensures
            self.time_limit is None ==> !r,
    {
        match self.time_limit {
            Some(_) => limit_passed(elapsed_millis(&self.start_time), self.time_limit),
            None => false,
        }
    }

    /// Asks whether the search has to end, and keeps the answer with the
    /// answers given before.
    pub fn ask(&mut self) -> (r: bool)
        ensures
            *final(self) == (UciInformation { answers: final(self).answers, ..*old(self) }),
            final(self).answers@ == old(self).answers@.push(r),
            old(self).out_of_nodes() ==> r,
    {
        let r = self.is_search_fnished();
        self.answers.note(r);
        r
    }

    /// Starts the clock of a search and clears its node count.
    pub fn start_clock(&mut self)
        ensures
            *final(self) == (UciInformation {
                start_time: final(self).start_time,
                node_count: 0,
                ..*old(self)
            }),
    {
        self.start_time = clock_now();
        self.node_count = 0;
    }

    /// The settings with White's time on the clock set.
    pub fn set_wtime(self, wtime: usize) -> (r: Self)
        ensures
            r == (UciInformation { wtime, ..self }),
    {
        let mut s = self;
        s.wtime = wtime;
        s
    }

    /// The settings with Black's time on the clock set.
    pub fn set_btime(self, btime: usize) -> (r: Self)
        ensures
            r == (UciInformation { btime, ..self }),
    {
        let mut s = self;
        s.btime = btime;
        s
    }

    /// The settings with White's increment set.
    pub fn set_winc(self, winc: usize) -> (r: Self)
        ensures
            r == (UciInformation { winc, ..self }),
    {
        let mut s = self;
        s.winc = winc;
        s
    }

    /// The settings with Black's increment set.
    pub fn set_binc(self, binc: usize) -> (r: Self)
        ensures
            r == (UciInformation { binc, ..self }),
    {
        let mut s = self;
        s.binc = binc;
        s
    }

    /// The settings with the number of moves to the next time control set.
    pub fn set_moves_to_go(self, moves_to_go: usize) -> (r: Self)
        ensures
            r == (UciInformation { moves_to_go: Some(moves_to_go), ..self }),
    {
        let mut s = self;
        s.moves_to_go = Some(moves_to_go);
        s
    }

    /// The settings with the depth limit set.
    pub fn set_depth_limit(self, depth_limit: isize) -> (r: Self)
        ensures
            r == (UciInformation { depth_limit, ..self }),
    {
        let mut s = self;
        s.depth_limit = depth_limit;
        s
    }

    /// The settings with a limit on the nodes of a search.
    pub fn set_nodes_limit(self, nodes_limit: usize) -> (r: Self)
        ensures
            r == (UciInformation { nodes_limit: Some(nodes_limit), ..self }),
    {
        let mut s = self;
        s.nodes_limit = Some(nodes_limit);
        s
    }

    /// The settings for a search until a mate is found.
    pub fn set_search_until_mate(self) -> (r: Self)
        ensures
            r == (UciInformation { search_until_mate: true, ..self }),
    {
        let mut s = self;
        s.search_until_mate = true;
        s
    }

    /// The settings for pondering: no limit on the depth.
    pub fn set_ponder(self) -> (r: Self)
        ensures
            r == (UciInformation { ponder_search: true, depth_limit: isize::MAX, ..self }),
    {
        let mut s = self;
        s.ponder_search = true;
        s.depth_limit = isize::MAX;
        s
    }

    /// The settings for a search without end: no limit on the depth.
    pub fn set_infinite(self) -> (r: Self)
        ensures
            r == (UciInformation { infinity_search: true, depth_limit: isize::MAX, ..self }),
    {
        let mut s = self;
        s.infinity_search = true;
        s.depth_limit = isize::MAX;
        s
    }

    /// The settings with the position set.
    pub fn set_board(self, board: BoardStatus) -> (r: Self)
        ensures
            r == (UciInformation { board, ..self }),
    {
        let mut s = self;
        s.board = board;
        s
    }
}

/// Whether the two sequences of characters are the same.
pub fn same_chars(a: &Vec<char>, b: &Vec<char>) -> (r: bool)
    ensures
        r == (a@ == b@),
{
    if a.len() != b.len() {
        return false;
    }
    let mut i: usize = 0;
    while i < a.len()
        invariant
            a@.len() == b@.len(),
            i <= a@.len(),
            forall|k: int| 0 <= k < i ==> a@[k] == b@[k],
        decreases a@.len() - i,
    {
        if a[i] != b[i] {
            return false;
        }
        i = i + 1;
    }
    proof {
        assert(a@ =~= b@);
    }
    true
}

/// The place of the first of `moves` from `from` on that is legal in `pos`
/// and bears the name `name`; the length of `moves` where there is none.
pub open spec fn named_from(pos: Position, moves: Seq<MoveBitField>, name: Seq<char>, from: int) -> int
    decreases moves.len() - from,
{
    if from < 0 || from >= moves.len() {
        moves.len() as int
    } else if moves[from].name() == name && pos.leaves_king_safe(moves[from]) {
        from
    } else {
        named_from(pos, moves, name, from + 1)
    }
}

/// The legal move of the position of `uci_info` that bears the name
/// `move_name`: the first such among the moves in the order in which the
/// search tries them. `None` where no legal move bears the name.
pub fn get_move(uci_info: &UciInformation, tables: &AttackTables, move_name: String) -> (r: Option<
    MoveBitField,
>)
    requires
        tables.wf(),
    ensures
        ({
            let pos = uci_info.board@;
            let moves = pos.ordered_moves(uci_info.board_history.killers(pos.half_move));
            let at = named_from(pos, moves, move_name@, 0);
            match r {
                Some(mov) => 0 <= at < moves.len() && mov == moves[at] && mov.name() == move_name@
                    && pos.leaves_king_safe(mov),
                None => at == moves.len() && forall|i: int|
                    0 <= i < moves.len() ==> !(#[trigger] moves[i].name() == move_name@
                        && pos.leaves_king_safe(moves[i])),
            }
        }),
{
    let wanted = chars_of(move_name.as_str());
    let moves = MoveList::new(uci_info, tables);
    let ghost pos = uci_info.board@;
    let mut i: usize = 0;
    while i < moves.moves.len()
        invariant
            tables.wf(),
            i <= moves@.len(),
            wanted@ == move_name@,
            pos == uci_info.board@,
            moves@ == pos.ordered_moves(uci_info.board_history.killers(pos.half_move)),
            named_from(pos, moves@, move_name@, 0) == named_from(pos, moves@, move_name@, i as int),
            forall|k: int|
                0 <= k < i ==> !(#[trigger] moves@[k].name() == move_name@ && pos.leaves_king_safe(
                    moves@[k],
                )),
        decreases moves@.len() - i,
    {
        let mov = moves.moves[i];
        if same_chars(&mov.name_chars(), &wanted) {
            let mut scratch = uci_info.board;
            if scratch.make_move(tables, mov) {
                return Some(mov);
            }
        }
        i = i + 1;
    }
    None
}

/// Why a request could not be served. Where one cannot, the settings and
/// the position stay as they were.
#[derive(Clone, Copy, Debug, PartialEq, Eq, Structural)]
pub enum RequestError {
    /// The command or one of its words is not known, or a word is missing.
    Command,
    /// A number was expected and not found.
    Number,
    /// The notation of the position cannot be read; the field that cannot.
    Notation(FenError),
    /// No legal move of the position bears the name given.
    IllegalMove,
}

/// What a search request asks for.
#[derive(Clone, Copy, Debug, PartialEq, Eq, Structural)]
pub enum GoRequest {
    /// A search for the best move within the limits now set.
    Search,
    /// A count of the ways to play that many moves in a row.
    Perft(usize),
}

/// Whether the word is the one given.
pub fn is_word(token: &String, word: &str) -> (r: bool)
    ensures
        r == (token@ == word@),
{
    same_chars(&chars_of(token.as_str()), &chars_of(word))
}

/// The notation of the position from which a game starts.
pub open spec fn start_notation() -> Notation {
    Notation {
        board: "rnbqkbnr/pppppppp/8/8/8/8/PPPPPPPP/RNBQKBNR"@,
        color: "w"@,
        castles: "KQkq"@,
        enpassant: "-"@,
        half_move: "0"@,
        full_move: "1"@,
    }
}

/// The notation of the position from which a game starts.
pub fn start_fen() -> (r: FenString)
    ensures
        r@ == start_notation(),
{
    FenString {
        board: chars_of("rnbqkbnr/pppppppp/8/8/8/8/PPPPPPPP/RNBQKBNR"),
        color: chars_of("w"),
        castles: chars_of("KQkq"),
        enpassant: chars_of("-"),
        half_move: chars_of("0"),
        full_move: chars_of("1"),
    }
}

/// The position that the words of a setup request name, and the place of
/// the word behind them: the starting position for `startpos`, and for
/// `fen` the position that the six words behind it give.
pub open spec fn setup_of(words: Seq<String>) -> Result<(Position, int), RequestError> {
    if words.len() >= 1 && words[0]@ == "startpos"@ {
        match position_of(start_notation()) {
            Ok(pos) => Ok((pos, 1)),
            Err(e) => Err(RequestError::Notation(e)),
        }
    } else if words.len() >= 7 && words[0]@ == "fen"@ {
        match position_of(
            Notation {
                board: words[1]@,
                color: words[2]@,
                castles: words[3]@,
                enpassant: words[4]@,
                half_move: words[5]@,
                full_move: words[6]@,
            },
        ) {
            Ok(pos) => Ok((pos, 7)),
            Err(e) => Err(RequestError::Notation(e)),
        }
    } else {
        Err(RequestError::Command)
    }
}

/// The position reached from `pos` by the moves that the words from place
/// `from` on name, each a legal move of the position before it; `None` where
/// one of them names no legal move.
pub open spec fn played(history: BoardHistory, pos: Position, words: Seq<String>, from: int) -> Option<
    Position,
>
    decreases words.len() - from,
{
    if from < 0 || from >= words.len() {
        Some(pos)
    } else {
        let moves = pos.ordered_moves(history.killers(pos.half_move));
        let at = named_from(pos, moves, words[from]@, 0);
        if 0 <= at < moves.len() {
            played(history, pos.moved(moves[at]), words, from + 1)
        } else {
            None
        }
    }
}

/// The position that a setup request asks for: the position it names, and
/// from it the moves behind the word `moves`, if that word follows.
pub open spec fn requested_position(history: BoardHistory, words: Seq<String>) -> Result<
    Position,
    RequestError,
> {
    match setup_of(words) {
        Err(e) => Err(e),
        Ok((pos, next)) => if next < words.len() && words[next]@ == "moves"@ {
            match played(history, pos, words, next + 1) {
                Some(end) => Ok(end),
                None => Err(RequestError::IllegalMove),
            }
        } else {
            Ok(pos)
        },
    }
}

/// Sets up the position that the words of a setup request ask for. Where
/// they name no position, or a move that is not legal, nothing changes.
pub fn position(data: &Vec<String>, uci_info: &mut UciInformation, tables: &AttackTables) -> (r:
    Result<(), RequestError>)
    requires
        tables.wf(),
    ensures
        match r {
            Ok(_) => requested_position(old(uci_info).board_history, data@) == Ok::<
                Position,
                RequestError,
            >(final(uci_info).board@) && *final(uci_info) == (UciInformation {
                board: final(uci_info).board,
                ..*old(uci_info)
            }),
            Err(e) => requested_position(old(uci_info).board_history, data@) == Err::<
                Position,
                RequestError,
            >(e) && *final(uci_info) == *old(uci_info),
        },
{
    let mut next: usize = 0;
    let fen = if data.len() >= 1 && is_word(&data[0], "startpos") {
        next = 1;
        start_fen()
    } else if data.len() >= 7 && is_word(&data[0], "fen") {
        next = 7;
        FenString {
            board: chars_of(data[1].as_str()),
            color: chars_of(data[2].as_str()),
            castles: chars_of(data[3].as_str()),
            enpassant: chars_of(data[4].as_str()),
            half_move: chars_of(data[5].as_str()),
            full_move: chars_of(data[6].as_str()),
        }
    } else {
        return Err(RequestError::Command);
    };
    let board = match fen.convert_to_board() {
        Ok(board) => board,
        Err(e) => {
            return Err(RequestError::Notation(e));
        },
    };
    let ghost setup = board@;
    let ghost history = uci_info.board_history;
    if next < data.len() && is_word(&data[next], "moves") {
        let mut work = uci_info.copy().set_board(board);
        let mut i: usize = next + 1;
        while i < data.len()
            invariant
                tables.wf(),
                next + 1 <= i,
                next < data@.len(),
                data@[next as int]@ == "moves"@,
                setup_of(data@) == Ok::<(Position, int), RequestError>((setup, next as int)),
                work == (UciInformation { board: work.board, ..*old(uci_info) }),
                *uci_info == *old(uci_info),
                history == old(uci_info).board_history,
                played(history, setup, data@, next + 1) == played(
                    history,
                    work.board@,
                    data@,
                    i as int,
                ),
            decreases data@.len() - i,
        {
            match get_move(&work, tables, data[i].clone()) {
                Some(mov) => {
                    let made = work.board.make_move(tables, mov);
                },
                None => {
                    return Err(RequestError::IllegalMove);
                },
            }
            i = i + 1;
        }
        uci_info.board = work.board;
    } else {
        uci_info.board = board;
    }
    Ok(())
}

/// The settings after the word `word` of a search request and the number
/// `n` behind it; `None` where the word takes no number.
pub open spec fn with_number(info: UciInformation, word: Seq<char>, n: usize) -> Option<
    UciInformation,
> {
    if word == "wtime"@ {
        Some(UciInformation { wtime: n, ..info })
    } else if word == "btime"@ {
        Some(UciInformation { btime: n, ..info })
    } else if word == "winc"@ {
        Some(UciInformation { winc: n, ..info })
    } else if word == "binc"@ {
        Some(UciInformation { binc: n, ..info })
    } else if word == "depth"@ {
        Some(
            UciInformation {
                depth_limit: if n <= isize::MAX {
                    n as isize
                } else {
                    isize::MAX
                },
                ..info
            },
        )
    } else if word == "movestogo"@ || word == "mate"@ {
        Some(UciInformation { moves_to_go: Some(n), ..info })
    } else if word == "nodes"@ {
        Some(UciInformation { nodes_limit: Some(n), ..info })
    } else if word == "movetime"@ {
        Some(UciInformation { time_limit: Some(n), ..info })
    } else {
        None
    }
}

/// The number that a word stands for, where it stands for one that the
/// engine can hold.
pub open spec fn word_number(word: Seq<char>) -> Option<usize> {
    match number(word) {
        Some(n) => if n <= usize::MAX {
            Some(n as usize)
        } else {
            None
        },
        None => None,
    }
}

/// The settings that the words of a search request from place `i` on lead
/// to, and what the request asks for: each known word sets its limit, `perft`
/// asks for a count and ends the request, and the first unknown word ends
/// it too.
pub open spec fn go_read(info: UciInformation, words: Seq<String>, i: int) -> Result<
    (UciInformation, GoRequest),
    RequestError,
>
    decreases words.len() - i,
{
    if i < 0 || i >= words.len() {
        Ok((info, GoRequest::Search))
    } else if words[i]@ == "ponder"@ {
        go_read(UciInformation { ponder_search: true, ..info }, words, i + 1)
    } else if words[i]@ == "infinite"@ {
        go_read(UciInformation { infinity_search: true, ..info }, words, i + 1)
    } else if words[i]@ == "perft"@ {
        if i + 1 < words.len() && word_number(words[i + 1]@) is Some {
            Ok((info, GoRequest::Perft(word_number(words[i + 1]@)->0)))
        } else {
            Err(RequestError::Number)
        }
    } else if with_number(info, words[i]@, 0) is Some {
        if i + 1 < words.len() && word_number(words[i + 1]@) is Some {
            go_read(
                with_number(info, words[i]@, word_number(words[i + 1]@)->0)->0,
                words,
                i + 2,
            )
        } else {
            Err(RequestError::Number)
        }
    } else {
        Ok((info, GoRequest::Search))
    }
}

/// Sets the limit that the word names to `n`; says whether the word names
/// one.
pub fn set_number(uci_info: &mut UciInformation, word: &String, n: usize) -> (r: bool)
    ensures
        match with_number(*old(uci_info), word@, n) {
            Some(info) => r && *final(uci_info) == info,
            None => !r && *final(uci_info) == *old(uci_info),
        },
        r == with_number(*old(uci_info), word@, 0) is Some,
{
    if is_word(word, "wtime") {
        uci_info.wtime = n;
    } else if is_word(word, "btime") {
        uci_info.btime = n;
    } else if is_word(word, "winc") {
        uci_info.winc = n;
    } else if is_word(word, "binc") {
        uci_info.binc = n;
    } else if is_word(word, "depth") {
        uci_info.depth_limit = if n <= isize::MAX as usize {
            n as isize
        } else {
            isize::MAX
        };
    } else if is_word(word, "movestogo") || is_word(word, "mate") {
        uci_info.moves_to_go = Some(n);
    } else if is_word(word, "nodes") {
        uci_info.nodes_limit = Some(n);
    } else if is_word(word, "movetime") {
        uci_info.time_limit = Some(n);
    } else {
        return false;
    }
    true
}

/// The number that the word at place `i` stands for.
pub fn number_at(data: &Vec<String>, i: usize) -> (r: Option<usize>)
    ensures
        r == if i < data@.len() {
            word_number(data@[i as int]@)
        } else {
            None
        },
{
    if i < data.len() {
        parse_number(&chars_of(data[i].as_str()))
    } else {
        None
    }
}

/// Reads the words of a search request into the settings, and says what
/// the request asks for. Where a number is missing, nothing changes.
pub fn go(data: &Vec<String>, uci_info: &mut UciInformation) -> (r: Result<GoRequest, RequestError>)
    ensures
        match r {
            Ok(request) => go_read(*old(uci_info), data@, 0) == Ok::<
                (UciInformation, GoRequest),
                RequestError,
            >((*final(uci_info), request)),
            Err(e) => go_read(*old(uci_info), data@, 0) == Err::<
                (UciInformation, GoRequest),
                RequestError,
            >(e) && *final(uci_info) == *old(uci_info),
        },
{
    let mut work = uci_info.copy();
    let mut i: usize = 0;
    let mut request = GoRequest::Search;
    let mut ended = false;
    while i < data.len() && !ended
        invariant
            !ended ==> go_read(*old(uci_info), data@, 0) == go_read(work, data@, i as int),
            ended ==> go_read(*old(uci_info), data@, 0) == Ok::<
                (UciInformation, GoRequest),
                RequestError,
            >((work, request)),
            !ended ==> request == GoRequest::Search,
            *uci_info == *old(uci_info),
        decreases data@.len() - i + (if ended { 0int } else { 1int }),
    {
        if is_word(&data[i], "ponder") {
            work.ponder_search = true;
            i = i + 1;
        } else if is_word(&data[i], "infinite") {
            work.infinity_search = true;
            i = i + 1;
        } else if is_word(&data[i], "perft") {
            match number_at(data, i + 1) {
                Some(depth) => {
                    request = GoRequest::Perft(depth);
                    ended = true;
                },
                None => {
                    return Err(RequestError::Number);
                },
            }
        } else {
            match number_at(data, i + 1) {
                Some(n) => {
                    if set_number(&mut work, &data[i], n) {
                        i = i + 2;
                    } else {
                        ended = true;
                    }
                },
                None => {
                    let mut probe = work.copy();
                    if set_number(&mut probe, &data[i], 0) {
                        return Err(RequestError::Number);
                    }
                    ended = true;
                },
            }
        }
    }
    *uci_info = work;
    if request == GoRequest::Search {
        set_signal(&uci_info.find_move_signal, true);
    }
    Ok(request)
}

/// The name under which the best move of a search is given out: the name
/// of the move, or `0000` for no move.
pub fn best_move_name(mov: &MoveBitField) -> (r: String)
    ensures
        r@ == (if mov.same_move(MoveBitField(0)) {
            "0000"@
        } else {
            mov.name()
        }),
{
    if *mov == MoveBitField::no_move() {
        string_of(&chars_of("0000"))
    } else {
        mov.get_move_name()
    }
}

/// What a search leaves as the best move of a sound position is no move
/// exactly where the side to move has no legal move: so `0000` is given out
/// for such a position only.
pub proof fn lemma_no_move_given(pos: Position, best: MoveBitField)
    requires
        pos.wf(),
        root_pick(pos, best),
    ensures
        best.same_move(MoveBitField(0)) <==> pos.legal_moves().len() == 0,
{
    let none = MoveBitField(0);
    assert(source_bits(0) == 0 && target_bits(0) == 0) by (bit_vector);
    if pos.legal_moves().len() > 0 {
        let j = lemma_has_move(pos.generated(), best);
        let m = pos.generated()[j];
        pos.lemma_generated_fit(j);
        lemma_identity(best.0, m.0);
        lemma_identity(best.0, none.0);
    }
}

} // verus!
