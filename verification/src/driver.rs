//! The line classifier and driver: consumes the transcript one line at a
//! time, keeps the live board, the engine name and the in-progress search
//! fields, and emits one record per best-move event with a known position
//! fingerprint. The whole transition is pinned by the `step` function.

use vstd::prelude::*;
use vstd::string::*;
use crate::num::{parse_u32_of, parse_i32_of, parse_u64_of, parse_u32_tok, parse_i32_tok,
    parse_u64_tok};
use crate::rules::{fen_of, start_fen, start_board, parse_fen, board_fen};
use crate::text::{is_prefix, has_prefix, eq_str, find_sub_from, find_sub, opt_idx, tokens_of,
    tokenize, join_spaces, trim_fen_of, trim_fen, lemma_find_sub_in_range};
use crate::moves::{pv_san_of, apply_of, apply_moves, convert_pv_to_san};

verus! {

/// One emitted analysis record, as a mathematical value.
#[verifier::ext_equal]
pub struct RecordModel {
    pub engine: Seq<char>,
    pub fen: Seq<char>,
    pub ply: Option<u32>,
    pub score: Option<i32>,
    pub mate: Option<i32>,
    pub nodes: Option<u64>,
    pub nps: Option<u64>,
    pub time: Option<u64>,
    pub pv: Option<Seq<char>>,
}

/// The parser state, as a mathematical value: the live board's description,
/// the engine name, the stored fingerprint, the per-search fields, and the
/// records emitted so far.
#[verifier::ext_equal]
pub struct StateModel {
    pub board: Seq<char>,
    pub engine: Seq<char>,
    pub fen: Option<Seq<char>>,
    pub ply: Option<u32>,
    pub score: Option<i32>,
    pub mate: Option<i32>,
    pub nodes: Option<u64>,
    pub nps: Option<u64>,
    pub time: Option<u64>,
    pub pv: Option<Seq<char>>,
    pub records: Seq<RecordModel>,
}

pub enum LineClass {
    NewGame,
    IdName,
    SetPosition,
    Info,
    BestMove,
    Other,
}

/// How a transcript line is classified, in dispatch order.
pub open spec fn classify(line: Seq<char>) -> LineClass {
    if line == "uci"@ || line == "ucinewgame"@ {
        LineClass::NewGame
    } else if is_prefix(line, "id name "@) {
        LineClass::IdName
    } else if is_prefix(line, "position "@) {
        LineClass::SetPosition
    } else if find_sub_from(line, "info "@, 0) is Some {
        LineClass::Info
    } else if is_prefix(line, "bestmove"@) {
        LineClass::BestMove
    } else {
        LineClass::Other
    }
}

/// A new game: the board returns to the start, the fingerprint and every
/// per-search field become unknown; the engine name and the emitted records
/// are kept.
pub open spec fn newgame_step(s: StateModel) -> StateModel {
    StateModel {
        board: start_fen(),
        engine: s.engine,
        fen: None,
        ply: None,
        score: None,
        mate: None,
        nodes: None,
        nps: None,
        time: None,
        pv: None,
        records: s.records,
    }
}

/// A set-position command: the board is rebuilt from the start or from an
/// explicit description (left unchanged when the description is rejected),
/// the move list is applied up to its first unresolvable token, and the
/// fingerprint of the resulting board is stored.
pub open spec fn position_step(s: StateModel, line: Seq<char>) -> StateModel {
    let rest = line.skip(9);
    if is_prefix(rest, "startpos"@) {
        let b = if is_prefix(rest, "startpos moves "@) {
            apply_of(start_fen(), tokens_of(rest.skip(15)))
        } else {
            start_fen()
        };
        StateModel { board: b, fen: Some(trim_fen_of(b)), ..s }
    } else if is_prefix(rest, "fen "@) {
        let body = rest.skip(4);
        let b = match find_sub_from(body, " moves "@, 0) {
            Some(j) => match crate::rules::parsed_fen(body.take(j)) {
                Some(f) => apply_of(f, tokens_of(body.skip(j + 7))),
                None => s.board,
            },
            None => match crate::rules::parsed_fen(body) {
                Some(f) => f,
                None => s.board,
            },
        };
        StateModel { board: b, fen: Some(trim_fen_of(b)), ..s }
    } else {
        s
    }
}

/// The single key/value update made at scan position `i`: a recognized
/// key whose following token parses overwrites its field; everything else
/// leaves the state untouched.
pub open spec fn info_scan_one(s: StateModel, toks: Seq<Seq<char>>, i: int) -> StateModel {
    if 0 <= i < toks.len() && i + 1 < toks.len() {
        let v = toks[i + 1];
        if toks[i] == "depth"@ {
            if parse_u32_of(v) is Some {
                StateModel { ply: parse_u32_of(v), ..s }
            } else {
                s
            }
        } else if toks[i] == "cp"@ {
            if parse_i32_of(v) is Some {
                StateModel { score: parse_i32_of(v), ..s }
            } else {
                s
            }
        } else if toks[i] == "mate"@ {
            if parse_i32_of(v) is Some {
                StateModel { mate: parse_i32_of(v), ..s }
            } else {
                s
            }
        } else if toks[i] == "nodes"@ {
            if parse_u64_of(v) is Some {
                StateModel { nodes: parse_u64_of(v), ..s }
            } else {
                s
            }
        } else if toks[i] == "nps"@ {
            if parse_u64_of(v) is Some {
                StateModel { nps: parse_u64_of(v), ..s }
            } else {
                s
            }
        } else if toks[i] == "time"@ {
            if parse_u64_of(v) is Some {
                StateModel { time: parse_u64_of(v), ..s }
            } else {
                s
            }
        } else {
            s
        }
    } else {
        s
    }
}

/// Scans adjacent key/value token pairs from position `i` to the end.
pub open spec fn info_scan(s: StateModel, toks: Seq<Seq<char>>, i: int) -> StateModel
    decreases toks.len() - i + 1,
{
    if i < 0 || i >= toks.len() {
        s
    } else {
        info_scan(info_scan_one(s, toks, i), toks, i + 1)
    }
}

/// Where a principal-variation marker stands in a line: the first "pv "
/// preceded by a space or the line's start.
pub open spec fn pv_at(s: Seq<char>, j: int) -> bool {
    &&& 0 <= j
    &&& j + 3 <= s.len()
    &&& (j == 0 || s[j - 1] == ' ')
    &&& s[j] == 'p'
    &&& s[j + 1] == 'v'
    &&& s[j + 2] == ' '
}

pub open spec fn find_pv_from(s: Seq<char>, j: int) -> Option<int>
    decreases s.len() - j + 1,
{
    if j < 0 || j + 3 > s.len() {
        None
    } else if pv_at(s, j) {
        Some(j)
    } else {
        find_pv_from(s, j + 1)
    }
}

pub open spec fn find_pv(s: Seq<char>) -> Option<int> {
    find_pv_from(s, 0)
}

pub proof fn lemma_find_pv_in_range(s: Seq<char>, j: int)
    ensures
        match find_pv_from(s, j) {
            Some(i) => j <= i && i + 3 <= s.len(),
            None => true,
        },
    decreases s.len() - j + 1,
{
    if !(j < 0 || j + 3 > s.len()) && !pv_at(s, j) {
        lemma_find_pv_in_range(s, j + 1);
    }
}

/// A search-info line: every key/value pair is scanned, and when the line
/// carries a principal-variation marker, the remainder after it is converted
/// against the live board and overwrites the variation field.
pub open spec fn info_step(s: StateModel, line: Seq<char>) -> StateModel {
    let s1 = info_scan(s, tokens_of(line), 0);
    match find_pv(line) {
        Some(j) => StateModel {
            pv: Some(join_spaces(pv_san_of(s.board, tokens_of(line.skip(j + 3))))),
            ..s1
        },
        None => s1,
    }
}

/// A best-move event: a record is emitted when a fingerprint is known, and
/// the per-search fields are cleared either way; the board, engine name and
/// fingerprint are retained.
pub open spec fn bestmove_step(s: StateModel) -> StateModel {
    let cleared = StateModel {
        ply: None,
        score: None,
        mate: None,
        nodes: None,
        nps: None,
        time: None,
        pv: None,
        ..s
    };
    match s.fen {
        Some(f) => StateModel {
            records: s.records.push(
                RecordModel {
                    engine: s.engine,
                    fen: f,
                    ply: s.ply,
                    score: s.score,
                    mate: s.mate,
                    nodes: s.nodes,
                    nps: s.nps,
                    time: s.time,
                    pv: s.pv,
                },
            ),
            ..cleared
        },
        None => cleared,
    }
}

/// The whole transition of the driver on one transcript line.
pub open spec fn step(s: StateModel, line: Seq<char>) -> StateModel {
    match classify(line) {
        LineClass::NewGame => newgame_step(s),
        LineClass::IdName => StateModel { engine: line.skip(8), ..s },
        LineClass::SetPosition => position_step(s, line),
        LineClass::Info => info_step(s, line),
        LineClass::BestMove => bestmove_step(s),
        LineClass::Other => s,
    }
}

pub open spec fn init_state() -> StateModel {
    StateModel {
        board: start_fen(),
        engine: Seq::empty(),
        fen: None,
        ply: None,
        score: None,
        mate: None,
        nodes: None,
        nps: None,
        time: None,
        pv: None,
        records: Seq::empty(),
    }
}

pub open spec fn opt_view(o: Option<String>) -> Option<Seq<char>> {
    match o {
        Some(s) => Some(s@),
        None => None,
    }
}

/// One emitted analysis record.
pub struct Payload {
    pub engine: String,
    pub fen: String,
    pub ply: Option<u32>,
    pub score: Option<i32>,
    pub mate: Option<i32>,
    pub nodes: Option<u64>,
    pub nps: Option<u64>,
    pub time: Option<u64>,
    pub pv: Option<String>,
}

impl View for Payload {
    type V = RecordModel;

    open spec fn view(&self) -> RecordModel {
        RecordModel {
            engine: self.engine@,
            fen: self.fen@,
            ply: self.ply,
            score: self.score,
            mate: self.mate,
            nodes: self.nodes,
            nps: self.nps,
            time: self.time,
            pv: opt_view(self.pv),
        }
    }
}

/// The transcript driver.
pub struct Driver {
    board: shakmaty::Chess,
    engine: String,
    fen: Option<String>,
    ply: Option<u32>,
    score: Option<i32>,
    mate: Option<i32>,
    nodes: Option<u64>,
    nps: Option<u64>,
    time: Option<u64>,
    pv: Option<String>,
    records: Vec<Payload>,
}

impl View for Driver {
    type V = StateModel;

    closed spec fn view(&self) -> StateModel {
        StateModel {
            board: fen_of(self.board),
            engine: self.engine@,
            fen: opt_view(self.fen),
            ply: self.ply,
            score: self.score,
            mate: self.mate,
            nodes: self.nodes,
            nps: self.nps,
            time: self.time,
            pv: opt_view(self.pv),
            records: self.records@.map_values(|p: Payload| p@),
        }
    }
}

fn clone_opt(o: &Option<String>) -> (r: Option<String>)
    ensures
        opt_view(r) == opt_view(*o),
{
    match o {
        Some(s) => Some(s.clone()),
        None => None,
    }
}

impl Driver {
    pub fn new() -> (d: Driver)
        ensures
            d@ == init_state(),
    {
        let d = Driver {
            board: start_board(),
            engine: String::new(),
            fen: None,
            ply: None,
            score: None,
            mate: None,
            nodes: None,
            nps: None,
            time: None,
            pv: None,
            records: Vec::new(),
        };
        proof {
            assert(d@ =~= init_state());
        }
        d
    }

    /// The records emitted so far, in transcript order.
    pub fn records(&self) -> (r: &Vec<Payload>)
        ensures
            r@.map_values(|p: Payload| p@) == self@.records,
    {
        &self.records
    }

    fn do_newgame(&mut self)
        ensures
            final(self)@ == newgame_step(old(self)@),
    {
        self.board = start_board();
        self.fen = None;
        self.ply = None;
        self.score = None;
        self.mate = None;
        self.nodes = None;
        self.nps = None;
        self.time = None;
        self.pv = None;
        proof {
            assert(self@ =~= newgame_step(old(self)@));
        }
    }

    fn do_position(&mut self, line: &str)
        requires
            is_prefix(line@, "position "@),
        ensures
            final(self)@ == position_step(old(self)@, line@),
    {
        proof {
            reveal_strlit("position ");
        }
        let n = line.unicode_len();
        let rest = line.substring_char(9, n);
        proof {
            assert(rest@ =~= line@.skip(9));
        }
        if has_prefix(rest, "startpos") {
            let mut b = start_board();
            proof {
                reveal_strlit("startpos moves ");
            }
            if has_prefix(rest, "startpos moves ") {
                let rn = rest.unicode_len();
                let mv = rest.substring_char(15, rn);
                proof {
                    assert(mv@ =~= rest@.skip(15));
                }
                b = apply_moves(b, mv);
            }
            self.board = b;
            let f = board_fen(&self.board);
            self.fen = Some(trim_fen(f.as_str()));
            proof {
                assert(self@ =~= position_step(old(self)@, line@));
            }
        } else {
            proof {
                reveal_strlit("fen ");
            }
            if has_prefix(rest, "fen ") {
                let rn = rest.unicode_len();
                let body = rest.substring_char(4, rn);
                proof {
                    assert(body@ =~= rest@.skip(4));
                    reveal_strlit(" moves ");
                }
                match find_sub(body, " moves ") {
                    Some(j) => {
                        proof {
                            lemma_find_sub_in_range(body@, " moves "@, 0);
                        }
                        let bn = body.unicode_len();
                        let fs = body.substring_char(0, j);
                        let mv = body.substring_char(j + 7, bn);
                        proof {
                            assert(fs@ =~= body@.take(j as int));
                            assert(mv@ =~= body@.skip(j + 7));
                        }
                        match parse_fen(fs) {
                            Some(p) => {
                                self.board = apply_moves(p, mv);
                            },
                            None => {},
                        }
                    },
                    None => {
                        match parse_fen(body) {
                            Some(p) => {
                                self.board = p;
                            },
                            None => {},
                        }
                    },
                }
                let f = board_fen(&self.board);
                self.fen = Some(trim_fen(f.as_str()));
                proof {
                    assert(self@ =~= position_step(old(self)@, line@));
                }
            } else {
                proof {
                    assert(self@ =~= position_step(old(self)@, line@));
                }
            }
        }
    }

    fn find_pv_exec(line: &str) -> (r: Option<usize>)
        ensures
            opt_idx(r) == find_pv(line@),
    {
        let n = line.unicode_len();
        if n < 3 {
            return None;
        }
        let last = n - 3;
        let mut j: usize = 0;
        while j <= last
            invariant
                n == line@.len(),
                n >= 3,
                last == n - 3,
                j <= last + 1,
                find_pv(line@) == find_pv_from(line@, j as int),
            decreases last + 1 - j,
        {
            let boundary = if j == 0 {
                true
            } else {
                line.get_char(j - 1) == ' '
            };
            if boundary && line.get_char(j) == 'p' && line.get_char(j + 1) == 'v' && line.get_char(
                j + 2,
            ) == ' ' {
                return Some(j);
            }
            if j == last {
                proof {
                    assert(find_pv_from(line@, last + 1) is None);
                }
                return None;
            }
            j += 1;
        }
        None
    }

    fn do_info(&mut self, line: &str)
        ensures
            final(self)@ == info_step(old(self)@, line@),
    {
        let toks = tokenize(line);
        let ghost tv = toks.deep_view();
        let ghost s0 = self@;
        let n = toks.len();
        let mut i: usize = 0;
        while i < n
            invariant
                n == toks@.len(),
                tv == toks.deep_view(),
                tv.len() == n,
                i <= n,
                info_scan(s0, tv, 0) == info_scan(self@, tv, i as int),
                self@.board == s0.board,
                self@.engine == s0.engine,
                self@.fen == s0.fen,
                self@.pv == s0.pv,
                self@.records == s0.records,
            decreases n - i,
        {
            let ghost pre = self@;
            if i + 1 < n {
                proof {
                    assert(tv[i as int] == toks@[i as int]@);
                    assert(tv[i + 1] == toks@[i + 1]@);
                }
                if eq_str(toks[i].as_str(), "depth") {
                    match parse_u32_tok(toks[i + 1].as_str()) {
                        Some(v) => {
                            self.ply = Some(v);
                        },
                        None => {},
                    }
                } else if eq_str(toks[i].as_str(), "cp") {
                    match parse_i32_tok(toks[i + 1].as_str()) {
                        Some(v) => {
                            self.score = Some(v);
                        },
                        None => {},
                    }
                } else if eq_str(toks[i].as_str(), "mate") {
                    match parse_i32_tok(toks[i + 1].as_str()) {
                        Some(v) => {
                            self.mate = Some(v);
                        },
                        None => {},
                    }
                } else if eq_str(toks[i].as_str(), "nodes") {
                    match parse_u64_tok(toks[i + 1].as_str()) {
                        Some(v) => {
                            self.nodes = Some(v);
                        },
                        None => {},
                    }
                } else if eq_str(toks[i].as_str(), "nps") {
                    match parse_u64_tok(toks[i + 1].as_str()) {
                        Some(v) => {
                            self.nps = Some(v);
                        },
                        None => {},
                    }
                } else if eq_str(toks[i].as_str(), "time") {
                    match parse_u64_tok(toks[i + 1].as_str()) {
                        Some(v) => {
                            self.time = Some(v);
                        },
                        None => {},
                    }
                }
            }
            proof {
                assert(info_scan(pre, tv, i as int) == info_scan(self@, tv, i + 1));
            }
            i += 1;
        }
        let ghost s1 = info_scan(s0, tv, 0);
        proof {
            assert(info_scan(self@, tv, n as int) == self@);
            assert(self@ == s1);
        }
        match Self::find_pv_exec(line) {
            Some(j) => {
                proof {
                    lemma_find_pv_in_range(line@, 0);
                }
                let nl = line.unicode_len();
                let pvtxt = line.substring_char(j + 3, nl);
                proof {
                    assert(pvtxt@ =~= line@.skip(j + 3));
                }
                let rendered = convert_pv_to_san(pvtxt, &self.board);
                self.pv = Some(rendered);
                proof {
                    assert(self@ =~= info_step(s0, line@));
                }
            },
            None => {
                proof {
                    assert(self@ =~= info_step(s0, line@));
                }
            },
        }
    }

    fn do_bestmove(&mut self)
        ensures
            final(self)@ == bestmove_step(old(self)@),
    {
        let ghost s0 = self@;
        match &self.fen {
            Some(f) => {
                let rec = Payload {
                    engine: self.engine.clone(),
                    fen: f.clone(),
                    ply: self.ply,
                    score: self.score,
                    mate: self.mate,
                    nodes: self.nodes,
                    nps: self.nps,
                    time: self.time,
                    pv: clone_opt(&self.pv),
                };
                proof {
                    assert(rec@ =~= bestmove_step(s0).records.last());
                }
                self.records.push(rec);
                proof {
                    assert(self.records@.map_values(|p: Payload| p@) =~= s0.records.push(rec@));
                }
            },
            None => {},
        }
        self.ply = None;
        self.score = None;
        self.mate = None;
        self.nodes = None;
        self.nps = None;
        self.time = None;
        self.pv = None;
        proof {
            assert(self@ =~= bestmove_step(s0));
        }
    }

    /// Consumes one transcript line: classifies it and applies exactly the
    /// `step` transition.
    pub fn process_line(&mut self, line: &str)
        ensures
            final(self)@ == step(old(self)@, line@),
    {
        if eq_str(line, "uci") || eq_str(line, "ucinewgame") {
            self.do_newgame();
        } else if has_prefix(line, "id name ") {
            proof {
                reveal_strlit("id name ");
            }
            let n = line.unicode_len();
            let rest = line.substring_char(8, n);
            self.engine = rest.to_owned();
            proof {
                assert(self.engine@ =~= line@.skip(8));
                assert(self@ =~= step(old(self)@, line@));
            }
        } else if has_prefix(line, "position ") {
            self.do_position(line);
        } else if find_sub(line, "info ").is_some() {
            self.do_info(line);
        } else if has_prefix(line, "bestmove") {
            self.do_bestmove();
        }
    }
}

/// The state after a whole sequence of lines.
pub open spec fn run(s: StateModel, lines: Seq<Seq<char>>) -> StateModel
    decreases lines.len(),
{
    if lines.len() == 0 {
        s
    } else {
        run(step(s, lines[0]), lines.skip(1))
    }
}

/// How many best-move events in `lines` fall while a fingerprint is known.
pub open spec fn emitted(s: StateModel, lines: Seq<Seq<char>>) -> nat
    decreases lines.len(),
{
    if lines.len() == 0 {
        0
    } else {
        (if classify(lines[0]) is BestMove && s.fen is Some {
            1nat
        } else {
            0nat
        }) + emitted(step(s, lines[0]), lines.skip(1))
    }
}

/// Scanning key/value pairs never touches the board, the engine name, the
/// fingerprint, the variation or the records.
pub proof fn lemma_info_scan_frame(s: StateModel, toks: Seq<Seq<char>>, i: int)
    ensures
        info_scan(s, toks, i).board == s.board,
        info_scan(s, toks, i).engine == s.engine,
        info_scan(s, toks, i).fen == s.fen,
        info_scan(s, toks, i).pv == s.pv,
        info_scan(s, toks, i).records == s.records,
    decreases toks.len() - i + 1,
{
    if !(i < 0 || i >= toks.len()) {
        lemma_info_scan_frame(info_scan_one(s, toks, i), toks, i + 1);
    }
}

/// One step appends a record exactly on a best-move event with a known
/// fingerprint, and appends nothing otherwise.
pub proof fn lemma_step_records(s: StateModel, line: Seq<char>)
    ensures
        step(s, line).records.len() == s.records.len() + (
        if classify(line) is BestMove && s.fen is Some {
            1int
        } else {
            0int
        }),
{
    match classify(line) {
        LineClass::Info => {
            lemma_info_scan_frame(s, tokens_of(line), 0);
        },
        _ => {},
    }
}

/// Law: over any run, the number of emitted records equals the number of
/// best-move events that fell while a position fingerprint was known.
pub proof fn lemma_record_count(s: StateModel, lines: Seq<Seq<char>>)
    ensures
        run(s, lines).records.len() == s.records.len() + emitted(s, lines),
    decreases lines.len(),
{
    if lines.len() > 0 {
        lemma_step_records(s, lines[0]);
        lemma_record_count(step(s, lines[0]), lines.skip(1));
    }
}

/// Whether a line is a set-position command of one of the two accepted
/// forms, which always stores a fingerprint.
pub open spec fn sets_position(l: Seq<char>) -> bool {
    classify(l) is SetPosition && (is_prefix(l.skip(9), "startpos"@) || is_prefix(
        l.skip(9),
        "fen "@,
    ))
}

pub open spec fn armed_next(prev: bool, l: Seq<char>) -> bool {
    match classify(l) {
        LineClass::NewGame => false,
        LineClass::SetPosition => if sets_position(l) {
            true
        } else {
            prev
        },
        _ => prev,
    }
}

/// Whether a fingerprint is known after `lines`: a set-position command
/// succeeded since the last new-game reset, or one was known at the start
/// and no reset came.
pub open spec fn armed_after(prev: bool, lines: Seq<Seq<char>>) -> bool
    decreases lines.len(),
{
    if lines.len() == 0 {
        prev
    } else {
        armed_after(armed_next(prev, lines[0]), lines.skip(1))
    }
}

/// Law: a fingerprint is known exactly when a set-position command has been
/// seen since the last new-game reset.
pub proof fn lemma_fingerprint_known(s: StateModel, lines: Seq<Seq<char>>)
    ensures
        run(s, lines).fen is Some <==> armed_after(s.fen is Some, lines),
    decreases lines.len(),
{
    if lines.len() > 0 {
        let l = lines[0];
        match classify(l) {
            LineClass::Info => {
                lemma_info_scan_frame(s, tokens_of(l), 0);
            },
            _ => {},
        }
        assert(step(s, l).fen is Some <==> armed_next(s.fen is Some, l));
        lemma_fingerprint_known(step(s, l), lines.skip(1));
    }
}

/// Law: records are append-only: every step keeps the records already
/// emitted, in order, as a prefix of the new record sequence.
pub proof fn lemma_records_append_only(s: StateModel, line: Seq<char>)
    ensures
        s.records.len() <= step(s, line).records.len(),
        step(s, line).records.take(s.records.len() as int) == s.records,
{
    match classify(line) {
        LineClass::Info => {
            lemma_info_scan_frame(s, tokens_of(line), 0);
        },
        _ => {},
    }
    assert(step(s, line).records.take(s.records.len() as int) =~= s.records);
}

/// How many best-move events fall while a set-position command has been
/// seen since the last new-game reset, `prev` saying whether one stands at
/// the start.
pub open spec fn emitted_since_position(prev: bool, lines: Seq<Seq<char>>) -> nat
    decreases lines.len(),
{
    if lines.len() == 0 {
        0
    } else {
        (if classify(lines[0]) is BestMove && prev {
            1nat
        } else {
            0nat
        }) + emitted_since_position(armed_next(prev, lines[0]), lines.skip(1))
    }
}

/// Law: over any run, the number of emitted records equals the number of
/// best-move events that were preceded, since the last new-game reset, by a
/// set-position command.
pub proof fn lemma_record_count_by_position(s: StateModel, lines: Seq<Seq<char>>)
    ensures
        run(s, lines).records.len() == s.records.len() + emitted_since_position(
            s.fen is Some,
            lines,
        ),
    decreases lines.len(),
{
    if lines.len() > 0 {
        let l = lines[0];
        lemma_step_records(s, l);
        match classify(l) {
            LineClass::Info => {
                lemma_info_scan_frame(s, tokens_of(l), 0);
            },
            _ => {},
        }
        assert(step(s, l).fen is Some <==> armed_next(s.fen is Some, l));
        lemma_record_count_by_position(step(s, l), lines.skip(1));
    }
}

/// Law: a new-game event resets the board, the fingerprint and every
/// per-search field; the engine name and the emitted records are kept.
pub proof fn lemma_newgame_reset(s: StateModel, l: Seq<char>)
    requires
        classify(l) is NewGame,
    ensures
        step(s, l) == (StateModel {
            board: start_fen(),
            engine: s.engine,
            fen: None,
            ply: None,
            score: None,
            mate: None,
            nodes: None,
            nps: None,
            time: None,
            pv: None,
            records: s.records,
        }),
{
}

/// Law: a record emitted immediately after a new-game reset, with only a
/// set-position command between, has every optional field absent.
#[verifier::rlimit(50)]
pub proof fn lemma_fresh_record_fields_absent(
    s: StateModel,
    l1: Seq<char>,
    l2: Seq<char>,
    l3: Seq<char>,
)
    requires
        classify(l1) is NewGame,
        classify(l2) is SetPosition,
        sets_position(l2),
        classify(l3) is BestMove,
    ensures
        ({
            let fin = run(s, seq![l1, l2, l3]);
            &&& fin.records.len() == s.records.len() + 1
            &&& fin.records.last().ply is None
            &&& fin.records.last().score is None
            &&& fin.records.last().mate is None
            &&& fin.records.last().nodes is None
            &&& fin.records.last().nps is None
            &&& fin.records.last().time is None
            &&& fin.records.last().pv is None
        }),
{
    let s1 = step(s, l1);
    lemma_newgame_reset(s, l1);
    let s2 = step(s1, l2);
    assert(s2.ply is None && s2.score is None && s2.mate is None && s2.nodes is None && s2.nps
        is None && s2.time is None && s2.pv is None && s2.fen is Some && s2.records
        == s.records);
    let s3 = step(s2, l3);
    assert(s3.records == s2.records.push(s3.records.last()));
    let ls = seq![l1, l2, l3];
    assert(ls[0] == l1);
    assert(ls.skip(1) =~= seq![l2, l3]);
    assert(seq![l2, l3][0] == l2);
    assert(seq![l2, l3].skip(1) =~= seq![l3]);
    assert(seq![l3][0] == l3);
    assert(seq![l3].skip(1) =~= Seq::<Seq<char>>::empty());
    assert(run(s, ls) == run(s1, seq![l2, l3]));
    assert(run(s1, seq![l2, l3]) == run(s2, seq![l3]));
    assert(run(s2, seq![l3]) == run(s3, Seq::<Seq<char>>::empty()));
    assert(run(s3, Seq::<Seq<char>>::empty()) == s3);
}

/// After the scan has passed a depth pair whose value parsed, later depth
/// keys with unparsable or missing values leave the depth field alone.
proof fn lemma_scan_ply_stable(s: StateModel, toks: Seq<Seq<char>>, i: int, j: int, v: u32)
    requires
        s.ply == Some(v),
        i > j,
        forall|k: int|
            j < k < toks.len() && #[trigger] toks[k] == "depth"@ ==> (k + 1 >= toks.len()
                || parse_u32_of(toks[k + 1]) is None),
    ensures
        info_scan(s, toks, i).ply == Some(v),
    decreases toks.len() - i + 1,
{
    if !(i < 0 || i >= toks.len()) {
        lemma_scan_ply_stable(
            info_scan_one(s, toks, i),
            toks,
            i + 1,
            j,
            v,
        );
    }
}

proof fn lemma_scan_ply_reaches(s: StateModel, toks: Seq<Seq<char>>, i: int, j: int, v: u32)
    requires
        0 <= i <= j,
        j + 1 < toks.len(),
        toks[j] == "depth"@,
        parse_u32_of(toks[j + 1]) == Some(v),
        forall|k: int|
            j < k < toks.len() && #[trigger] toks[k] == "depth"@ ==> (k + 1 >= toks.len()
                || parse_u32_of(toks[k + 1]) is None),
    ensures
        info_scan(s, toks, i).ply == Some(v),
    decreases j - i,
{
    if i == j {
        let s1 = info_scan_one(s, toks, i);
        assert(s1.ply == Some(v));
        lemma_scan_ply_stable(s1, toks, i + 1, j, v);
    } else {
        lemma_scan_ply_reaches(info_scan_one(s, toks, i), toks, i + 1, j, v);
    }
}

/// Law: within a search, the later of two parsable depth values wins. For
/// any state, processing a search-info line whose last usable depth pair
/// carries `v` leaves the depth field at `v`; in particular, two info lines
/// in a row yield the second line's value.
#[verifier::rlimit(50)]
pub proof fn lemma_last_write_wins(s: StateModel, l1: Seq<char>, l2: Seq<char>, j: int, v: u32)
    requires
        classify(l2) is Info,
        0 <= j,
        j + 1 < tokens_of(l2).len(),
        tokens_of(l2)[j] == "depth"@,
        parse_u32_of(tokens_of(l2)[j + 1]) == Some(v),
        forall|k: int|
            j < k < tokens_of(l2).len() && #[trigger] tokens_of(l2)[k] == "depth"@ ==> (k + 1
                >= tokens_of(l2).len() || parse_u32_of(tokens_of(l2)[k + 1]) is None),
    ensures
        run(s, seq![l1, l2]).ply == Some(v),
{
    let s1 = step(s, l1);
    lemma_scan_ply_reaches(s1, tokens_of(l2), 0, j, v);
    let ls = seq![l1, l2];
    assert(ls[0] == l1);
    assert(ls.skip(1) =~= seq![l2]);
    assert(seq![l2][0] == l2);
    assert(seq![l2].skip(1) =~= Seq::<Seq<char>>::empty());
    assert(run(s, ls) == run(step(s, l1), seq![l2]));
    assert(run(s1, seq![l2]) == run(step(s1, l2), Seq::<Seq<char>>::empty()));
    assert(run(step(s1, l2), Seq::<Seq<char>>::empty()) == step(s1, l2));
    assert(step(s1, l2) == info_step(s1, l2));
    assert(info_step(s1, l2).ply == info_scan(s1, tokens_of(l2), 0).ply);
}

} // verus!
