//! The analysis record of one search, and the decoder that keeps it current
//! from the engine's `info` lines.

use crate::number::{parse_i32, parse_u64, parse_usize, signed_of, unsigned_of};
use crate::textbuf::{
    is_ascii_bytes, kept, lemma_ascii_stays_text, lemma_encode_concat, text_of, trimmed, PvBuff,
    UciBuff, PV_BUFF_SIZE, UCI_MAX_LENGTH,
};
use crate::tokens::{is_word, next_token, space, tokens};
use vstd::prelude::*;
use vstd::string::StringExecFns;
use vstd::string::StringSliceAdditionalSpecFns;
use vstd::utf8::*;

verus! {

/// The engine's judgement of the position.
#[derive(Debug, Clone, Copy, PartialEq, Eq, Structural)]
pub enum Score {
    /// In hundredths of a pawn, from the engine's side.
    Cp(i32),
    /// Mate in this many moves; negative where the engine is being mated.
    Mate(i32),
}

/// Whether a score is exact or only bounds the true one.
#[derive(Debug, Clone, Copy, PartialEq, Eq, Structural)]
pub enum ScoreType {
    /// The score is exact.
    Exact,
    /// The true score is at least the one given.
    Lowerbound,
    /// The true score is at most the one given.
    Upperbound,
}

/// Win, draw and loss counts.
#[derive(Debug, Clone, Copy, PartialEq, Eq, Structural)]
pub struct WDL {
    pub win: u64,
    pub draw: u64,
    pub loss: u64,
}

/// Where the decoder stands in a line: what it expects the next token to be.
#[derive(Debug, Clone, Copy, PartialEq, Eq, Structural)]
pub enum ParsingState {
    Info,
    Key,
    Unknown,
    Depth,
    Seldepth,
    Time,
    Nodes,
    Multipv,
    Score,
    WdlW,
    WdlD,
    WdlL,
    ScoreCp,
    ScoreMate,
    Currmove,
    Currmovenumber,
    Hashfull,
    Nps,
    Tbhits,
    Cpuload,
    PvBestmove,
    PvPonder,
    PvRest,
}

/// The name of the state `ps`.
pub open spec fn state_name(ps: ParsingState) -> Seq<char> {
    match ps {
        ParsingState::Info => "Info"@,
        ParsingState::Key => "Key"@,
        ParsingState::Unknown => "Unknown"@,
        ParsingState::Depth => "Depth"@,
        ParsingState::Seldepth => "Seldepth"@,
        ParsingState::Time => "Time"@,
        ParsingState::Nodes => "Nodes"@,
        ParsingState::Multipv => "Multipv"@,
        ParsingState::Score => "Score"@,
        ParsingState::WdlW => "WdlW"@,
        ParsingState::WdlD => "WdlD"@,
        ParsingState::WdlL => "WdlL"@,
        ParsingState::ScoreCp => "ScoreCp"@,
        ParsingState::ScoreMate => "ScoreMate"@,
        ParsingState::Currmove => "Currmove"@,
        ParsingState::Currmovenumber => "Currmovenumber"@,
        ParsingState::Hashfull => "Hashfull"@,
        ParsingState::Nps => "Nps"@,
        ParsingState::Tbhits => "Tbhits"@,
        ParsingState::Cpuload => "Cpuload"@,
        ParsingState::PvBestmove => "PvBestmove"@,
        ParsingState::PvPonder => "PvPonder"@,
        ParsingState::PvRest => "PvRest"@,
    }
}

impl ParsingState {
    /// The name of the state.
    pub fn name(&self) -> (r: &'static str)
        ensures
            r@ == state_name(*self),
    {
        match self {
            ParsingState::Info => "Info",
            ParsingState::Key => "Key",
            ParsingState::Unknown => "Unknown",
            ParsingState::Depth => "Depth",
            ParsingState::Seldepth => "Seldepth",
            ParsingState::Time => "Time",
            ParsingState::Nodes => "Nodes",
            ParsingState::Multipv => "Multipv",
            ParsingState::Score => "Score",
            ParsingState::WdlW => "WdlW",
            ParsingState::WdlD => "WdlD",
            ParsingState::WdlL => "WdlL",
            ParsingState::ScoreCp => "ScoreCp",
            ParsingState::ScoreMate => "ScoreMate",
            ParsingState::Currmove => "Currmove",
            ParsingState::Currmovenumber => "Currmovenumber",
            ParsingState::Hashfull => "Hashfull",
            ParsingState::Nps => "Nps",
            ParsingState::Tbhits => "Tbhits",
            ParsingState::Cpuload => "Cpuload",
            ParsingState::PvBestmove => "PvBestmove",
            ParsingState::PvPonder => "PvPonder",
            ParsingState::PvRest => "PvRest",
        }
    }
}

/// Why a line could not be decoded.
#[derive(Debug)]
pub enum InfoParseError {
    /// The token is no number of the field that the state stands for.
    ParseNumberError(ParsingState, String),
    /// The token is no key of an `info` line.
    InvalidKeyError(String),
    /// The token behind `score` is neither `cp`, `mate` nor a bound.
    InvalidScoreSpecifier(String),
}

/// An [`InfoParseError`] with the bytes of its token.
pub enum Failure {
    Number(ParsingState, Seq<u8>),
    Key(Seq<u8>),
    Specifier(Seq<u8>),
}

impl View for InfoParseError {
    type V = Failure;

    open spec fn view(&self) -> Failure {
        match self {
            InfoParseError::ParseNumberError(ps, token) => Failure::Number(*ps, encode_utf8(token@)),
            InfoParseError::InvalidKeyError(token) => Failure::Key(encode_utf8(token@)),
            InfoParseError::InvalidScoreSpecifier(token) => Failure::Specifier(encode_utf8(token@)),
        }
    }
}

/// The message of a failure: what was refused, and for a number the state in which it was read.
pub open spec fn message_of(err: InfoParseError) -> Seq<char> {
    match err {
        InfoParseError::ParseNumberError(ps, token) => "could not parse info number for state '"@
            + state_name(ps) + "' from '"@ + token@ + "'"@,
        InfoParseError::InvalidKeyError(token) => "invalid info key '"@ + token@ + "'"@,
        InfoParseError::InvalidScoreSpecifier(token) => "invalid score specifier '"@ + token@
            + "'"@,
    }
}

impl InfoParseError {
    /// The message of the failure.
    pub fn message(&self) -> (r: String)
        ensures
            r@ == message_of(*self),
    {
        match self {
            InfoParseError::ParseNumberError(ps, token) => {
                let mut r = "could not parse info number for state '".to_owned();
                r.append(ps.name());
                r.append("' from '");
                r.append(token.as_str());
                r.append("'");
                r
            },
            InfoParseError::InvalidKeyError(token) => {
                let mut r = "invalid info key '".to_owned();
                r.append(token.as_str());
                r.append("'");
                r
            },
            InfoParseError::InvalidScoreSpecifier(token) => {
                let mut r = "invalid score specifier '".to_owned();
                r.append(token.as_str());
                r.append("'");
                r
            },
        }
    }
}

/// Hands `err` back as a failure.
pub fn info_parse_error(err: InfoParseError) -> (r: Result<(), InfoParseError>)
    ensures
        r == Err::<(), InfoParseError>(err),
{
    Err(err)
}

/// The failure to read `value` as the number that `ps` stands for.
pub fn parse_number_error(ps: ParsingState, value: &str) -> (r: Result<(), InfoParseError>)
    ensures
        r is Err,
        r->Err_0@ == Failure::Number(ps, value.spec_bytes()),
{
    info_parse_error(InfoParseError::ParseNumberError(ps, value.to_owned()))
}

/// The analysis record: what is known of the engine's search so far.
#[derive(Debug, Clone, Copy)]
pub struct AnalysisInfo {
    /// False while the search runs; set by the caller when the best move has arrived.
    pub done: bool,
    /// Best move.
    pub bestmove: UciBuff,
    /// Move that the engine expects in reply.
    pub ponder: UciBuff,
    /// Principal variation, its moves separated by spaces.
    pub pv: PvBuff,
    /// Search depth in plies.
    pub depth: usize,
    /// Selective search depth in plies.
    pub seldepth: usize,
    /// Time searched, in milliseconds.
    pub time: usize,
    /// Nodes searched.
    pub nodes: u64,
    /// Rank of this line among the lines searched.
    pub multipv: usize,
    /// Score, in centipawns or as a mate distance.
    pub score: Score,
    /// Move being searched.
    pub currmove: UciBuff,
    /// Number of the move being searched, from 1.
    pub currmovenumber: usize,
    /// Fill of the hash table, in permill.
    pub hashfull: usize,
    /// Nodes searched per second.
    pub nps: u64,
    /// Positions found in the endgame tablebases.
    pub tbhits: u64,
    /// Load of the processor, in permill.
    pub cpuload: usize,
    /// Whether the score is exact or a bound.
    pub scoretype: ScoreType,
    /// Win, draw and loss counts.
    pub wdl: WDL,
}

/// What an [`AnalysisInfo`] holds, with each text cell as its bytes.
pub struct InfoView {
    pub done: bool,
    pub bestmove: Seq<u8>,
    pub ponder: Seq<u8>,
    pub pv: Seq<u8>,
    pub depth: usize,
    pub seldepth: usize,
    pub time: usize,
    pub nodes: u64,
    pub multipv: usize,
    pub score: Score,
    pub currmove: Seq<u8>,
    pub currmovenumber: usize,
    pub hashfull: usize,
    pub nps: u64,
    pub tbhits: u64,
    pub cpuload: usize,
    pub scoretype: ScoreType,
    pub wdl: WDL,
}

impl InfoView {
    /// Every text lies within the capacity of its cell.
    pub open spec fn within_capacity(self) -> bool {
        &&& self.bestmove.len() <= UCI_MAX_LENGTH
        &&& self.ponder.len() <= UCI_MAX_LENGTH
        &&& self.pv.len() <= PV_BUFF_SIZE
        &&& self.currmove.len() <= UCI_MAX_LENGTH
    }

    /// Every text is well-formed UTF-8, so that it can be read.
    pub open spec fn readable(self) -> bool {
        &&& valid_utf8(self.bestmove)
        &&& valid_utf8(self.ponder)
        &&& valid_utf8(self.pv)
        &&& valid_utf8(self.currmove)
    }
}

/// The record before any line: no text, every number 0, an exact score of 0 centipawns.
pub open spec fn empty_info() -> InfoView {
    InfoView {
        done: false,
        bestmove: Seq::empty(),
        ponder: Seq::empty(),
        pv: Seq::empty(),
        depth: 0,
        seldepth: 0,
        time: 0,
        nodes: 0,
        multipv: 0,
        score: Score::Cp(0),
        currmove: Seq::empty(),
        currmovenumber: 0,
        hashfull: 0,
        nps: 0,
        tbhits: 0,
        cpuload: 0,
        scoretype: ScoreType::Exact,
        wdl: WDL { win: 0, draw: 0, loss: 0 },
    }
}

/// What reading a cell gives: nothing for an empty one, else its text.
pub open spec fn read_cell(bytes: Seq<u8>) -> Option<Seq<char>> {
    if bytes.len() == 0 {
        None
    } else {
        Some(text_of(bytes))
    }
}

/// The text of an optional string.
pub open spec fn opt_text(s: Option<String>) -> Option<Seq<char>> {
    match s {
        Some(t) => Some(t@),
        None => None,
    }
}

/// The record in the shape in which it is handed on: each text as an
/// optional string, and a tag that names the kind of record.
#[derive(Debug)]
pub struct AnalysisInfoSerde {
    /// The tag: always `AnalysisInfo`.
    pub disposition: String,
    /// False while the search runs; true when the best move has arrived.
    pub done: bool,
    /// Best move.
    pub bestmove: Option<String>,
    /// Move that the engine expects in reply.
    pub ponder: Option<String>,
    /// Principal variation.
    pub pv: Option<String>,
    /// Search depth in plies.
    pub depth: usize,
    /// Selective search depth in plies.
    pub seldepth: usize,
    /// Time searched, in milliseconds.
    pub time: usize,
    /// Nodes searched.
    pub nodes: u64,
    /// Rank of this line among the lines searched.
    pub multipv: usize,
    /// Score, in centipawns or as a mate distance.
    pub score: Score,
    /// Win, draw and loss counts.
    pub wdl: WDL,
    /// Move being searched.
    pub currmove: Option<String>,
    /// Number of the move being searched, from 1.
    pub currmovenumber: usize,
    /// Fill of the hash table, in permill.
    pub hashfull: usize,
    /// Nodes searched per second.
    pub nps: u64,
    /// Positions found in the endgame tablebases.
    pub tbhits: u64,
    /// Load of the processor, in permill.
    pub cpuload: usize,
    /// Whether the score is exact or a bound.
    pub scoretype: ScoreType,
}

/// What an [`AnalysisInfoSerde`] holds, with each string as its text.
pub struct SerdeView {
    pub disposition: Seq<char>,
    pub done: bool,
    pub bestmove: Option<Seq<char>>,
    pub ponder: Option<Seq<char>>,
    pub pv: Option<Seq<char>>,
    pub depth: usize,
    pub seldepth: usize,
    pub time: usize,
    pub nodes: u64,
    pub multipv: usize,
    pub score: Score,
    pub wdl: WDL,
    pub currmove: Option<Seq<char>>,
    pub currmovenumber: usize,
    pub hashfull: usize,
    pub nps: u64,
    pub tbhits: u64,
    pub cpuload: usize,
    pub scoretype: ScoreType,
}

impl View for AnalysisInfoSerde {
    type V = SerdeView;

    open spec fn view(&self) -> SerdeView {
        SerdeView {
            disposition: self.disposition@,
            done: self.done,
            bestmove: opt_text(self.bestmove),
            ponder: opt_text(self.ponder),
            pv: opt_text(self.pv),
            depth: self.depth,
            seldepth: self.seldepth,
            time: self.time,
            nodes: self.nodes,
            multipv: self.multipv,
            score: self.score,
            wdl: self.wdl,
            currmove: opt_text(self.currmove),
            currmovenumber: self.currmovenumber,
            hashfull: self.hashfull,
            nps: self.nps,
            tbhits: self.tbhits,
            cpuload: self.cpuload,
            scoretype: self.scoretype,
        }
    }
}

/// What storing an optional text in a cell of capacity `cap` leaves there:
/// the bytes of the text, cut to the capacity, and nothing for no text.
pub open spec fn write_cell(text: Option<Seq<char>>, cap: nat) -> Seq<u8> {
    match text {
        Some(t) => kept(encode_utf8(t), cap),
        None => Seq::empty(),
    }
}

/// The record `v` in the shape in which it is handed on.
pub open spec fn to_transport(v: InfoView) -> SerdeView {
    SerdeView {
        disposition: "AnalysisInfo"@,
        done: v.done,
        bestmove: read_cell(v.bestmove),
        ponder: read_cell(v.ponder),
        pv: read_cell(v.pv),
        depth: v.depth,
        seldepth: v.seldepth,
        time: v.time,
        nodes: v.nodes,
        multipv: v.multipv,
        score: v.score,
        wdl: v.wdl,
        currmove: read_cell(v.currmove),
        currmovenumber: v.currmovenumber,
        hashfull: v.hashfull,
        nps: v.nps,
        tbhits: v.tbhits,
        cpuload: v.cpuload,
        scoretype: v.scoretype,
    }
}

/// The record that `s` hands on. The tag is not looked at.
pub open spec fn from_transport(s: SerdeView) -> InfoView {
    InfoView {
        done: s.done,
        bestmove: write_cell(s.bestmove, UCI_MAX_LENGTH as nat),
        ponder: write_cell(s.ponder, UCI_MAX_LENGTH as nat),
        pv: write_cell(s.pv, PV_BUFF_SIZE as nat),
        depth: s.depth,
        seldepth: s.seldepth,
        time: s.time,
        nodes: s.nodes,
        multipv: s.multipv,
        score: s.score,
        currmove: write_cell(s.currmove, UCI_MAX_LENGTH as nat),
        currmovenumber: s.currmovenumber,
        hashfull: s.hashfull,
        nps: s.nps,
        tbhits: s.tbhits,
        cpuload: s.cpuload,
        scoretype: s.scoretype,
        wdl: s.wdl,
    }
}

/// A text that fits its cell and is well-formed comes back from the cell as
/// it was written: reading, then writing what was read, leaves the bytes.
pub proof fn lemma_cell_round_trip(bytes: Seq<u8>, cap: nat)
    requires
        bytes.len() <= cap,
        valid_utf8(bytes),
    ensures
        write_cell(read_cell(bytes), cap) == bytes,
{
    if bytes.len() == 0 {
        assert(bytes =~= Seq::<u8>::empty());
    } else {
        decode_utf8_encode_utf8(bytes);
    }
}

/// Handing a record on and taking it back gives the same record, field by
/// field, where each of its texts fits its cell and is well-formed.
pub proof fn lemma_transport_round_trip(v: InfoView)
    requires
        v.within_capacity(),
        v.readable(),
    ensures
        from_transport(to_transport(v)) == v,
{
    lemma_cell_round_trip(v.bestmove, UCI_MAX_LENGTH as nat);
    lemma_cell_round_trip(v.ponder, UCI_MAX_LENGTH as nat);
    lemma_cell_round_trip(v.pv, PV_BUFF_SIZE as nat);
    lemma_cell_round_trip(v.currmove, UCI_MAX_LENGTH as nat);
}

/// The bytes of a word of the protocol.
#[verifier::opaque]
pub open spec fn word(w: &str) -> Seq<u8> {
    w.spec_bytes()
}

/// The decoder in the middle of a line: its state, the record as it stands,
/// and the principal variation gathered from this line so far.
pub struct Machine {
    pub state: ParsingState,
    pub info: InfoView,
    pub pv: Seq<u8>,
}

/// What one token does to the decoder.
pub enum Stepped {
    /// The token is taken; the decoder goes on from here.
    Next(Machine),
    /// The rest of the line is ignored; the record stays as it was before the token.
    Stop,
    /// The line is refused; the record stays as it was before the token.
    Fail(Failure),
}

/// How the decoder goes on after a step.
#[derive(Debug, Clone, Copy, PartialEq, Eq, Structural)]
pub enum Flow {
    /// With the next token, in this state.
    Next(ParsingState),
    /// Not at all: the rest of the line is ignored.
    Stop,
}

/// The bound that `tok` names, if it names one.
pub open spec fn bound_of(tok: Seq<u8>) -> Option<ScoreType> {
    if tok == word("upperbound") {
        Some(ScoreType::Upperbound)
    } else if tok == word("lowerbound") {
        Some(ScoreType::Lowerbound)
    } else {
        None
    }
}

/// `tok` opens an extension of the protocol that the decoder passes over.
pub open spec fn is_passed_over(tok: Seq<u8>) -> bool {
    tok == word("string") || tok == word("refutation") || tok == word("currline")
}

/// The state in which the value of the key `tok` is read, if `tok` is a key with a value.
pub open spec fn key_of(tok: Seq<u8>) -> Option<ParsingState> {
    if tok == word("depth") {
        Some(ParsingState::Depth)
    } else if tok == word("seldepth") {
        Some(ParsingState::Seldepth)
    } else if tok == word("time") {
        Some(ParsingState::Time)
    } else if tok == word("nodes") {
        Some(ParsingState::Nodes)
    } else if tok == word("multipv") {
        Some(ParsingState::Multipv)
    } else if tok == word("score") {
        Some(ParsingState::Score)
    } else if tok == word("wdl") {
        Some(ParsingState::WdlW)
    } else if tok == word("currmove") {
        Some(ParsingState::Currmove)
    } else if tok == word("currmovenumber") {
        Some(ParsingState::Currmovenumber)
    } else if tok == word("hashfull") {
        Some(ParsingState::Hashfull)
    } else if tok == word("nps") {
        Some(ParsingState::Nps)
    } else if tok == word("tbhits") {
        Some(ParsingState::Tbhits)
    } else if tok == word("cpuload") {
        Some(ParsingState::Cpuload)
    } else if tok == word("pv") {
        Some(ParsingState::PvBestmove)
    } else {
        None
    }
}

/// The number of the machine's word size that `tok` writes.
pub open spec fn word_number(tok: Seq<u8>) -> Option<usize> {
    match unsigned_of(tok, usize::MAX as nat) {
        Some(v) => Some(v as usize),
        None => None,
    }
}

/// The 64-bit number that `tok` writes.
pub open spec fn wide_number(tok: Seq<u8>) -> Option<u64> {
    match unsigned_of(tok, u64::MAX as nat) {
        Some(v) => Some(v as u64),
        None => None,
    }
}

/// The score that `tok` writes.
pub open spec fn score_number(tok: Seq<u8>) -> Option<i32> {
    match signed_of(tok, i32::MIN as int, i32::MAX as int) {
        Some(v) => Some(v as i32),
        None => None,
    }
}

/// The state behind the number read in `state`: the three counts of `wdl`
/// follow each other, every other number is followed by a key.
pub open spec fn after_number(state: ParsingState) -> ParsingState {
    match state {
        ParsingState::WdlW => ParsingState::WdlD,
        ParsingState::WdlD => ParsingState::WdlL,
        _ => ParsingState::Key,
    }
}

/// The record with the number `tok` stored in the field that `state` stands
/// for, or `None` where `tok` is no number of that field.
pub open spec fn with_number(state: ParsingState, info: InfoView, tok: Seq<u8>) -> Option<InfoView> {
    match state {
        ParsingState::Depth => match word_number(tok) {
            Some(v) => Some(InfoView { depth: v, ..info }),
            None => None,
        },
        ParsingState::Seldepth => match word_number(tok) {
            Some(v) => Some(InfoView { seldepth: v, ..info }),
            None => None,
        },
        ParsingState::Time => match word_number(tok) {
            Some(v) => Some(InfoView { time: v, ..info }),
            None => None,
        },
        ParsingState::Multipv => match word_number(tok) {
            Some(v) => Some(InfoView { multipv: v, ..info }),
            None => None,
        },
        ParsingState::Currmovenumber => match word_number(tok) {
            Some(v) => Some(InfoView { currmovenumber: v, ..info }),
            None => None,
        },
        ParsingState::Hashfull => match word_number(tok) {
            Some(v) => Some(InfoView { hashfull: v, ..info }),
            None => None,
        },
        ParsingState::Cpuload => match word_number(tok) {
            Some(v) => Some(InfoView { cpuload: v, ..info }),
            None => None,
        },
        ParsingState::Nodes => match wide_number(tok) {
            Some(v) => Some(InfoView { nodes: v, ..info }),
            None => None,
        },
        ParsingState::Nps => match wide_number(tok) {
            Some(v) => Some(InfoView { nps: v, ..info }),
            None => None,
        },
        ParsingState::Tbhits => match wide_number(tok) {
            Some(v) => Some(InfoView { tbhits: v, ..info }),
            None => None,
        },
        ParsingState::WdlW => match wide_number(tok) {
            Some(v) => Some(InfoView { wdl: WDL { win: v, ..info.wdl }, ..info }),
            None => None,
        },
        ParsingState::WdlD => match wide_number(tok) {
            Some(v) => Some(InfoView { wdl: WDL { draw: v, ..info.wdl }, ..info }),
            None => None,
        },
        ParsingState::WdlL => match wide_number(tok) {
            Some(v) => Some(InfoView { wdl: WDL { loss: v, ..info.wdl }, ..info }),
            None => None,
        },
        ParsingState::ScoreCp => match score_number(tok) {
            Some(v) => Some(InfoView { score: Score::Cp(v), ..info }),
            None => None,
        },
        ParsingState::ScoreMate => match score_number(tok) {
            Some(v) => Some(InfoView { score: Score::Mate(v), ..info }),
            None => None,
        },
        _ => None,
    }
}

/// The step in a state that reads a number.
pub open spec fn step_number(m: Machine, tok: Seq<u8>) -> Stepped {
    match with_number(m.state, m.info, tok) {
        Some(info) => Stepped::Next(Machine { state: after_number(m.state), info, pv: m.pv }),
        None => Stepped::Fail(Failure::Number(m.state, tok)),
    }
}

/// The step where a key is expected.
pub open spec fn step_key(m: Machine, tok: Seq<u8>, allow_unknown_key: bool) -> Stepped {
    if is_passed_over(tok) {
        Stepped::Stop
    } else if bound_of(tok) is Some {
        Stepped::Next(Machine { info: InfoView { scoretype: bound_of(tok)->0, ..m.info }, ..m })
    } else if key_of(tok) is Some {
        Stepped::Next(Machine { state: key_of(tok)->0, ..m })
    } else if allow_unknown_key {
        Stepped::Next(Machine { state: ParsingState::Unknown, ..m })
    } else {
        Stepped::Fail(Failure::Key(tok))
    }
}

/// The step behind the key `score`.
pub open spec fn step_score(m: Machine, tok: Seq<u8>) -> Stepped {
    if tok == word("cp") {
        Stepped::Next(
            Machine {
                state: ParsingState::ScoreCp,
                info: InfoView { scoretype: ScoreType::Exact, ..m.info },
                pv: m.pv,
            },
        )
    } else if tok == word("mate") {
        Stepped::Next(
            Machine {
                state: ParsingState::ScoreMate,
                info: InfoView { scoretype: ScoreType::Exact, ..m.info },
                pv: m.pv,
            },
        )
    } else if bound_of(tok) is Some {
        Stepped::Next(Machine { info: InfoView { scoretype: bound_of(tok)->0, ..m.info }, ..m })
    } else {
        Stepped::Fail(Failure::Specifier(tok))
    }
}

/// The step behind `score cp` or `score mate`: a bound may still stand before the number.
pub open spec fn step_score_value(m: Machine, tok: Seq<u8>) -> Stepped {
    if bound_of(tok) is Some {
        Stepped::Next(Machine { info: InfoView { scoretype: bound_of(tok)->0, ..m.info }, ..m })
    } else {
        step_number(m, tok)
    }
}

/// The step within a principal variation: the first move is the best move
/// and resets the ponder move, the second is the ponder move, and every
/// move is gathered, with a space between two.
pub open spec fn step_pv(m: Machine, tok: Seq<u8>) -> Stepped {
    match m.state {
        ParsingState::PvBestmove => Stepped::Next(
            Machine {
                state: ParsingState::PvPonder,
                info: InfoView {
                    bestmove: kept(tok, UCI_MAX_LENGTH as nat),
                    ponder: Seq::empty(),
                    ..m.info
                },
                pv: m.pv + tok,
            },
        ),
        ParsingState::PvPonder => Stepped::Next(
            Machine {
                state: ParsingState::PvRest,
                info: InfoView { ponder: kept(tok, UCI_MAX_LENGTH as nat), ..m.info },
                pv: m.pv + seq![space()] + tok,
            },
        ),
        _ => Stepped::Next(
            Machine { state: ParsingState::PvRest, info: m.info, pv: m.pv + seq![space()] + tok },
        ),
    }
}

/// What the token `tok` does to the decoder `m`.
#[verifier::opaque]
pub open spec fn step_of(m: Machine, tok: Seq<u8>, allow_unknown_key: bool) -> Stepped {
    match m.state {
        ParsingState::Info => if tok == word("info") {
            Stepped::Next(Machine { state: ParsingState::Key, ..m })
        } else {
            Stepped::Stop
        },
        ParsingState::Key => step_key(m, tok, allow_unknown_key),
        ParsingState::Unknown => Stepped::Next(Machine { state: ParsingState::Key, ..m }),
        ParsingState::Score => step_score(m, tok),
        ParsingState::ScoreCp | ParsingState::ScoreMate => step_score_value(m, tok),
        ParsingState::Currmove => Stepped::Next(
            Machine {
                state: ParsingState::Key,
                info: InfoView { currmove: kept(tok, UCI_MAX_LENGTH as nat), ..m.info },
                pv: m.pv,
            },
        ),
        ParsingState::PvBestmove | ParsingState::PvPonder | ParsingState::PvRest => step_pv(m, tok),
        _ => step_number(m, tok),
    }
}

/// The decoder has met the key `pv` in this line.
pub open spec fn in_pv(state: ParsingState) -> bool {
    state == ParsingState::PvBestmove || state == ParsingState::PvPonder || state
        == ParsingState::PvRest
}

/// The record at the end of a line: where the line held the key `pv`, what
/// was gathered replaces the principal variation, cut so that no move is split.
pub open spec fn finish(m: Machine) -> InfoView {
    if in_pv(m.state) {
        InfoView { pv: trimmed(m.pv, PV_BUFF_SIZE as nat, ' '), ..m.info }
    } else {
        m.info
    }
}

/// The record after the tokens `toks`, and the failure that ended the line, if one did.
pub open spec fn run(m: Machine, toks: Seq<Seq<u8>>, allow_unknown_key: bool) -> (
    InfoView,
    Option<Failure>,
)
    decreases toks.len(),
{
    if toks.len() == 0 {
        (finish(m), None)
    } else {
        match step_of(m, toks[0], allow_unknown_key) {
            Stepped::Next(n) => run(n, toks.drop_first(), allow_unknown_key),
            Stepped::Stop => (m.info, None),
            Stepped::Fail(f) => (m.info, Some(f)),
        }
    }
}

/// The record after the line `line`, and the failure that ended the line, if one did.
pub open spec fn parse_line(info: InfoView, line: Seq<u8>, allow_unknown_key: bool) -> (
    InfoView,
    Option<Failure>,
) {
    run(
        Machine { state: ParsingState::Info, info, pv: Seq::empty() },
        tokens(line),
        allow_unknown_key,
    )
}

/// A line whose first token is not `info` leaves the record as it is, and is not refused.
pub proof fn lemma_other_lines_change_nothing(info: InfoView, line: Seq<u8>, allow_unknown_key: bool)
    requires
        tokens(line)[0] != word("info"),
    ensures
        parse_line(info, line, allow_unknown_key) == (info, None::<Failure>),
{
    reveal(step_of);
    crate::tokens::lemma_tokens_nonempty(line);
}

/// The key that leads into the state `state`: the key whose value is read
/// there, or whose value was begun before it.
pub open spec fn key_before(state: ParsingState) -> Option<Seq<u8>> {
    match state {
        ParsingState::Info | ParsingState::Key | ParsingState::Unknown => None,
        ParsingState::Depth => Some(word("depth")),
        ParsingState::Seldepth => Some(word("seldepth")),
        ParsingState::Time => Some(word("time")),
        ParsingState::Nodes => Some(word("nodes")),
        ParsingState::Multipv => Some(word("multipv")),
        ParsingState::Score | ParsingState::ScoreCp | ParsingState::ScoreMate => Some(
            word("score"),
        ),
        ParsingState::WdlW | ParsingState::WdlD | ParsingState::WdlL => Some(word("wdl")),
        ParsingState::Currmove => Some(word("currmove")),
        ParsingState::Currmovenumber => Some(word("currmovenumber")),
        ParsingState::Hashfull => Some(word("hashfull")),
        ParsingState::Nps => Some(word("nps")),
        ParsingState::Tbhits => Some(word("tbhits")),
        ParsingState::Cpuload => Some(word("cpuload")),
        ParsingState::PvBestmove | ParsingState::PvPonder | ParsingState::PvRest => Some(
            word("pv"),
        ),
    }
}

/// The records `a` and `b` agree in what the key `key` stands for: its
/// field, or for `pv` the best move, the ponder move and the variation.
pub open spec fn same_under(key: Seq<u8>, a: InfoView, b: InfoView) -> bool {
    &&& key == word("depth") ==> a.depth == b.depth
    &&& key == word("seldepth") ==> a.seldepth == b.seldepth
    &&& key == word("time") ==> a.time == b.time
    &&& key == word("nodes") ==> a.nodes == b.nodes
    &&& key == word("multipv") ==> a.multipv == b.multipv
    &&& key == word("score") ==> a.score == b.score
    &&& key == word("wdl") ==> a.wdl == b.wdl
    &&& key == word("currmove") ==> a.currmove == b.currmove
    &&& key == word("currmovenumber") ==> a.currmovenumber == b.currmovenumber
    &&& key == word("hashfull") ==> a.hashfull == b.hashfull
    &&& key == word("nps") ==> a.nps == b.nps
    &&& key == word("tbhits") ==> a.tbhits == b.tbhits
    &&& key == word("cpuload") ==> a.cpuload == b.cpuload
    &&& key == word("pv") ==> a.bestmove == b.bestmove && a.ponder == b.ponder && a.pv == b.pv
}

/// A token other than `key`, met outside the value of `key`, leaves what
/// `key` stands for and does not lead into its value. No token changes the
/// flag `done`.
pub proof fn lemma_step_leaves_other_keys(
    m: Machine,
    tok: Seq<u8>,
    allow_unknown_key: bool,
    key: Seq<u8>,
)
    requires
        key_before(m.state) != Some(key),
        tok != key,
    ensures
        match step_of(m, tok, allow_unknown_key) {
            Stepped::Next(n) => key_before(n.state) != Some(key) && same_under(
                key,
                m.info,
                n.info,
            ) && n.info.done == m.info.done,
            _ => true,
        },
{
    reveal(step_of);
    match m.state {
        ParsingState::Info | ParsingState::Unknown | ParsingState::Currmove => {},
        ParsingState::Key => {
            lemma_key_leaves_other_keys(m, tok, allow_unknown_key, key);
        },
        ParsingState::Score => {},
        ParsingState::PvBestmove | ParsingState::PvPonder | ParsingState::PvRest => {},
        _ => {
            lemma_number_leaves_other_keys(m, tok, key);
        },
    }
}

/// The key `tok` leads into its own value and into no other.
proof fn lemma_key_leaves_other_keys(
    m: Machine,
    tok: Seq<u8>,
    allow_unknown_key: bool,
    key: Seq<u8>,
)
    requires
        key_before(m.state) != Some(key),
        tok != key,
    ensures
        match step_key(m, tok, allow_unknown_key) {
            Stepped::Next(n) => key_before(n.state) != Some(key) && same_under(
                key,
                m.info,
                n.info,
            ) && n.info.done == m.info.done,
            _ => true,
        },
{
    if key_of(tok) is Some {
        assert(key_before(key_of(tok)->0) == Some(tok));
    }
}

/// A number changes only the field of the state in which it is read.
proof fn lemma_number_leaves_other_keys(m: Machine, tok: Seq<u8>, key: Seq<u8>)
    requires
        key_before(m.state) != Some(key),
    ensures
        match step_number(m, tok) {
            Stepped::Next(n) => key_before(n.state) != Some(key) && same_under(
                key,
                m.info,
                n.info,
            ) && n.info.done == m.info.done,
            _ => true,
        },
        match step_score_value(m, tok) {
            Stepped::Next(n) => key_before(n.state) != Some(key) && same_under(
                key,
                m.info,
                n.info,
            ) && n.info.done == m.info.done,
            _ => true,
        },
{
    match with_number(m.state, m.info, tok) {
        Some(info) => {
            assert(same_under(key, m.info, info) && info.done == m.info.done);
        },
        None => {},
    }
}

/// After tokens of which none is `key`, begun outside the value of `key`,
/// the record holds what it held of what `key` stands for.
pub proof fn lemma_run_leaves_other_keys(
    m: Machine,
    toks: Seq<Seq<u8>>,
    allow_unknown_key: bool,
    key: Seq<u8>,
)
    requires
        key_before(m.state) != Some(key),
        forall|k: int| 0 <= k < toks.len() ==> #[trigger] toks[k] != key,
    ensures
        same_under(key, m.info, run(m, toks, allow_unknown_key).0),
        run(m, toks, allow_unknown_key).0.done == m.info.done,
    decreases toks.len(),
{
    if toks.len() > 0 {
        lemma_step_leaves_other_keys(m, toks[0], allow_unknown_key, key);
        match step_of(m, toks[0], allow_unknown_key) {
            Stepped::Next(n) => {
                let rest = toks.drop_first();
                assert forall|k: int| 0 <= k < rest.len() implies #[trigger] rest[k] != key by {
                    assert(rest[k] == toks[k + 1]);
                }
                lemma_run_leaves_other_keys(n, rest, allow_unknown_key, key);
            },
            _ => {},
        }
    }
}

/// A line updates only what it names: where no token of the line is the
/// key `key`, the record holds afterwards what it held of what `key` stands
/// for, whether the line was refused or not. The flag `done` stays in any case.
pub proof fn lemma_unnamed_fields_stay(
    info: InfoView,
    line: Seq<u8>,
    allow_unknown_key: bool,
    key: Seq<u8>,
)
    requires
        forall|k: int| 0 <= k < tokens(line).len() ==> #[trigger] tokens(line)[k] != key,
    ensures
        same_under(key, info, parse_line(info, line, allow_unknown_key).0),
        parse_line(info, line, allow_unknown_key).0.done == info.done,
{
    lemma_run_leaves_other_keys(
        Machine { state: ParsingState::Info, info, pv: Seq::empty() },
        tokens(line),
        allow_unknown_key,
        key,
    );
}

/// A token of ASCII characters leaves every text of the record readable,
/// and what is gathered of the variation in ASCII.
pub proof fn lemma_step_of_ascii(m: Machine, tok: Seq<u8>, allow_unknown_key: bool)
    requires
        m.info.readable(),
        is_ascii_bytes(m.pv),
        is_ascii_bytes(tok),
    ensures
        match step_of(m, tok, allow_unknown_key) {
            Stepped::Next(n) => n.info.readable() && is_ascii_bytes(n.pv),
            _ => true,
        },
{
    reveal(step_of);
    lemma_ascii_stays_text(tok, UCI_MAX_LENGTH as nat, ' ');
    assert(valid_utf8(Seq::<u8>::empty()));
}

/// After the tokens of a line of ASCII characters, every text of the record is readable.
pub proof fn lemma_run_of_ascii(m: Machine, toks: Seq<Seq<u8>>, allow_unknown_key: bool)
    requires
        m.info.readable(),
        is_ascii_bytes(m.pv),
        forall|k: int| 0 <= k < toks.len() ==> is_ascii_bytes(#[trigger] toks[k]),
    ensures
        run(m, toks, allow_unknown_key).0.readable(),
    decreases toks.len(),
{
    if toks.len() == 0 {
        lemma_ascii_stays_text(m.pv, PV_BUFF_SIZE as nat, ' ');
    } else {
        lemma_step_of_ascii(m, toks[0], allow_unknown_key);
        match step_of(m, toks[0], allow_unknown_key) {
            Stepped::Next(n) => {
                let rest = toks.drop_first();
                assert forall|k: int| 0 <= k < rest.len() implies is_ascii_bytes(
                    #[trigger] rest[k],
                ) by {
                    assert(rest[k] == toks[k + 1]);
                }
                lemma_run_of_ascii(n, rest, allow_unknown_key);
            },
            _ => {},
        }
    }
}

/// A line of ASCII characters leaves every text of a readable record
/// readable: no move is cut through a character.
pub proof fn lemma_ascii_line_stays_readable(
    info: InfoView,
    line: Seq<u8>,
    allow_unknown_key: bool,
)
    requires
        info.readable(),
        is_ascii_bytes(line),
    ensures
        parse_line(info, line, allow_unknown_key).0.readable(),
{
    let toks = tokens(line);
    assert forall|k: int| 0 <= k < toks.len() implies is_ascii_bytes(#[trigger] toks[k]) by {
        crate::tokens::lemma_tokens_of_ascii(line, k);
    }
    lemma_run_of_ascii(
        Machine { state: ParsingState::Info, info, pv: Seq::empty() },
        toks,
        allow_unknown_key,
    );
}

/// `after` and `r` are what decoding `line` makes of the record `before`.
pub open spec fn decoded(
    before: InfoView,
    line: Seq<u8>,
    allow_unknown_key: bool,
    after: InfoView,
    r: Result<(), InfoParseError>,
) -> bool {
    let (info, failure) = parse_line(before, line, allow_unknown_key);
    &&& after == info
    &&& match failure {
        Some(f) => r is Err && r->Err_0@ == f,
        None => r is Ok,
    }
}

impl View for AnalysisInfo {
    type V = InfoView;

    open spec fn view(&self) -> InfoView {
        InfoView {
            done: self.done,
            bestmove: self.bestmove@,
            ponder: self.ponder@,
            pv: self.pv@,
            depth: self.depth,
            seldepth: self.seldepth,
            time: self.time,
            nodes: self.nodes,
            multipv: self.multipv,
            score: self.score,
            currmove: self.currmove@,
            currmovenumber: self.currmovenumber,
            hashfull: self.hashfull,
            nps: self.nps,
            tbhits: self.tbhits,
            cpuload: self.cpuload,
            scoretype: self.scoretype,
            wdl: self.wdl,
        }
    }
}

impl AnalysisInfo {
    /// Every cell's length lies within its capacity.
    pub open spec fn wf(&self) -> bool {
        &&& self.bestmove.wf()
        &&& self.ponder.wf()
        &&& self.pv.wf()
        &&& self.currmove.wf()
    }

    /// An empty record.
    pub fn new() -> (r: Self)
        ensures
            r.wf(),
            r@ == empty_info(),
    {
        Self {
            done: false,
            bestmove: UciBuff::new(),
            ponder: UciBuff::new(),
            pv: PvBuff::new(),
            depth: 0,
            seldepth: 0,
            time: 0,
            nodes: 0,
            multipv: 0,
            score: Score::Cp(0),
            currmove: UciBuff::new(),
            currmovenumber: 0,
            hashfull: 0,
            nps: 0,
            tbhits: 0,
            cpuload: 0,
            scoretype: ScoreType::Exact,
            wdl: WDL { win: 0, draw: 0, loss: 0 },
        }
    }

    /// The best move, if one is known.
    pub fn bestmove(self) -> (r: Option<String>)
        requires
            self.wf(),
            valid_utf8(self@.bestmove),
        ensures
            opt_text(r) == read_cell(self@.bestmove),
    {
        self.bestmove.to_opt()
    }

    /// The move that the engine expects in reply, if one is known.
    pub fn ponder(self) -> (r: Option<String>)
        requires
            self.wf(),
            valid_utf8(self@.ponder),
        ensures
            opt_text(r) == read_cell(self@.ponder),
    {
        self.ponder.to_opt()
    }

    /// The principal variation, if one is known.
    pub fn pv(self) -> (r: Option<String>)
        requires
            self.wf(),
            valid_utf8(self@.pv),
        ensures
            opt_text(r) == read_cell(self@.pv),
    {
        self.pv.to_opt()
    }

    /// The move being searched, if one is known.
    pub fn currmove(self) -> (r: Option<String>)
        requires
            self.wf(),
            valid_utf8(self@.currmove),
        ensures
            opt_text(r) == read_cell(self@.currmove),
    {
        self.currmove.to_opt()
    }

    /// The record in the shape in which it is handed on.
    pub fn to_serde(self) -> (r: AnalysisInfoSerde)
        requires
            self.wf(),
            self@.readable(),
        ensures
            r@ == to_transport(self@),
    {
        AnalysisInfoSerde {
            disposition: "AnalysisInfo".to_owned(),
            done: self.done,
            bestmove: self.bestmove(),
            ponder: self.ponder(),
            pv: self.pv(),
            depth: self.depth,
            seldepth: self.seldepth,
            time: self.time,
            nodes: self.nodes,
            multipv: self.multipv,
            score: self.score,
            currmove: self.currmove(),
            currmovenumber: self.currmovenumber,
            hashfull: self.hashfull,
            nps: self.nps,
            tbhits: self.tbhits,
            cpuload: self.cpuload,
            scoretype: self.scoretype,
            wdl: self.wdl,
        }
    }

    /// The record that `ais` hands on, each text cut to the capacity of its cell.
    pub fn from_serde(ais: AnalysisInfoSerde) -> (r: Self)
        ensures
            r.wf(),
            r@ == from_transport(ais@),
    {
        Self {
            done: ais.done,
            bestmove: UciBuff::of_opt(ais.bestmove),
            ponder: UciBuff::of_opt(ais.ponder),
            pv: PvBuff::of_opt(ais.pv),
            depth: ais.depth,
            seldepth: ais.seldepth,
            time: ais.time,
            nodes: ais.nodes,
            multipv: ais.multipv,
            score: ais.score,
            currmove: UciBuff::of_opt(ais.currmove),
            currmovenumber: ais.currmovenumber,
            hashfull: ais.hashfull,
            nps: ais.nps,
            tbhits: ais.tbhits,
            cpuload: ais.cpuload,
            scoretype: ais.scoretype,
            wdl: ais.wdl,
        }
    }

    /// Reads `token` as the number that the state `ps` stands for and stores it.
    fn store_number(&mut self, ps: ParsingState, token: &str) -> (r: Result<(), InfoParseError>)
        requires
            old(self).wf(),
        ensures
            final(self).wf(),
            match with_number(ps, old(self)@, token.spec_bytes()) {
                Some(info) => r is Ok && final(self)@ == info,
                None => r is Err && r->Err_0@ == Failure::Number(ps, token.spec_bytes())
                    && *final(self) == *old(self),
            },
    {
        let bytes = token.as_bytes();
        match ps {
            ParsingState::Depth => match parse_usize(bytes) {
                Some(v) => self.depth = v,
                None => return parse_number_error(ps, token),
            },
            ParsingState::Seldepth => match parse_usize(bytes) {
                Some(v) => self.seldepth = v,
                None => return parse_number_error(ps, token),
            },
            ParsingState::Time => match parse_usize(bytes) {
                Some(v) => self.time = v,
                None => return parse_number_error(ps, token),
            },
            ParsingState::Multipv => match parse_usize(bytes) {
                Some(v) => self.multipv = v,
                None => return parse_number_error(ps, token),
            },
            ParsingState::Currmovenumber => match parse_usize(bytes) {
                Some(v) => self.currmovenumber = v,
                None => return parse_number_error(ps, token),
            },
            ParsingState::Hashfull => match parse_usize(bytes) {
                Some(v) => self.hashfull = v,
                None => return parse_number_error(ps, token),
            },
            ParsingState::Cpuload => match parse_usize(bytes) {
                Some(v) => self.cpuload = v,
                None => return parse_number_error(ps, token),
            },
            ParsingState::Nodes => match parse_u64(bytes) {
                Some(v) => self.nodes = v,
                None => return parse_number_error(ps, token),
            },
            ParsingState::Nps => match parse_u64(bytes) {
                Some(v) => self.nps = v,
                None => return parse_number_error(ps, token),
            },
            ParsingState::Tbhits => match parse_u64(bytes) {
                Some(v) => self.tbhits = v,
                None => return parse_number_error(ps, token),
            },
            ParsingState::WdlW => match parse_u64(bytes) {
                Some(v) => self.wdl.win = v,
                None => return parse_number_error(ps, token),
            },
            ParsingState::WdlD => match parse_u64(bytes) {
                Some(v) => self.wdl.draw = v,
                None => return parse_number_error(ps, token),
            },
            ParsingState::WdlL => match parse_u64(bytes) {
                Some(v) => self.wdl.loss = v,
                None => return parse_number_error(ps, token),
            },
            ParsingState::ScoreCp => match parse_i32(bytes) {
                Some(v) => self.score = Score::Cp(v),
                None => return parse_number_error(ps, token),
            },
            ParsingState::ScoreMate => match parse_i32(bytes) {
                Some(v) => self.score = Score::Mate(v),
                None => return parse_number_error(ps, token),
            },
            _ => return parse_number_error(ps, token),
        }
        Ok(())
    }

    /// Takes one token of a line in the state `ps`: updates the record, adds
    /// to the principal variation `pv` gathered from the line, and says how
    /// the decoder goes on.
    ///
    /// Where the rest of the line is ignored or the line is refused, the
    /// record stays as it was.
    pub fn step(
        &mut self,
        ps: ParsingState,
        token: &str,
        pv: &mut String,
        allow_unknown_key: bool,
    ) -> (r: Result<Flow, InfoParseError>)
        requires
            old(self).wf(),
        ensures
            final(self).wf(),
            final(self).done == old(self).done,
            match step_of(
                Machine { state: ps, info: old(self)@, pv: encode_utf8(old(pv)@) },
                token.spec_bytes(),
                allow_unknown_key,
            ) {
                Stepped::Next(n) => r == Ok::<Flow, InfoParseError>(Flow::Next(n.state))
                    && final(self)@ == n.info && encode_utf8(final(pv)@) == n.pv,
                Stepped::Stop => r == Ok::<Flow, InfoParseError>(Flow::Stop) && *final(self)
                    == *old(self) && final(pv)@ == old(pv)@,
                Stepped::Fail(f) => r is Err && r->Err_0@ == f && *final(self) == *old(self)
                    && final(pv)@ == old(pv)@,
            },
    {
        reveal(step_of);
        reveal(word);
        match ps {
            ParsingState::Info => {
                if is_word(token, "info") {
                    Ok(Flow::Next(ParsingState::Key))
                } else {
                    Ok(Flow::Stop)
                }
            },
            ParsingState::Key => {
                if is_word(token, "string") || is_word(token, "refutation") || is_word(
                    token,
                    "currline",
                ) {
                    return Ok(Flow::Stop);
                }
                if let Some(bound) = bound_word(token) {
                    self.scoretype = bound;
                    return Ok(Flow::Next(ParsingState::Key));
                }
                match find_key(token) {
                    Some(state) => Ok(Flow::Next(state)),
                    None => {
                        if allow_unknown_key {
                            Ok(Flow::Next(ParsingState::Unknown))
                        } else {
                            Err(InfoParseError::InvalidKeyError(token.to_owned()))
                        }
                    },
                }
            },
            ParsingState::Unknown => Ok(Flow::Next(ParsingState::Key)),
            ParsingState::Score => {
                if is_word(token, "cp") {
                    self.scoretype = ScoreType::Exact;
                    Ok(Flow::Next(ParsingState::ScoreCp))
                } else if is_word(token, "mate") {
                    self.scoretype = ScoreType::Exact;
                    Ok(Flow::Next(ParsingState::ScoreMate))
                } else if let Some(bound) = bound_word(token) {
                    self.scoretype = bound;
                    Ok(Flow::Next(ParsingState::Score))
                } else {
                    Err(InfoParseError::InvalidScoreSpecifier(token.to_owned()))
                }
            },
            ParsingState::ScoreCp | ParsingState::ScoreMate => {
                if let Some(bound) = bound_word(token) {
                    self.scoretype = bound;
                    return Ok(Flow::Next(ps));
                }
                match self.store_number(ps, token) {
                    Ok(()) => Ok(Flow::Next(ParsingState::Key)),
                    Err(e) => Err(e),
                }
            },
            ParsingState::Currmove => {
                self.currmove.set(token);
                Ok(Flow::Next(ParsingState::Key))
            },
            ParsingState::PvBestmove => {
                proof {
                    lemma_encode_concat(pv@, token@);
                }
                pv.append(token);
                self.bestmove = UciBuff::of(token);
                self.ponder.reset();
                Ok(Flow::Next(ParsingState::PvPonder))
            },
            ParsingState::PvPonder => {
                append_spaced(pv, token);
                self.ponder = UciBuff::of(token);
                Ok(Flow::Next(ParsingState::PvRest))
            },
            ParsingState::PvRest => {
                append_spaced(pv, token);
                Ok(Flow::Next(ParsingState::PvRest))
            },
            ParsingState::WdlW => match self.store_number(ps, token) {
                Ok(()) => Ok(Flow::Next(ParsingState::WdlD)),
                Err(e) => Err(e),
            },
            ParsingState::WdlD => match self.store_number(ps, token) {
                Ok(()) => Ok(Flow::Next(ParsingState::WdlL)),
                Err(e) => Err(e),
            },
            _ => match self.store_number(ps, token) {
                Ok(()) => Ok(Flow::Next(ParsingState::Key)),
                Err(e) => Err(e),
            },
        }
    }

    /// Decodes one line of the engine's output into the record.
    ///
    /// A line whose first token is not `info` changes nothing. Else each key
    /// of the line updates its field and the other fields stay; a line that
    /// is refused keeps what its earlier keys have set. `allow_unknown_key`
    /// says whether a key that the decoder does not know is passed over,
    /// with the token behind it, or refused.
    pub fn parse_with(&mut self, info: &str, allow_unknown_key: bool) -> (r: Result<
        (),
        InfoParseError,
    >)
        requires
            old(self).wf(),
        ensures
            final(self).wf(),
            final(self).done == old(self).done,
            decoded(old(self)@, info.spec_bytes(), allow_unknown_key, final(self)@, r),
    {
        let ghost before = self@;
        let ghost goal = parse_line(before, info.spec_bytes(), allow_unknown_key);
        let mut ps = ParsingState::Info;
        let mut pv = String::new();
        let mut line: &str = info;
        let mut more = true;
        while more
            invariant
                self.wf(),
                before == old(self)@,
                goal == parse_line(before, info.spec_bytes(), allow_unknown_key),
                self.done == before.done,
                more ==> goal == run(
                    Machine { state: ps, info: self@, pv: encode_utf8(pv@) },
                    tokens(line.spec_bytes()),
                    allow_unknown_key,
                ),
                !more ==> goal == (
                    finish(Machine { state: ps, info: self@, pv: encode_utf8(pv@) }),
                    None::<Failure>,
                ),
            decreases
                    (if more {
                        1 + line.spec_bytes().len()
                    } else {
                        0
                    }),
        {
            let ghost m = Machine { state: ps, info: self@, pv: encode_utf8(pv@) };
            let ghost s = line.spec_bytes();
            let (token, rest) = next_token(line);
            proof {
                crate::tokens::lemma_first_space(s);
                let e = crate::tokens::first_space(s);
                if e < s.len() {
                    assert(tokens(s).drop_first() =~= tokens(s.skip(e + 1)));
                } else {
                    assert(s.take(e) =~= s);
                    assert(tokens(s).drop_first() =~= Seq::<Seq<u8>>::empty());
                }
                assert(tokens(s)[0] == token.spec_bytes());
            }
            match self.step(ps, token, &mut pv, allow_unknown_key) {
                Err(e) => {
                    return Err(e);
                },
                Ok(Flow::Stop) => {
                    return Ok(());
                },
                Ok(Flow::Next(next)) => {
                    ps = next;
                },
            }
            match rest {
                Some(tail) => {
                    line = tail;
                },
                None => {
                    more = false;
                    assert(run(
                        Machine { state: ps, info: self@, pv: encode_utf8(pv@) },
                        Seq::<Seq<u8>>::empty(),
                        allow_unknown_key,
                    ) == (
                        finish(Machine { state: ps, info: self@, pv: encode_utf8(pv@) }),
                        None::<Failure>,
                    ));
                },
            }
        }
        match ps {
            ParsingState::PvBestmove | ParsingState::PvPonder | ParsingState::PvRest => {
                self.pv.set_trim(pv.as_str(), ' ');
            },
            _ => {},
        }
        Ok(())
    }

    /// Decodes one line of the engine's output into the record, as
    /// [`AnalysisInfo::parse_with`] does. Whether unknown keys are passed over
    /// is asked of the environment: they are where `ALLOW_UNKNOWN_INFO_KEY`
    /// is set to `true`.
    pub fn parse(&mut self, info: &str) -> (r: Result<(), InfoParseError>)
        requires
            old(self).wf(),
        ensures
            final(self).wf(),
            final(self).done == old(self).done,
            decoded(old(self)@, info.spec_bytes(), true, final(self)@, r) || decoded(
                old(self)@,
                info.spec_bytes(),
                false,
                final(self)@,
                r,
            ),
    {
        let allow_unknown_key = env_true("ALLOW_UNKNOWN_INFO_KEY");
        self.parse_with(info, allow_unknown_key)
    }
}

/// Whether the environment variable `key` is set to `true`, in any case of
/// letters, as `envor::envor::env_true` reports it. The answer lies with the
/// environment of the process, so nothing is claimed of it.
#[verifier::external_body]
fn env_true(key: &str) -> bool {
    envor::envor::env_true(key)
}

/// The bound that `token` names, if it names one.
fn bound_word(token: &str) -> (r: Option<ScoreType>)
    ensures
        r == bound_of(token.spec_bytes()),
{
    reveal(word);
    if is_word(token, "upperbound") {
        Some(ScoreType::Upperbound)
    } else if is_word(token, "lowerbound") {
        Some(ScoreType::Lowerbound)
    } else {
        None
    }
}

/// The state in which the value of the key `token` is read, if `token` is a key with a value.
fn find_key(token: &str) -> (r: Option<ParsingState>)
    ensures
        r == key_of(token.spec_bytes()),
{
    reveal(word);
    if is_word(token, "depth") {
        Some(ParsingState::Depth)
    } else if is_word(token, "seldepth") {
        Some(ParsingState::Seldepth)
    } else if is_word(token, "time") {
        Some(ParsingState::Time)
    } else if is_word(token, "nodes") {
        Some(ParsingState::Nodes)
    } else if is_word(token, "multipv") {
        Some(ParsingState::Multipv)
    } else if is_word(token, "score") {
        Some(ParsingState::Score)
    } else if is_word(token, "wdl") {
        Some(ParsingState::WdlW)
    } else if is_word(token, "currmove") {
        Some(ParsingState::Currmove)
    } else if is_word(token, "currmovenumber") {
        Some(ParsingState::Currmovenumber)
    } else if is_word(token, "hashfull") {
        Some(ParsingState::Hashfull)
    } else if is_word(token, "nps") {
        Some(ParsingState::Nps)
    } else if is_word(token, "tbhits") {
        Some(ParsingState::Tbhits)
    } else if is_word(token, "cpuload") {
        Some(ParsingState::Cpuload)
    } else if is_word(token, "pv") {
        Some(ParsingState::PvBestmove)
    } else {
        None
    }
}

/// Adds a space and `token` to `pv`.
fn append_spaced(pv: &mut String, token: &str)
    ensures
        encode_utf8(final(pv)@) == encode_utf8(old(pv)@) + seq![space()] + token.spec_bytes(),
{
    proof {
        reveal_strlit(" ");
        assert(" "@ =~= seq![' ']);
        lemma_space_encoding();
        lemma_encode_concat(pv@, " "@);
        lemma_encode_concat(pv@ + " "@, token@);
    }
    pv.append(" ");
    pv.append(token);
}

/// A space is encoded as one byte.
pub proof fn lemma_space_encoding()
    ensures
        encode_utf8(seq![' ']) == seq![space()],
        encode_scalar(' ' as u32) == seq![space()],
{
    let s = seq![' '];
    assert(' ' as u32 == 0x20u32);
    assert((0x20u32 & 0x7F) as u8 == 0x20u8) by (bit_vector);
    assert(encode_scalar(0x20u32) =~= seq![space()]);
    assert(s.drop_first() =~= Seq::<char>::empty());
    reveal_with_fuel(encode_utf8, 2);
    assert(encode_utf8(s) =~= seq![space()]);
}

} // verus!
