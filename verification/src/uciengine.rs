//! What a search is started with, the commands that start it, and the
//! engine's answer.
//!
//! The engine answers one `go` command with one `bestmove` line, and has no
//! way to tell two answers apart: whoever drives it sends the commands of
//! one job, waits for that line, and only then sends the next job. Nothing
//! here bounds that wait.

use crate::number::{decimal_text, render_usize};
use crate::textbuf::starts_at;
use crate::tokens::{token_at, tokens};
use vstd::prelude::*;
use vstd::string::StringExecFns;
use vstd::string::StringSliceAdditionalSpecFns;
use vstd::utf8::*;

verus! {

/// How the position to search is given.
#[derive(Debug, Clone, Copy, PartialEq, Eq, Structural)]
pub enum PosSpec {
    /// The starting position of a game.
    Startpos,
    /// A position in Forsyth-Edwards notation.
    Fen,
    /// Not at all: the engine searches the position it has.
    No,
}

/// Clock of a game: what each side has left and gains per move, in milliseconds.
#[derive(Debug, Clone, Copy, PartialEq, Eq, Structural)]
pub struct Timecontrol {
    /// White's remaining time.
    pub wtime: usize,
    /// White's gain per move.
    pub winc: usize,
    /// Black's remaining time.
    pub btime: usize,
    /// Black's gain per move.
    pub binc: usize,
}

impl Timecontrol {
    /// One minute for each side and no gain.
    pub fn default() -> (r: Timecontrol)
        ensures
            r == (Timecontrol { wtime: 60000, winc: 0, btime: 60000, binc: 0 }),
    {
        Timecontrol { wtime: 60000, winc: 0, btime: 60000, binc: 0 }
    }
}

/// Pairs of a key and a value, in the order in which the keys came.
pub type Entries = Seq<(Seq<char>, Seq<char>)>;

/// The texts of the pairs of `v`.
pub open spec fn entries_of(v: Seq<(String, String)>) -> Entries {
    v.map_values(|p: (String, String)| (p.0@, p.1@))
}

/// `key` is a key of `entries`.
pub open spec fn has_key(entries: Entries, key: Seq<char>) -> bool {
    exists|i: int| 0 <= i < entries.len() && (#[trigger] entries[i]).0 == key
}

/// Where `key` stands in `entries`.
pub open spec fn index_of_key(entries: Entries, key: Seq<char>) -> int {
    choose|i: int| 0 <= i < entries.len() && (#[trigger] entries[i]).0 == key
}

/// No key stands twice in `entries`.
pub open spec fn distinct_keys(entries: Entries) -> bool {
    forall|i: int, j: int|
        0 <= i < j < entries.len() ==> (#[trigger] entries[i]).0 != (#[trigger] entries[j]).0
}

/// `entries` with `value` for `key`: a key that is there keeps its place and
/// takes the new value, a new key goes to the end.
pub open spec fn with_entry(entries: Entries, key: Seq<char>, value: Seq<char>) -> Entries {
    if has_key(entries, key) {
        entries.update(index_of_key(entries, key), (key, value))
    } else {
        entries.push((key, value))
    }
}

/// Setting a key keeps the order in which the keys came: every key stays
/// where it is, every other key keeps its value, no key comes to stand
/// twice, and the key that was set has the new value. Only a new key makes
/// the pairs more, by one, at the end.
pub proof fn lemma_with_entry(entries: Entries, key: Seq<char>, value: Seq<char>)
    requires
        distinct_keys(entries),
    ensures
        distinct_keys(with_entry(entries, key, value)),
        with_entry(entries, key, value).len() == entries.len() + (if has_key(entries, key) {
            0int
        } else {
            1int
        }),
        forall|i: int|
            0 <= i < entries.len() ==> (#[trigger] with_entry(entries, key, value)[i]).0
                == entries[i].0,
        forall|i: int|
            0 <= i < entries.len() && entries[i].0 != key ==> #[trigger] with_entry(
                entries,
                key,
                value,
            )[i] == entries[i],
        has_key(with_entry(entries, key, value), key),
        with_entry(entries, key, value)[index_of_key(with_entry(entries, key, value), key)]
            == (key, value),
{
    let after = with_entry(entries, key, value);
    let at = if has_key(entries, key) {
        index_of_key(entries, key)
    } else {
        entries.len() as int
    };
    assert(after[at] == (key, value));
    assert forall|a: int, b: int| 0 <= a < b < after.len() implies (#[trigger] after[a]).0 != (
    #[trigger] after[b]).0 by {
        if a < entries.len() {
            assert(after[a].0 == entries[a].0);
        }
        if b < entries.len() {
            assert(after[b].0 == entries[b].0);
        }
    }
    let found = index_of_key(after, key);
    if found != at {
        if found < at {
            assert(after[found].0 != after[at].0);
        } else {
            assert(after[at].0 != after[found].0);
        }
    }
}

/// What a [`GoJob`] holds.
pub struct JobView {
    /// Options to set before the search, in order.
    pub uci_options: Entries,
    /// How the position is given.
    pub pos_spec: PosSpec,
    /// The position, where it is given in Forsyth-Edwards notation.
    pub pos_fen: Option<Seq<char>>,
    /// Moves played from the position.
    pub pos_moves: Option<Seq<char>>,
    /// Arguments of the `go` command, in order.
    pub go_options: Entries,
}

/// The job that nothing was asked of yet.
pub open spec fn empty_job() -> JobView {
    JobView {
        uci_options: Seq::empty(),
        pos_spec: PosSpec::No,
        pos_fen: None,
        pos_moves: None,
        go_options: Seq::empty(),
    }
}

/// The four arguments of `go` that a clock becomes.
pub open spec fn with_clock(go_options: Entries, tc: Timecontrol) -> Entries {
    with_entry(
        with_entry(
            with_entry(
                with_entry(go_options, "wtime"@, decimal_text(tc.wtime as nat)),
                "winc"@,
                decimal_text(tc.winc as nat),
            ),
            "btime"@,
            decimal_text(tc.btime as nat),
        ),
        "binc"@,
        decimal_text(tc.binc as nat),
    )
}

/// The command that sets one option.
pub open spec fn setoption_text(key: Seq<char>, value: Seq<char>) -> Seq<char> {
    "setoption name "@ + key + " value "@ + value
}

/// The commands that set `options`, in their order.
pub open spec fn setoption_texts(options: Entries) -> Seq<Seq<char>> {
    options.map_values(|p: (Seq<char>, Seq<char>)| setoption_text(p.0, p.1))
}

/// What follows the position in a `position` command: the moves played from it, if any.
pub open spec fn moves_suffix(moves: Option<Seq<char>>) -> Seq<char> {
    match moves {
        Some(m) => " moves "@ + m,
        None => Seq::empty(),
    }
}

/// The command that sets up the position of `job`, if it gives one.
pub open spec fn position_text(job: JobView) -> Option<Seq<char>> {
    match job.pos_spec {
        PosSpec::Startpos => Some("position startpos"@ + moves_suffix(job.pos_moves)),
        PosSpec::Fen => match job.pos_fen {
            Some(fen) => Some("position fen "@ + fen + moves_suffix(job.pos_moves)),
            None => None,
        },
        PosSpec::No => None,
    }
}

/// The arguments `options` as they stand in a `go` command: a space before
/// each key and each value.
pub open spec fn go_arguments(options: Entries) -> Seq<char>
    decreases options.len(),
{
    if options.len() == 0 {
        Seq::empty()
    } else {
        go_arguments(options.drop_last()) + " "@ + options.last().0 + " "@ + options.last().1
    }
}

/// The command that starts the search.
pub open spec fn go_text(options: Entries) -> Seq<char> {
    "go"@ + go_arguments(options)
}

/// The commands of `job`, in the order in which the engine must get them:
/// every option, then the position, then `go`.
pub open spec fn commands_of(job: JobView) -> Seq<Seq<char>> {
    setoption_texts(job.uci_options) + (match position_text(job) {
        Some(c) => seq![c],
        None => Seq::empty(),
    }) + seq![go_text(job.go_options)]
}

/// The commands of a job come in this order: one `setoption` for every
/// option, in the order of the options; then the `position` command, where
/// the job gives a position; and last the `go` command.
pub proof fn lemma_command_order(job: JobView)
    ensures
        commands_of(job).len() == job.uci_options.len() + (if position_text(job) is Some {
            1int
        } else {
            0int
        }) + 1,
        forall|i: int|
            0 <= i < job.uci_options.len() ==> #[trigger] commands_of(job)[i] == setoption_text(
                job.uci_options[i].0,
                job.uci_options[i].1,
            ),
        position_text(job) is Some ==> commands_of(job)[job.uci_options.len() as int]
            == position_text(job)->0,
        commands_of(job).last() == go_text(job.go_options),
{
}

/// The texts of `v`.
pub open spec fn texts_of(v: Seq<String>) -> Seq<Seq<char>> {
    v.map_values(|s: String| s@)
}

/// What a search is started with: options of the engine, a position, and
/// arguments of the `go` command.
#[derive(Debug)]
pub struct GoJob {
    /// Options to set before the search, in the order in which they came.
    uci_options: Vec<(String, String)>,
    /// How the position is given.
    pos_spec: PosSpec,
    /// The position in Forsyth-Edwards notation.
    pos_fen: Option<String>,
    /// Moves played from the position.
    pos_moves: Option<String>,
    /// Arguments of the `go` command, in the order in which they came.
    go_options: Vec<(String, String)>,
}

impl View for GoJob {
    type V = JobView;

    closed spec fn view(&self) -> JobView {
        JobView {
            uci_options: entries_of(self.uci_options@),
            pos_spec: self.pos_spec,
            pos_fen: match self.pos_fen {
                Some(s) => Some(s@),
                None => None,
            },
            pos_moves: match self.pos_moves {
                Some(s) => Some(s@),
                None => None,
            },
            go_options: entries_of(self.go_options@),
        }
    }
}

impl JobView {
    /// No key stands twice, and a position in Forsyth-Edwards notation is there where one is named.
    pub open spec fn wf(self) -> bool {
        &&& distinct_keys(self.uci_options)
        &&& distinct_keys(self.go_options)
        &&& self.pos_spec == PosSpec::Fen ==> self.pos_fen is Some
    }
}

/// Stores `value` for `key` in `entries`: in the place of `key` where it is
/// there, else at the end.
fn put(entries: &mut Vec<(String, String)>, key: String, value: String)
    requires
        distinct_keys(entries_of(old(entries)@)),
    ensures
        entries_of(final(entries)@) == with_entry(entries_of(old(entries)@), key@, value@),
        distinct_keys(entries_of(final(entries)@)),
{
    let ghost before = entries_of(entries@);
    let mut i: usize = 0;
    while i < entries.len()
        invariant
            i <= entries@.len(),
            entries@ == old(entries)@,
            before == entries_of(entries@),
            distinct_keys(before),
            forall|j: int| 0 <= j < i ==> (#[trigger] before[j]).0 != key@,
        decreases entries@.len() - i,
    {
        if entries[i].0 == key {
            assert(before[i as int].0 == key@);
            assert(has_key(before, key@));
            assert(index_of_key(before, key@) == i);
            entries[i] = (key, value);
            assert(entries_of(entries@) =~= with_entry(before, key@, value@));
            assert(distinct_keys(entries_of(entries@))) by {
                let after = entries_of(entries@);
                assert forall|a: int, b: int| 0 <= a < b < after.len() implies (
                #[trigger] after[a]).0 != (#[trigger] after[b]).0 by {
                    assert(after[a].0 == before[a].0);
                    assert(after[b].0 == before[b].0);
                }
            }
            return ;
        }
        assert(before[i as int].0 != key@);
        i += 1;
    }
    assert(!has_key(before, key@));
    entries.push((key, value));
    assert(entries_of(entries@) =~= with_entry(before, key@, value@));
    assert(distinct_keys(entries_of(entries@))) by {
        let after = entries_of(entries@);
        assert forall|a: int, b: int| 0 <= a < b < after.len() implies (#[trigger] after[a]).0 != (
        #[trigger] after[b]).0 by {
            assert(after[a] == before[a]);
            if b < before.len() {
                assert(after[b] == before[b]);
            }
        }
    }
}

impl GoJob {
    #[verifier::type_invariant]
    spec fn inv(&self) -> bool {
        self@.wf()
    }

    /// A job without options, position or arguments.
    pub fn new() -> (r: GoJob)
        ensures
            r@ == empty_job(),
            r@.wf(),
    {
        let r = GoJob {
            pos_spec: PosSpec::No,
            pos_fen: None,
            pos_moves: None,
            uci_options: Vec::new(),
            go_options: Vec::new(),
        };
        assert(r@.uci_options =~= Seq::empty());
        assert(r@.go_options =~= Seq::empty());
        r
    }

    /// The job with the position `fen`, in Forsyth-Edwards notation.
    pub fn pos_fen(self, fen: &str) -> (r: GoJob)
        ensures
            r@ == (JobView { pos_spec: PosSpec::Fen, pos_fen: Some(fen@), ..self@ }),
            r@.wf(),
    {
        proof {
            use_type_invariant(&self);
        }
        GoJob {
            uci_options: self.uci_options,
            pos_spec: PosSpec::Fen,
            pos_fen: Some(fen.to_owned()),
            pos_moves: self.pos_moves,
            go_options: self.go_options,
        }
    }

    /// The job with the starting position of a game.
    pub fn pos_startpos(self) -> (r: GoJob)
        ensures
            r@ == (JobView { pos_spec: PosSpec::Startpos, ..self@ }),
            r@.wf(),
    {
        proof {
            use_type_invariant(&self);
        }
        GoJob {
            uci_options: self.uci_options,
            pos_spec: PosSpec::Startpos,
            pos_fen: self.pos_fen,
            pos_moves: self.pos_moves,
            go_options: self.go_options,
        }
    }

    /// The job with `moves` played from its position.
    pub fn pos_moves(self, moves: &str) -> (r: GoJob)
        ensures
            r@ == (JobView { pos_moves: Some(moves@), ..self@ }),
            r@.wf(),
    {
        proof {
            use_type_invariant(&self);
        }
        GoJob {
            uci_options: self.uci_options,
            pos_spec: self.pos_spec,
            pos_fen: self.pos_fen,
            pos_moves: Some(moves.to_owned()),
            go_options: self.go_options,
        }
    }

    /// The job with the option `key` of the engine set to `value`.
    pub fn uci_opt(self, key: &str, value: &str) -> (r: GoJob)
        ensures
            r@ == (JobView { uci_options: with_entry(self@.uci_options, key@, value@), ..self@ }),
            r@.wf(),
    {
        proof {
            use_type_invariant(&self);
        }
        let mut uci_options = self.uci_options;
        put(&mut uci_options, key.to_owned(), value.to_owned());
        GoJob {
            uci_options,
            pos_spec: self.pos_spec,
            pos_fen: self.pos_fen,
            pos_moves: self.pos_moves,
            go_options: self.go_options,
        }
    }

    /// The job with the argument `key` of the `go` command set to `value`.
    pub fn go_opt(self, key: String, value: String) -> (r: GoJob)
        ensures
            r@ == (JobView { go_options: with_entry(self@.go_options, key@, value@), ..self@ }),
            r@.wf(),
    {
        proof {
            use_type_invariant(&self);
        }
        let mut go_options = self.go_options;
        put(&mut go_options, key, value);
        GoJob {
            uci_options: self.uci_options,
            pos_spec: self.pos_spec,
            pos_fen: self.pos_fen,
            pos_moves: self.pos_moves,
            go_options,
        }
    }

    /// The job with the clock `tc` among the arguments of the `go` command.
    pub fn tc(self, tc: Timecontrol) -> (r: GoJob)
        ensures
            r@ == (JobView { go_options: with_clock(self@.go_options, tc), ..self@ }),
            r@.wf(),
    {
        proof {
            use_type_invariant(&self);
        }
        let mut go_options = self.go_options;
        put(&mut go_options, "wtime".to_owned(), render_usize(tc.wtime));
        put(&mut go_options, "winc".to_owned(), render_usize(tc.winc));
        put(&mut go_options, "btime".to_owned(), render_usize(tc.btime));
        put(&mut go_options, "binc".to_owned(), render_usize(tc.binc));
        GoJob {
            uci_options: self.uci_options,
            pos_spec: self.pos_spec,
            pos_fen: self.pos_fen,
            pos_moves: self.pos_moves,
            go_options,
        }
    }

    /// The commands of the job, in the order in which the engine must get
    /// them: one `setoption` for every option, then the `position` command
    /// where a position is given, then the `go` command with its arguments.
    pub fn commands(&self) -> (r: Vec<String>)
        ensures
            texts_of(r@) == commands_of(self@),
    {
        proof {
            use_type_invariant(self);
        }
        let mut out: Vec<String> = Vec::new();
        let ghost options = entries_of(self.uci_options@);
        let mut i: usize = 0;
        while i < self.uci_options.len()
            invariant
                i <= self.uci_options@.len(),
                options == entries_of(self.uci_options@),
                texts_of(out@) =~= setoption_texts(options.take(i as int)),
            decreases self.uci_options@.len() - i,
        {
            let pair = &self.uci_options[i];
            let mut c = "setoption name ".to_owned();
            c.append(pair.0.as_str());
            c.append(" value ");
            c.append(pair.1.as_str());
            assert(c@ == setoption_text(options[i as int].0, options[i as int].1));
            let ghost prev = out@;
            out.push(c);
            proof {
                assert(texts_of(out@) =~= texts_of(prev).push(c@));
                assert(setoption_texts(options.take(i + 1)) =~= setoption_texts(
                    options.take(i as int),
                ).push(c@));
            }
            i += 1;
        }
        assert(options.take(options.len() as int) =~= options);
        match self.position_command() {
            Some(c) => {
                out.push(c);
            },
            None => {},
        }
        out.push(self.go_command());
        assert(texts_of(out@) =~= commands_of(self@));
        out
    }

    /// The command that sets up the position, where the job gives one.
    pub fn position_command(&self) -> (r: Option<String>)
        ensures
            r is Some <==> position_text(self@) is Some,
            r matches Some(c) ==> position_text(self@) == Some(c@),
    {
        proof {
            use_type_invariant(self);
        }
        let mut suffix = String::new();
        if let Some(moves) = &self.pos_moves {
            suffix.append(" moves ");
            suffix.append(moves.as_str());
        }
        assert(suffix@ =~= moves_suffix(self@.pos_moves));
        match self.pos_spec {
            PosSpec::Startpos => {
                let mut c = "position startpos".to_owned();
                c.append(suffix.as_str());
                Some(c)
            },
            PosSpec::Fen => match &self.pos_fen {
                Some(fen) => {
                    let mut c = "position fen ".to_owned();
                    c.append(fen.as_str());
                    c.append(suffix.as_str());
                    Some(c)
                },
                None => None,
            },
            PosSpec::No => None,
        }
    }

    /// The command that starts the search, with the job's arguments in their order.
    pub fn go_command(&self) -> (r: String)
        ensures
            r@ == go_text(self@.go_options),
    {
        let ghost options = entries_of(self.go_options@);
        let mut c = "go".to_owned();
        let mut i: usize = 0;
        assert(go_arguments(options.take(0)) =~= Seq::<char>::empty());
        while i < self.go_options.len()
            invariant
                i <= self.go_options@.len(),
                options == entries_of(self.go_options@),
                c@ =~= "go"@ + go_arguments(options.take(i as int)),
            decreases self.go_options@.len() - i,
        {
            let pair = &self.go_options[i];
            proof {
                let next = options.take(i + 1);
                assert(next.drop_last() =~= options.take(i as int));
                assert(next.last() == options[i as int]);
            }
            c.append(" ");
            c.append(pair.0.as_str());
            c.append(" ");
            c.append(pair.1.as_str());
            i += 1;
        }
        assert(options.take(options.len() as int) =~= options);
        c
    }
}

/// The engine's answer to a search.
#[derive(Debug)]
pub struct GoResult {
    /// The move that the engine plays, if it named one.
    pub bestmove: Option<String>,
    /// The move that it expects in reply, if it named one.
    pub ponder: Option<String>,
}

/// The bytes of an optional string.
pub open spec fn opt_bytes(s: Option<String>) -> Option<Seq<u8>> {
    match s {
        Some(t) => Some(encode_utf8(t@)),
        None => None,
    }
}

/// The token of `line` at position `k`, where the line has so many.
pub open spec fn token_of(line: Seq<u8>, k: int) -> Option<Seq<u8>> {
    if 0 <= k < tokens(line).len() {
        Some(tokens(line)[k])
    } else {
        None
    }
}

/// `line` begins with the word `bestmove`.
pub open spec fn begins_with_bestmove(line: Seq<u8>) -> bool {
    "bestmove".spec_bytes().is_prefix_of(line)
}

/// Whether `line` is the engine's answer to a search: whether it begins with `bestmove`.
pub fn is_bestmove_line(line: &str) -> (r: bool)
    ensures
        r == begins_with_bestmove(line.spec_bytes()),
{
    let word = "bestmove".as_bytes();
    let r = starts_at(line.as_bytes(), 0, word);
    proof {
        let l = line.spec_bytes();
        let w = "bestmove".spec_bytes();
        if w.len() <= l.len() {
            assert(l.subrange(0, w.len() as int) =~= l.take(w.len() as int));
            if r {
                assert(w =~= l.subrange(0, w.len() as int));
            }
            if w.is_prefix_of(l) {
                assert(l.subrange(0, w.len() as int) =~= w);
            }
        }
    }
    r
}

impl GoResult {
    /// What the answer `line` names: its second token is the best move, its
    /// fourth the ponder move, as in `bestmove e2e4 ponder e7e5`.
    pub fn from_line(line: &str) -> (r: GoResult)
        ensures
            opt_bytes(r.bestmove) == token_of(line.spec_bytes(), 1),
            opt_bytes(r.ponder) == token_of(line.spec_bytes(), 3),
    {
        let bestmove = match token_at(line, 1) {
            Some(t) => Some(t.to_owned()),
            None => None,
        };
        let ponder = match token_at(line, 3) {
            Some(t) => Some(t.to_owned()),
            None => None,
        };
        GoResult { bestmove, ponder }
    }

    /// What the engine's answer names, where `reply` is the line that came;
    /// neither move where none came because the engine's output has ended.
    pub fn from_reply(reply: Option<String>) -> (r: GoResult)
        ensures
            match reply {
                Some(line) => opt_bytes(r.bestmove) == token_of(encode_utf8(line@), 1) && opt_bytes(
                    r.ponder,
                ) == token_of(encode_utf8(line@), 3),
                None => r.bestmove is None && r.ponder is None,
            },
    {
        match reply {
            Some(line) => GoResult::from_line(line.as_str()),
            None => GoResult { bestmove: None, ponder: None },
        }
    }
}

} // verus!
