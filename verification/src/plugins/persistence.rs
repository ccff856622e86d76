//! Sessions as append-only logs, one record to a line.
use crate::bytes;
use crate::digest;
use crate::ids;
use crate::ids::{fresh, PluginId, SessionId};
use crate::json;
use crate::json::{Json, ObjectBuilder};
use crate::lists;
use crate::model;
use crate::model::Error;
use crate::paths;
use crate::text;
use crate::utils::timeseq::TimeSeq;
use vstd::prelude::*;
use vstd::slice::slice_subrange;
use vstd::string::StrSliceExecFns;

verus! {

pub const SESSION_LOG_SCHEMA_VERSION: u32 = 1;

/// What was done to a session at once.
#[derive(Debug)]
pub struct SessionCommit {
    pub sequence: u64,
    pub commit_id: u128,
    pub created_at: TimeSeq,
    pub mutations: Vec<Json>,
}

/// A commit as it stands in a log.
#[derive(Debug)]
pub struct SessionLogRecord {
    pub schema_version: u32,
    pub sequence: u64,
    pub commit_id: u128,
    pub created_at: TimeSeq,
    pub mutations: Vec<Json>,
}

impl SessionLogRecord {
    /// The record of a commit.
    pub fn of(commit: &SessionCommit) -> (r: Self)
        ensures
            r.schema_version == SESSION_LOG_SCHEMA_VERSION,
            r.sequence == commit.sequence,
            r.commit_id == commit.commit_id,
            r.created_at == commit.created_at,
            json::json_views(r.mutations@) == json::json_views(commit.mutations@),
    {
        let mut mutations: Vec<Json> = Vec::new();
        let mut i: usize = 0;
        while i < commit.mutations.len()
            invariant
                i <= commit.mutations@.len(),
                json::json_views(mutations@) =~= json::json_views(commit.mutations@).take(i as int),
            decreases commit.mutations@.len() - i,
        {
            let ghost before = json::json_views(mutations@);
            let mutation = commit.mutations[i].clone();
            let ghost view = mutation@;
            mutations.push(mutation);
            proof {
                assert(json::json_views(mutations@) =~= before.push(view));
            }
            i += 1;
        }
        SessionLogRecord {
            schema_version: SESSION_LOG_SCHEMA_VERSION,
            sequence: commit.sequence,
            commit_id: commit.commit_id,
            created_at: commit.created_at,
            mutations,
        }
    }
}

/// The commit of a record, or what is wrong with it.
pub open spec fn commit_of(record: SessionLogRecord) -> core::result::Result<
    SessionCommit,
    Seq<char>,
> {
    if record.schema_version != SESSION_LOG_SCHEMA_VERSION {
        Err("unsupported session log schema version "@ + text::decimal(record.schema_version as nat))
    } else {
        Ok(
            SessionCommit {
                sequence: record.sequence,
                commit_id: record.commit_id,
                created_at: record.created_at,
                mutations: record.mutations,
            },
        )
    }
}

impl SessionCommit {
    /// Reads a record.
    pub fn from_record(record: SessionLogRecord) -> (r: model::Result<SessionCommit>)
        ensures
            match commit_of(record) {
                Ok(c) => r == Ok::<SessionCommit, Error>(c),
                Err(m) => r is Err && r->Err_0@ == model::ErrorView::Persistence(m),
            },
    {
        if record.schema_version != SESSION_LOG_SCHEMA_VERSION {
            let version = text::decimal_text(record.schema_version as u128);
            return Err(
                Error::Persistence(
                    text::cat2("unsupported session log schema version ", version.as_str()),
                ),
            );
        }
        Ok(
            SessionCommit {
                sequence: record.sequence,
                commit_id: record.commit_id,
                created_at: record.created_at,
                mutations: record.mutations,
            },
        )
    }
}

// ---------------------------------------------------------------------------
// Lines
// ---------------------------------------------------------------------------

/// Lists of bytes in mathematical terms.
pub open spec fn byte_views(list: Seq<Vec<u8>>) -> Seq<Seq<u8>> {
    Seq::new(list.len(), |i: int| list[i]@)
}

/// Lines without their line feeds.
pub open spec fn bare(lines: Seq<Seq<u8>>) -> Seq<Seq<u8>> {
    Seq::new(lines.len(), |i: int| lines[i].drop_last())
}

/// The records of a log: its lines, and what stands behind the last line feed.
pub open spec fn log_lines(b: Seq<u8>) -> Seq<Seq<u8>> {
    bare(bytes::complete_lines(b)) + (if bytes::unfinished(b).len() == 0 {
        Seq::empty()
    } else {
        seq![bytes::unfinished(b)]
    })
}

/// Whether a log ends with a line feed, or is empty.
pub open spec fn is_finished(b: Seq<u8>) -> bool {
    bytes::unfinished(b).len() == 0
}

/// Where what is unfinished in a log begins.
pub open spec fn tail_of(b: Seq<u8>) -> int {
    b.len() - bytes::unfinished(b).len()
}

/// The records of a log.
pub struct LogLines {
    pub lines: Vec<Vec<u8>>,
    /// Whether the last one ended with a line feed.
    pub finished: bool,
    /// Where what is unfinished begins.
    pub tail: usize,
}

proof fn lemma_unfinished(b: Seq<u8>)
    ensures
        bytes::unfinished(b).len() <= b.len(),
        bytes::unfinished(b) == b.skip(tail_of(b)),
        bytes::complete_lines(b).len() == 0 <==> tail_of(b) == 0,
        bytes::byte_index(bytes::unfinished(b), 10) >= bytes::unfinished(b).len(),
    decreases b.len(),
{
    bytes::lemma_byte_index(b, 10);
    let i = bytes::byte_index(b, 10);
    if i < b.len() {
        lemma_unfinished(b.skip(i + 1));
        assert(bytes::unfinished(b) =~= b.skip(tail_of(b)));
    } else {
        assert(b.skip(0) =~= b);
    }
}

/// Splits a log into its records.
pub fn split_log(b: &[u8]) -> (r: LogLines)
    ensures
        byte_views(r.lines@) == log_lines(b@),
        r.finished == is_finished(b@),
        r.tail == tail_of(b@),
        b@.skip(r.tail as int) == bytes::unfinished(b@),
{
    let mut lines: Vec<Vec<u8>> = Vec::new();
    let mut from: usize = 0;
    let ghost mut done: Seq<Seq<u8>> = Seq::empty();
    proof {
        assert(b@.skip(0) =~= b@);
        assert(done + bytes::complete_lines(b@) =~= bytes::complete_lines(b@));
    }
    loop
        invariant
            from <= b@.len(),
            bytes::complete_lines(b@) == done + bytes::complete_lines(b@.skip(from as int)),
            bytes::unfinished(b@) == bytes::unfinished(b@.skip(from as int)),
            byte_views(lines@) =~= bare(done),
        ensures
            from <= b@.len(),
            bytes::complete_lines(b@) == done,
            bytes::unfinished(b@) == b@.skip(from as int),
            byte_views(lines@) =~= bare(done),
        decreases b@.len() - from,
    {
        let ghost rest = b@.skip(from as int);
        let end: usize = bytes::find_byte(b, 10, from);
        proof {
            bytes::lemma_byte_index(rest, 10);
        }
        if end == b.len() {
            proof {
                assert(done + Seq::<Seq<u8>>::empty() =~= done);
            }
            break;
        }
        let ghost before = byte_views(lines@);
        let piece = bytes::copy_bytes(slice_subrange(b, from, end));
        let ghost view = piece@;
        lines.push(piece);
        proof {
            assert(byte_views(lines@) =~= before.push(view));
            let i = bytes::byte_index(rest, 10);
            let line = rest.take(i + 1);
            assert(line.drop_last() =~= b@.subrange(from as int, end as int));
            assert(rest.skip(i + 1) =~= b@.skip(end + 1));
            assert(done + (seq![line] + bytes::complete_lines(rest.skip(i + 1))) =~= done.push(line)
                + bytes::complete_lines(rest.skip(i + 1)));
            assert(bare(done.push(line)) =~= bare(done).push(line.drop_last()));
            done = done.push(line);
        }
        from = end + 1;
    }
    let finished = from == b.len();
    if !finished {
        lines.push(bytes::copy_bytes(slice_subrange(b, from, b.len())));
    }
    proof {
        assert(b@.subrange(from as int, b@.len() as int) =~= b@.skip(from as int));
        assert(byte_views(lines@) =~= log_lines(b@));
    }
    LogLines { lines, finished, tail: from }
}

// ---------------------------------------------------------------------------
// Reading
// ---------------------------------------------------------------------------

/// What the records from the one at `i` on are, or what is wrong with them. A last
/// record that was not finished and cannot be read is left out: a process can end
/// between a record and its line feed.
pub open spec fn collected(
    lines: Seq<Seq<u8>>,
    finished: bool,
    parsed: Seq<core::result::Result<SessionLogRecord, String>>,
    i: int,
) -> core::result::Result<Seq<SessionCommit>, Seq<char>>
    decreases lines.len() - i,
{
    if i < 0 || i >= lines.len() {
        Ok(Seq::empty())
    } else if lines[i].len() == 0 {
        Err("empty record at line "@ + text::decimal((i + 1) as nat))
    } else {
        match parsed[i] {
            Err(e) => if !finished && i + 1 == lines.len() {
                Ok(Seq::empty())
            } else {
                Err("corrupt session log line "@ + text::decimal((i + 1) as nat) + ": "@ + e@)
            },
            Ok(record) => match commit_of(record) {
                Err(m) => Err(m),
                Ok(commit) => match collected(lines, finished, parsed, i + 1) {
                    Err(m) => Err(m),
                    Ok(rest) => Ok(seq![commit] + rest),
                },
            },
        }
    }
}

/// The first commit whose number is not its place.
pub open spec fn first_gap(commits: Seq<SessionCommit>) -> Option<int>
    decreases commits.len(),
{
    if commits.len() == 0 {
        None
    } else {
        match first_gap(commits.drop_last()) {
            Some(i) => Some(i),
            None => if commits.last().sequence != commits.len() {
                Some(commits.len() - 1)
            } else {
                None
            },
        }
    }
}

/// What a log holds, or what is wrong with it.
pub open spec fn loaded(
    lines: Seq<Seq<u8>>,
    finished: bool,
    parsed: Seq<core::result::Result<SessionLogRecord, String>>,
) -> core::result::Result<Seq<SessionCommit>, Seq<char>> {
    match collected(lines, finished, parsed, 0) {
        Err(m) => Err(m),
        Ok(commits) => match first_gap(commits) {
            Some(i) => Err(
                "session log sequence mismatch: expected "@ + text::decimal((i + 1) as nat)
                    + ", got "@ + text::decimal(commits[i].sequence as nat),
            ),
            None => Ok(commits),
        },
    }
}

proof fn lemma_gap_stays(commits: Seq<SessionCommit>, n: int)
    requires
        0 <= n <= commits.len(),
        first_gap(commits.take(n)) is Some,
    ensures
        first_gap(commits) == first_gap(commits.take(n)),
        0 <= first_gap(commits)->0 < commits.len(),
    decreases commits.len(),
{
    if n < commits.len() {
        assert(commits.drop_last().take(n) =~= commits.take(n));
        lemma_gap_stays(commits.drop_last(), n);
    } else {
        assert(commits.take(n) =~= commits);
        if first_gap(commits.drop_last()) is Some {
            assert(commits.drop_last().take(n - 1) =~= commits.drop_last());
            lemma_gap_stays(commits.drop_last(), n - 1);
        }
    }
}

fn check_sequence(commits: &[SessionCommit]) -> (r: model::Result<()>)
    ensures
        match first_gap(commits@) {
            None => r is Ok,
            Some(i) => r is Err && r->Err_0@ == model::ErrorView::Persistence(
                "session log sequence mismatch: expected "@ + text::decimal((i + 1) as nat)
                    + ", got "@ + text::decimal(commits@[i].sequence as nat),
            ),
        },
{
    let mut i: usize = 0;
    proof {
        assert(commits@.take(0) =~= Seq::empty());
    }
    while i < commits.len()
        invariant
            i <= commits@.len(),
            first_gap(commits@.take(i as int)) is None,
        decreases commits@.len() - i,
    {
        proof {
            assert(commits@.take(i + 1).drop_last() =~= commits@.take(i as int));
            assert(commits@.take(i + 1).last() == commits@[i as int]);
        }
        let sequence: u64 = commits[i].sequence;
        if sequence as u128 != i as u128 + 1 {
            proof {
                lemma_gap_stays(commits@, i + 1);
            }
            let expected = text::successor_text(i);
            let got = text::decimal_text(sequence as u128);
            let m = text::cat4(
                "session log sequence mismatch: expected ",
                expected.as_str(),
                ", got ",
                got.as_str(),
            );
            return Err(Error::Persistence(m));
        }
        i += 1;
    }
    proof {
        assert(commits@.take(i as int) =~= commits@);
    }
    Ok(())
}

/// Reads the records of a log: `parsed` is what each of them says.
pub fn load(
    log: &LogLines,
    parsed: Vec<core::result::Result<SessionLogRecord, String>>,
) -> (r: model::Result<Vec<SessionCommit>>)
    requires
        parsed@.len() == log.lines@.len(),
    ensures
        match loaded(byte_views(log.lines@), log.finished, parsed@) {
            Ok(commits) => r is Ok && r->Ok_0@ == commits,
            Err(m) => r is Err && r->Err_0@ == model::ErrorView::Persistence(m),
        },
{
    let ghost all = parsed@;
    let ghost lines = byte_views(log.lines@);
    let mut rest = lists::reversed(parsed);
    let mut commits: Vec<SessionCommit> = Vec::new();
    let mut i: usize = 0;
    proof {
        assert(rest@ =~= all.skip(0).reverse());
        if let Ok(more) = collected(lines, log.finished, all, 0) {
            assert(commits@ + more =~= more);
        }
    }
    while i < log.lines.len()
        invariant
            i <= log.lines@.len(),
            all == parsed@,
            all.len() == log.lines@.len(),
            lines == byte_views(log.lines@),
            rest@ == all.skip(i as int).reverse(),
            match collected(lines, log.finished, all, i as int) {
                Ok(more) => collected(lines, log.finished, all, 0)
                    == Ok::<Seq<SessionCommit>, Seq<char>>(commits@ + more),
                Err(m) => collected(lines, log.finished, all, 0)
                    == Err::<Seq<SessionCommit>, Seq<char>>(m),
            },
        decreases log.lines@.len() - i,
    {
        let ghost before = commits@;
        if log.lines[i].len() == 0 {
            let place = text::successor_text(i);
            return Err(Error::Persistence(text::cat2("empty record at line ", place.as_str())));
        }
        let next = rest.pop();
        proof {
            assert(next == Some(all[i as int]));
            assert(rest@ =~= all.skip(i + 1).reverse());
        }
        match next {
            Some(Ok(record)) => {
                match SessionCommit::from_record(record) {
                    Err(e) => {
                        return Err(e);
                    },
                    Ok(commit) => {
                        commits.push(commit);
                        proof {
                            if let Ok(more) = collected(lines, log.finished, all, i + 1) {
                                assert(before + (seq![commit] + more) =~= commits@ + more);
                            }
                        }
                    },
                }
            },
            Some(Err(e)) => {
                if !log.finished && i + 1 == log.lines.len() {
                    proof {
                        assert(commits@ + Seq::<SessionCommit>::empty() =~= commits@);
                    }
                    return match check_sequence(commits.as_slice()) {
                        Ok(_) => Ok(commits),
                        Err(e) => Err(e),
                    };
                }
                let place = text::successor_text(i);
                let m = text::cat4(
                    "corrupt session log line ",
                    place.as_str(),
                    ": ",
                    e.as_str(),
                );
                return Err(Error::Persistence(m));
            },
            None => {},
        }
        i += 1;
    }
    proof {
        assert(commits@ + Seq::<SessionCommit>::empty() =~= commits@);
    }
    match check_sequence(commits.as_slice()) {
        Ok(_) => Ok(commits),
        Err(e) => Err(e),
    }
}

// ---------------------------------------------------------------------------
// Writing
// ---------------------------------------------------------------------------

/// Whether a commit can be appended to a log that holds so many.
pub fn check_append(existing: usize, commit: &SessionCommit) -> (r: model::Result<()>)
    ensures
        if commit.sequence == existing + 1 {
            r is Ok
        } else {
            r is Err && r->Err_0@ == model::ErrorView::Persistence(
                "cannot append sequence "@ + text::decimal(commit.sequence as nat) + ", expected "@
                    + text::decimal((existing + 1) as nat),
            )
        },
{
    let expected: u128 = existing as u128 + 1;
    if commit.sequence as u128 == expected {
        return Ok(());
    }
    let got = text::decimal_text(commit.sequence as u128);
    let wanted = text::decimal_text(expected);
    let m = text::cat4("cannot append sequence ", got.as_str(), ", expected ", wanted.as_str());
    Err(Error::Persistence(m))
}

/// The line of a record that is spelled so.
pub fn log_line(record: Vec<u8>) -> (r: Vec<u8>)
    ensures
        r@ == record@.push(10),
{
    let mut line = record;
    line.push(10);
    line
}

/// What has to be done to a log before a line can be appended.
#[derive(Clone, Copy, Debug, PartialEq, Eq, Structural)]
pub enum TailFix {
    Nothing,
    Truncate(usize),
    AppendNewline,
}

/// What has to be done to a log; `parses` tells whether what is unfinished in it is
/// a record.
pub open spec fn tail_fix(b: Seq<u8>, parses: bool) -> TailFix {
    if b.len() > 0 && is_finished(b) {
        TailFix::Nothing
    } else if bytes::complete_lines(b).len() == 0 {
        TailFix::Truncate(0)
    } else if parses {
        TailFix::AppendNewline
    } else {
        TailFix::Truncate(tail_of(b) as usize)
    }
}

/// A log after it was mended.
pub open spec fn mended(b: Seq<u8>, fix: TailFix) -> Seq<u8> {
    match fix {
        TailFix::Nothing => b,
        TailFix::Truncate(n) => b.take(n as int),
        TailFix::AppendNewline => b.push(10),
    }
}

/// Decides what has to be done to a log before a line can be appended.
pub fn recover_partial_tail(b: &[u8], parses: bool) -> (r: TailFix)
    ensures
        r == tail_fix(b@, parses),
{
    let log = split_log(b);
    proof {
        lemma_unfinished(b@);
    }
    if b.len() > 0 && log.finished {
        TailFix::Nothing
    } else if log.tail == 0 {
        TailFix::Truncate(0)
    } else if parses {
        TailFix::AppendNewline
    } else {
        TailFix::Truncate(log.tail)
    }
}

proof fn lemma_take_tail(b: Seq<u8>)
    ensures
        bytes::complete_lines(b.take(tail_of(b))) == bytes::complete_lines(b),
        bytes::unfinished(b.take(tail_of(b))).len() == 0,
    decreases b.len(),
{
    bytes::lemma_byte_index(b, 10);
    lemma_unfinished(b);
    let i = bytes::byte_index(b, 10);
    let front = b.take(tail_of(b));
    if i < b.len() {
        lemma_unfinished(b.skip(i + 1));
        lemma_take_tail(b.skip(i + 1));
        bytes::lemma_byte_index_is(front, 10, i);
        assert(front.take(i + 1) =~= b.take(i + 1));
        assert(front.skip(i + 1) =~= b.skip(i + 1).take(tail_of(b.skip(i + 1))));
    } else {
        assert(front.len() == 0);
    }
}

proof fn lemma_line_feed(tail: Seq<u8>)
    requires
        bytes::byte_index(tail, 10) >= tail.len(),
    ensures
        bytes::complete_lines(tail.push(10)) == seq![tail.push(10)],
        bytes::unfinished(tail.push(10)).len() == 0,
{
    let line = tail.push(10);
    bytes::lemma_byte_index(tail, 10);
    assert forall|j: int| 0 <= j < tail.len() implies #[trigger] line[j] != 10 by {
        assert(line[j] == tail[j]);
    }
    bytes::lemma_byte_index_is(line, 10, tail.len() as int);
    assert(line.take(line.len() as int) =~= line);
    let rest = line.skip(line.len() as int);
    assert(rest.len() == 0);
    bytes::lemma_byte_index(rest, 10);
    assert(bytes::complete_lines(rest) =~= Seq::empty());
    assert(bytes::unfinished(rest) == rest);
    assert(seq![line] + bytes::complete_lines(rest) =~= seq![line]);
}

proof fn lemma_appended_line(b: Seq<u8>, line: Seq<u8>)
    requires
        bytes::byte_index(bytes::unfinished(b) + line, 10) >= (bytes::unfinished(b) + line).len(),
    ensures
        bytes::complete_lines(b + line.push(10)) == bytes::complete_lines(b).push(
            (bytes::unfinished(b) + line).push(10),
        ),
        bytes::unfinished(b + line.push(10)).len() == 0,
{
    bytes::law_lines_do_not_depend_on_pieces(b, line.push(10));
    let tail = bytes::unfinished(b) + line;
    lemma_line_feed(tail);
    assert(bytes::unfinished(b) + line.push(10) =~= tail.push(10));
    assert(bytes::complete_lines(b) + seq![tail.push(10)] =~= bytes::complete_lines(b).push(
        tail.push(10),
    ));
}

proof fn lemma_collected_of_more(
    lines: Seq<Seq<u8>>,
    parsed: Seq<core::result::Result<SessionLogRecord, String>>,
    line: Seq<u8>,
    record: SessionLogRecord,
    i: int,
)
    requires
        0 <= i <= lines.len(),
        parsed.len() == lines.len(),
        collected(lines, true, parsed, i) is Ok,
        line.len() > 0,
        commit_of(record) is Ok,
    ensures
        collected(lines.push(line), true, parsed.push(Ok(record)), i) == Ok::<
            Seq<SessionCommit>,
            Seq<char>,
        >(collected(lines, true, parsed, i)->Ok_0.push(commit_of(record)->Ok_0)),
    decreases lines.len() - i,
{
    let more = lines.push(line);
    let read = parsed.push(Ok::<SessionLogRecord, String>(record));
    let commit = commit_of(record)->Ok_0;
    if i == lines.len() {
        assert(collected(more, true, read, i + 1) == Ok::<Seq<SessionCommit>, Seq<char>>(
            Seq::empty(),
        ));
        assert(seq![commit] + Seq::<SessionCommit>::empty() =~= Seq::<SessionCommit>::empty().push(
            commit,
        ));
    } else {
        assert(more[i] == lines[i]);
        assert(read[i] == parsed[i]);
        lemma_collected_of_more(lines, parsed, line, record, i + 1);
        let first = commit_of(parsed[i]->Ok_0)->Ok_0;
        let rest = collected(lines, true, parsed, i + 1)->Ok_0;
        assert(seq![first] + rest.push(commit) =~= (seq![first] + rest).push(commit));
    }
}

/// What is appended to a log is read back: after what the log held, and in the form
/// in which it was written.
pub proof fn law_appended_commits_are_read_back(
    log: Seq<u8>,
    parsed: Seq<core::result::Result<SessionLogRecord, String>>,
    line: Seq<u8>,
    record: SessionLogRecord,
    commit: SessionCommit,
)
    requires
        is_finished(log),
        parsed.len() == log_lines(log).len(),
        loaded(log_lines(log), true, parsed) is Ok,
        line.len() > 0,
        bytes::byte_index(line, 10) >= line.len(),
        commit_of(record) == Ok::<SessionCommit, Seq<char>>(commit),
        commit.sequence == loaded(log_lines(log), true, parsed)->Ok_0.len() + 1,
    ensures
        is_finished(log + line.push(10)),
        log_lines(log + line.push(10)) == log_lines(log).push(line),
        loaded(log_lines(log + line.push(10)), true, parsed.push(Ok(record))) == Ok::<
            Seq<SessionCommit>,
            Seq<char>,
        >(loaded(log_lines(log), true, parsed)->Ok_0.push(commit)),
{
    let commits = loaded(log_lines(log), true, parsed)->Ok_0;
    assert(bytes::unfinished(log) + line =~= line);
    lemma_appended_line(log, line);
    assert(line.push(10).drop_last() =~= line);
    assert(log_lines(log + line.push(10)) =~= log_lines(log).push(line));
    lemma_collected_of_more(log_lines(log), parsed, line, record, 0);
    assert(commits.push(commit).drop_last() =~= commits);
}

proof fn lemma_collected_without_tail(
    lines: Seq<Seq<u8>>,
    parsed: Seq<core::result::Result<SessionLogRecord, String>>,
    i: int,
)
    requires
        lines.len() > 0,
        parsed.len() == lines.len(),
        0 <= i < lines.len(),
        lines.last().len() > 0,
    ensures
        parsed.last() is Err ==> collected(lines.drop_last(), true, parsed.drop_last(), i)
            == collected(lines, false, parsed, i),
        parsed.last() is Ok ==> collected(lines, true, parsed, i) == collected(
            lines,
            false,
            parsed,
            i,
        ),
    decreases lines.len() - i,
{
    if i + 1 < lines.len() {
        lemma_collected_without_tail(lines, parsed, i + 1);
        assert(lines.drop_last()[i] == lines[i]);
        assert(parsed.drop_last()[i] == parsed[i]);
    } else if parsed.last() is Ok {
        assert(collected(lines, true, parsed, i + 1) == collected(lines, false, parsed, i + 1));
    }
}

/// Mending a log changes nothing of what is read from it, and leaves it finished. The
/// one exception is a log without a line feed whose only line is a whole record: it is
/// thrown away.
pub proof fn law_mending_keeps_the_commits(
    log: Seq<u8>,
    parsed: Seq<core::result::Result<SessionLogRecord, String>>,
)
    requires
        log.len() <= usize::MAX,
        bytes::complete_lines(log).len() > 0 || log.len() == 0 || parsed.last() is Err,
        parsed.len() == log_lines(log).len(),
    ensures
        ({
            let fixed = mended(log, tail_fix(log, parsed.last() is Ok));
            &&& is_finished(fixed)
            &&& log_lines(fixed).len() <= parsed.len()
            &&& loaded(log_lines(fixed), true, parsed.take(log_lines(fixed).len() as int))
                == loaded(log_lines(log), is_finished(log), parsed)
        }),
{
    lemma_unfinished(log);
    let tail = bytes::unfinished(log);
    let fixed = mended(log, tail_fix(log, parsed.last() is Ok));
    if tail.len() == 0 {
        assert(log.take(0).len() == 0);
        if log.len() == 0 {
            assert(fixed =~= log);
        }
        assert(parsed.take(parsed.len() as int) =~= parsed);
    } else {
        let lines = log_lines(log);
        assert(lines.last() == tail);
        lemma_collected_without_tail(lines, parsed, 0);
        if parsed.last() is Ok {
            let nothing = Seq::<u8>::empty();
            assert(tail + nothing =~= tail);
            lemma_appended_line(log, nothing);
            assert(log + nothing.push(10) =~= fixed);
            assert(tail.push(10).drop_last() =~= tail);
            assert(log_lines(fixed) =~= lines);
            assert(parsed.take(parsed.len() as int) =~= parsed);
        } else {
            lemma_take_tail(log);
            assert(log_lines(fixed) =~= lines.drop_last());
            assert(parsed.take(lines.len() - 1) =~= parsed.drop_last());
        }
    }
}

// ---------------------------------------------------------------------------
// Where logs are kept
// ---------------------------------------------------------------------------

/// The hash of a project: the first twelve bytes of the digest of its path.
pub open spec fn hash_of(project_root: Seq<char>) -> Seq<char> {
    digest::hex(digest::sha256(vstd::utf8::encode_utf8(project_root)).take(12))
}

/// The hash of a project.
pub fn project_hash(project_root: &str) -> (r: String)
    ensures
        r@ == hash_of(project_root@),
{
    let digest = digest::sha256_digest(project_root.as_bytes());
    digest::hex_prefix(digest.as_slice(), 12)
}

/// Where data is kept, as the two variables of the environment tell.
pub fn default_data_root(xdg_data_home: Option<&str>, home: Option<&str>) -> (r: model::Result<
    String,
>)
    ensures
        match (xdg_data_home, home) {
            (Some(path), _) => r is Ok && r->Ok_0@ == path@,
            (None, Some(home)) => r is Ok && r->Ok_0@ == paths::joined(home@, ".local/share"@),
            (None, None) => r is Err && r->Err_0@ == model::ErrorView::Persistence(
                "HOME is not set"@,
            ),
        },
{
    match xdg_data_home {
        Some(path) => Ok(text::owned(path)),
        None => match home {
            Some(home) => Ok(paths::join(home, ".local/share")),
            None => Err(Error::Persistence(text::owned("HOME is not set"))),
        },
    }
}

/// The store of a project's sessions.
pub struct JsonlSessionStore {
    pub root: String,
}

pub type JsonlStore = JsonlSessionStore;

/// Where the sessions of a project are kept, by what its directory is called.
pub open spec fn sessions_under(
    name: Option<Seq<char>>,
    project_root: Seq<char>,
    data_root: Seq<char>,
) -> Seq<char> {
    let name = match name {
        Some(n) => n,
        None => "project"@,
    };
    paths::joined(
        paths::joined(
            paths::joined(data_root, "airicode"@),
            name + "-"@ + hash_of(project_root),
        ),
        "sessions"@,
    )
}

/// Where the sessions of a project are kept.
pub open spec fn sessions_of(project_root: Seq<char>, data_root: Seq<char>) -> Seq<char> {
    sessions_under(paths::last_name(project_root), project_root, data_root)
}

/// Whether a name is that of a log, and what stands before its ending.
pub open spec fn log_stem(name: Seq<char>) -> Option<Seq<char>> {
    if name.len() > 6 && text::ends_with(name, ".jsonl"@) {
        Some(name.take(name.len() - 6))
    } else {
        None
    }
}

/// The sessions whose logs have these names, or what is wrong with one.
pub open spec fn named_sessions(names: Seq<Seq<char>>) -> core::result::Result<
    Seq<SessionId>,
    Seq<char>,
>
    decreases names.len(),
{
    if names.len() == 0 {
        Ok(Seq::empty())
    } else {
        match named_sessions(names.drop_last()) {
            Err(m) => Err(m),
            Ok(list) => match log_stem(names.last()) {
                None => Ok(list),
                Some(stem) => match ids::parsed_uuid(stem) {
                    Some(v) => Ok(list.push(SessionId(v))),
                    None => Err(
                        "invalid session filename "@ + stem + ": "@ + ids::uuid_complaint(stem),
                    ),
                },
            },
        }
    }
}

/// Whether sessions are in order.
pub open spec fn in_order(list: Seq<SessionId>) -> bool {
    forall|i: int, j: int|
        #![trigger list[i], list[j]]
        0 <= i < j < list.len() ==> list[i].0 <= list[j].0
}

fn insert_session(list: &mut Vec<SessionId>, id: SessionId)
    requires
        in_order(old(list)@),
    ensures
        in_order(final(list)@),
        final(list)@.to_multiset() == old(list)@.to_multiset().insert(id),
{
    let mut k: usize = list.len();
    while k > 0 && list[k - 1].0 > id.0
        invariant
            k <= list@.len(),
            in_order(list@),
            forall|j: int| k <= j < list@.len() ==> (#[trigger] list@[j]).0 > id.0,
        decreases k,
    {
        k -= 1;
    }
    proof {
        vstd::seq_lib::to_multiset_insert(list@, k as int, id);
    }
    list.insert(k, id);
}

proof fn lemma_wrong_name_stays(names: Seq<Seq<char>>, n: int)
    requires
        0 <= n <= names.len(),
        named_sessions(names.take(n)) is Err,
    ensures
        named_sessions(names) == named_sessions(names.take(n)),
    decreases names.len(),
{
    if n < names.len() {
        assert(names.drop_last().take(n) =~= names.take(n));
        lemma_wrong_name_stays(names.drop_last(), n);
    } else {
        assert(names.take(n) =~= names);
    }
}

impl JsonlSessionStore {
    /// The store of the project at `project_root`, where data is kept in `data_root`.
    pub fn new(project_root: &str, data_root: &str) -> (r: Self)
        ensures
            r.root@ == sessions_of(project_root@, data_root@),
    {
        match paths::file_name(project_root) {
            Some(name) => JsonlSessionStore::named(Some(name.as_str()), project_root, data_root),
            None => JsonlSessionStore::named(None, project_root, data_root),
        }
    }

    /// The store of a project whose directory is called `name`, where that is text.
    pub fn named(name: Option<&str>, project_root: &str, data_root: &str) -> (r: Self)
        ensures
            r.root@ == sessions_under(json::opt_str(name), project_root@, data_root@),
    {
        let name = match name {
            Some(n) => n,
            None => "project",
        };
        let hash = project_hash(project_root);
        let data = paths::join(data_root, "airicode");
        let directory = text::cat3(name, "-", hash.as_str());
        let project = paths::join(data.as_str(), directory.as_str());
        JsonlSessionStore { root: paths::join(project.as_str(), "sessions") }
    }

    /// A store at a place.
    pub fn new_at(path: String) -> (r: Self)
        ensures
            r.root == path,
    {
        JsonlSessionStore { root: path }
    }

    pub fn root(&self) -> (r: String)
        ensures
            r@ == self.root@,
    {
        text::owned(self.root.as_str())
    }

    /// Where the log of a session is.
    pub fn path_for(&self, session_id: SessionId) -> (r: String)
        ensures
            r@ == paths::joined(self.root@, ids::uuid_spelling(session_id.0) + ".jsonl"@),
    {
        let id = session_id.spelled();
        let name = text::cat2(id.as_str(), ".jsonl");
        paths::join(self.root.as_str(), name.as_str())
    }

    /// The sessions whose logs have these names, in order.
    pub fn discover(&self, names: &[String]) -> (r: model::Result<Vec<SessionId>>)
        ensures
            match named_sessions(text::texts(names@)) {
                Ok(list) => {
                    &&& r is Ok
                    &&& in_order(r->Ok_0@)
                    &&& r->Ok_0@.to_multiset() == list.to_multiset()
                },
                Err(m) => r is Err && r->Err_0@ == model::ErrorView::Persistence(m),
            },
    {
        let mut sessions: Vec<SessionId> = Vec::new();
        let ghost all = text::texts(names@);
        let mut i: usize = 0;
        proof {
            assert(all.take(0) =~= Seq::empty());
        }
        while i < names.len()
            invariant
                i <= names@.len(),
                all == text::texts(names@),
                named_sessions(all.take(i as int)) is Ok,
                in_order(sessions@),
                sessions@.to_multiset() == named_sessions(all.take(i as int))->Ok_0.to_multiset(),
            decreases names@.len() - i,
        {
            let name = names[i].as_str();
            proof {
                assert(all.take(i + 1).drop_last() =~= all.take(i as int));
                assert(all.take(i + 1).last() == name@);
                reveal_strlit(".jsonl");
            }
            let length: usize = name.unicode_len();
            if length > 6 && text::finishes(name, ".jsonl") {
                let stem = name.substring_char(0, length - 6);
                proof {
                    assert(stem@ =~= name@.take(name@.len() - 6));
                }
                match ids::parse_uuid(stem) {
                    Ok(v) => {
                        proof {
                            let list = named_sessions(all.take(i as int))->Ok_0;
                            vstd::seq_lib::to_multiset_build(list, SessionId(v));
                        }
                        insert_session(&mut sessions, SessionId(v));
                    },
                    Err(e) => {
                        proof {
                            lemma_wrong_name_stays(all, i + 1);
                        }
                        let m = text::cat4("invalid session filename ", stem, ": ", e.as_str());
                        return Err(Error::Persistence(m));
                    },
                }
            }
            i += 1;
        }
        proof {
            assert(all.take(i as int) =~= all);
        }
        Ok(sessions)
    }
}

/// The plugin that keeps sessions in a store.
pub struct PersistencePlugin<S> {
    pub id: PluginId,
    pub store: S,
}

impl PersistencePlugin<JsonlSessionStore> {
    /// The plugin of the project at `project_root`, where data is kept in `data_root`.
    pub fn for_project(project_root: &str, data_root: &str) -> (r: Self)
        ensures
            r.store.root@ == sessions_of(project_root@, data_root@),
    {
        PersistencePlugin::new(JsonlSessionStore::new(project_root, data_root))
    }
}

impl<S> PersistencePlugin<S> {
    pub fn new(store: S) -> (r: Self)
        ensures
            ids::is_random(r.id.0),
            r.store == store,
    {
        PersistencePlugin { id: PluginId(fresh()), store }
    }

    pub fn store(&self) -> (r: &S)
        ensures
            *r == self.store,
    {
        &self.store
    }

    pub fn name(&self) -> (r: &'static str)
        ensures
            r@ == "persistence"@,
    {
        "persistence"
    }

    /// How the configuration is described.
    pub fn config_schema(&self) -> (r: Json)
        ensures
            r@ == json::JsonView::Object(seq![("type"@, json::JsonView::Text("object"@))]),
    {
        let fields = ObjectBuilder::new().with("type", Json::text("object"));
        proof {
            assert(fields@ =~= seq![("type"@, json::JsonView::Text("object"@))]);
        }
        fields.done()
    }
}

/// What is loaded is what the lines of the log say, in their order and without a gap; only
/// an unfinished line at the end may be missing.
pub proof fn law_logs_are_read_in_order(
    lines: Seq<Seq<u8>>,
    finished: bool,
    parsed: Seq<core::result::Result<SessionLogRecord, String>>,
    i: int,
)
    requires
        parsed.len() == lines.len(),
    ensures
        loaded(lines, finished, parsed) matches Ok(commits) ==> {
            &&& commits.len() <= lines.len()
            &&& finished ==> commits.len() == lines.len()
            &&& !finished ==> commits.len() + 1 >= lines.len()
            &&& 0 <= i < commits.len() ==> {
                &&& commits[i].sequence == i + 1
                &&& parsed[i] matches Ok(record)
                &&& commits[i].sequence == record.sequence
                &&& commits[i].commit_id == record.commit_id
                &&& commits[i].created_at == record.created_at
                &&& commits[i].mutations == record.mutations
                &&& record.schema_version == SESSION_LOG_SCHEMA_VERSION
            }
        },
{
    lemma_collected(lines, finished, parsed, 0, i);
    if let Ok(commits) = loaded(lines, finished, parsed) {
        lemma_no_gap(commits, i);
    }
}

proof fn lemma_collected(
    lines: Seq<Seq<u8>>,
    finished: bool,
    parsed: Seq<core::result::Result<SessionLogRecord, String>>,
    from: int,
    i: int,
)
    requires
        parsed.len() == lines.len(),
        0 <= from <= lines.len(),
    ensures
        collected(lines, finished, parsed, from) matches Ok(commits) ==> {
            &&& from + commits.len() <= lines.len()
            &&& finished ==> from + commits.len() == lines.len()
            &&& !finished ==> from + commits.len() + 1 >= lines.len()
            &&& 0 <= i < commits.len() ==> (parsed[from + i] matches Ok(record) && commit_of(
                record,
            ) == Ok::<SessionCommit, Seq<char>>(commits[i]))
        },
    decreases lines.len() - from,
{
    if from < lines.len() && collected(lines, finished, parsed, from) is Ok {
        if parsed[from] is Ok {
            lemma_collected(lines, finished, parsed, from + 1, i - 1);
            let rest = collected(lines, finished, parsed, from + 1)->Ok_0;
            let commit = commit_of(parsed[from]->Ok_0)->Ok_0;
            if 0 < i < rest.len() + 1 {
                assert((seq![commit] + rest)[i] == rest[i - 1]);
            }
        }
    }
}

proof fn lemma_no_gap(commits: Seq<SessionCommit>, i: int)
    requires
        first_gap(commits) is None,
    ensures
        0 <= i < commits.len() ==> commits[i].sequence == i + 1,
    decreases commits.len(),
{
    if commits.len() > 0 {
        lemma_no_gap(commits.drop_last(), i);
    }
}

/// A log is named after its session.
pub proof fn law_logs_are_named_after_their_session(stem: Seq<char>, other: Seq<char>)
    requires
        stem.len() > 0,
    ensures
        log_stem(stem + ".jsonl"@) == Some(stem),
        !text::ends_with(other, ".jsonl"@) ==> log_stem(other) is None,
        log_stem(".jsonl"@) is None,
{
    reveal_strlit(".jsonl");
    let name = stem + ".jsonl"@;
    let n = stem.len() as int;
    assert(name.subrange(n, n + 6) =~= ".jsonl"@);
    assert(name.take(n) =~= stem);
}

/// The sessions are listed in the order of their files, and other files are passed over.
pub proof fn law_sessions_are_listed(
    a: Seq<Seq<char>>,
    b: Seq<Seq<char>>,
    stem: Seq<char>,
    id: u128,
    other: Seq<char>,
)
    requires
        stem.len() > 0,
    ensures
        named_sessions(a) matches Ok(x) ==> (named_sessions(b) matches Ok(y) ==> named_sessions(
            a + b,
        ) == Ok::<Seq<SessionId>, Seq<char>>(x + y)),
        ids::parsed_uuid(stem) == Some(id) ==> named_sessions(seq![stem + ".jsonl"@]) == Ok::<
            Seq<SessionId>,
            Seq<char>,
        >(seq![SessionId(id)]),
        ids::parsed_uuid(stem) is None ==> named_sessions(seq![stem + ".jsonl"@]) is Err,
        !text::ends_with(other, ".jsonl"@) ==> named_sessions(seq![other]) == Ok::<
            Seq<SessionId>,
            Seq<char>,
        >(Seq::empty()),
    decreases b.len(),
{
    law_logs_are_named_after_their_session(stem, other);
    reveal_with_fuel(named_sessions, 2);
    assert(seq![stem + ".jsonl"@].drop_last() =~= Seq::empty());
    assert(seq![other].drop_last() =~= Seq::empty());
    assert(Seq::<SessionId>::empty().push(SessionId(id)) =~= seq![SessionId(id)]);
    if b.len() == 0 {
        assert(a + b =~= a);
        if let Ok(x) = named_sessions(a) {
            assert(x + Seq::<SessionId>::empty() =~= x);
        }
    } else {
        law_sessions_are_listed(a, b.drop_last(), stem, id, other);
        assert((a + b).drop_last() =~= a + b.drop_last());
        assert((a + b).last() == b.last());
        if named_sessions(a) is Ok && named_sessions(b) is Ok {
            let x = named_sessions(a)->Ok_0;
            let y = named_sessions(b)->Ok_0;
            let z = named_sessions(b.drop_last())->Ok_0;
            assert(named_sessions(a + b)->Ok_0 =~= x + y);
        }
    }
}

/// The sessions of a project lie in a directory of their own, which tells its name and
/// where it is.
pub proof fn law_projects_have_their_own_directory(
    name: Seq<char>,
    project_root: Seq<char>,
    data_root: Seq<char>,
)
    ensures
        sessions_under(Some(name), project_root, data_root) == paths::joined(
            paths::joined(
                paths::joined(data_root, "airicode"@),
                name + "-"@ + digest::hex(
                    digest::sha256(vstd::utf8::encode_utf8(project_root)).take(12),
                ),
            ),
            "sessions"@,
        ),
        sessions_under(None, project_root, data_root) == sessions_under(
            Some("project"@),
            project_root,
            data_root,
        ),
        sessions_of(project_root, data_root) == sessions_under(
            paths::last_name(project_root),
            project_root,
            data_root,
        ),
{
}

} // verus!
