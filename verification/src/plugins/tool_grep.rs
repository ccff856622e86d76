//! Searching files for a pattern.
use crate::ids;
use crate::ids::fresh;
use crate::ids::{PluginId, ToolId};
use crate::json;
use crate::json::Json;
use crate::model;
use crate::model::{CommandOutput, CommandSpec, NoteContent, ToolDefinition, ToolOutput};
use crate::paths;
use crate::text;
use crate::utils::note;
use vstd::prelude::*;

verus! {

pub const DESCRIPTION: &'static str = "Search files visible through the current workdir using a regular-expression pattern. `path` optionally limits the search scope and `glob` optionally filters filenames. Results use `<path>:<line anchor>|<content>` and are size-limited.";

#[derive(Clone, Debug)]
pub struct GrepInput {
    pub pattern: String,
    pub path: Option<String>,
    pub glob: Option<String>,
    pub max_results: Option<usize>,
}

/// A line that the search reported.
#[derive(Clone, Debug, PartialEq, Eq)]
pub struct GrepMatch {
    pub path: String,
    pub line: usize,
}

/// A line of a file as it is shown.
#[derive(Clone, Debug, PartialEq, Eq)]
pub struct ContextLine {
    pub line_number: usize,
    pub display_prefix: String,
    pub text: String,
}

/// The lines that were read of one file.
#[derive(Clone, Debug)]
pub struct FileLines {
    pub path: String,
    pub lines: Vec<ContextLine>,
}

/// Lines of a file that are needed to show matches.
#[derive(Clone, Debug, PartialEq, Eq)]
pub struct LineRequest {
    pub path: String,
    pub start: usize,
    pub end: usize,
}

/// A match in mathematical terms: path and line.
pub type MatchView = (Seq<char>, nat);

pub open spec fn match_views(list: Seq<GrepMatch>) -> Seq<MatchView> {
    list.map_values(|m: GrepMatch| (m.path@, m.line as nat))
}

// ---------------------------------------------------------------------------
// What the search reports
// ---------------------------------------------------------------------------

/// The match that a reported event stands for.
pub open spec fn event_match(event: json::JsonView) -> Option<MatchView> {
    if json::text_at(event, "type"@) != Some("match"@) {
        None
    } else {
        let data = json::field(event, "data"@);
        match json::text_of(json::opt_field(json::opt_field(data, "path"@), "text"@)) {
            None => None,
            Some(path) => match json::number_of(json::opt_field(data, "line_number"@)) {
                None => None,
                Some(n) => if n <= usize::MAX {
                    Some((path, n as nat))
                } else {
                    None
                },
            },
        }
    }
}

/// The match that a reported line stands for.
pub open spec fn line_match(line: Seq<char>) -> Option<MatchView> {
    match json::json_parse(line) {
        Ok(event) => event_match(event),
        Err(_) => None,
    }
}

/// The matches of reported lines.
pub open spec fn line_matches(lines: Seq<Seq<char>>) -> Seq<MatchView>
    decreases lines.len(),
{
    if lines.len() == 0 {
        Seq::empty()
    } else {
        let earlier = line_matches(lines.drop_last());
        match line_match(lines.last()) {
            Some(m) => earlier.push(m),
            None => earlier,
        }
    }
}

/// The matches that a search wrote out.
pub open spec fn reported(stdout: Seq<char>) -> Seq<MatchView> {
    line_matches(text::lines_of(stdout))
}

/// The match that an event stands for.
pub fn read_event(event: &Json) -> (r: Option<GrepMatch>)
    ensures
        event_match(event@) == (match r {
            Some(m) => Some((m.path@, m.line as nat)),
            None => None,
        }),
{
    match event.get_str("type") {
        Some(kind) => if !text::same_text(kind, "match") {
            return None;
        },
        None => return None,
    }
    let data = match event.get("data") {
        Some(d) => d,
        None => return None,
    };
    let path = match data.get("path") {
        Some(p) => match p.get_str("text") {
            Some(t) => t,
            None => return None,
        },
        None => return None,
    };
    match data.get_u64("line_number") {
        Some(n) => if n <= usize::MAX as u64 {
            Some(GrepMatch { path: text::owned(path), line: n as usize })
        } else {
            None
        },
        None => None,
    }
}

/// The matches that a search wrote out, in order; lines that are no matches are
/// passed over.
pub fn parse_matches(stdout: &str) -> (r: Vec<GrepMatch>)
    ensures
        match_views(r@) == reported(stdout@),
{
    let lines = text::split_lines(stdout);
    let ghost all = text::texts(lines@);
    let mut out: Vec<GrepMatch> = Vec::new();
    let mut i: usize = 0;
    proof {
        assert(all.take(0) =~= Seq::empty());
        assert(match_views(out@) =~= Seq::empty());
    }
    while i < lines.len()
        invariant
            i <= lines@.len(),
            all == text::texts(lines@),
            match_views(out@) == line_matches(all.take(i as int)),
        decreases lines@.len() - i,
    {
        let ghost before = match_views(out@);
        proof {
            assert(all.take(i + 1).drop_last() =~= all.take(i as int));
            assert(all.take(i + 1).last() == lines@[i as int]@);
        }
        if let Ok(event) = json::parse_json(lines[i].as_str()) {
            if let Some(m) = read_event(&event) {
                let ghost shown = (m.path@, m.line as nat);
                out.push(m);
                proof {
                    assert(match_views(out@) =~= before.push(shown));
                }
            }
        }
        i += 1;
    }
    proof {
        assert(all.take(i as int) =~= all);
    }
    out
}

// ---------------------------------------------------------------------------
// The search
// ---------------------------------------------------------------------------

pub struct ToolGrep {
    pub id: ToolId,
    pub max_output_bytes: usize,
    pub max_results: usize,
}

/// Where a request searches.
pub open spec fn search_path(path: Option<Seq<char>>) -> Seq<char> {
    match path {
        Some(p) => if p.len() == 0 {
            "."@
        } else {
            p
        },
        None => "."@,
    }
}

/// How many results a request may get.
pub open spec fn result_limit(wanted: Option<usize>, most: usize) -> usize {
    match wanted {
        Some(n) => if n <= most {
            n
        } else {
            most
        },
        None => most,
    }
}

/// The arguments of the search program.
pub open spec fn search_args(input: GrepInput) -> Seq<Seq<char>> {
    seq!["--json"@, "--color=never"@, "--hidden"@, "--glob"@, "!.git"@] + (match text::opt_text(
        input.glob,
    ) {
        Some(glob) => seq!["--glob"@, glob],
        None => Seq::empty(),
    }) + seq!["--"@, input.pattern@, search_path(text::opt_text(input.path))]
}

/// What a search that ran comes to.
pub enum SearchResult {
    /// The search is over.
    Answer { output: ToolOutput, note: NoteContent },
    /// The lines of these files are needed to show the matches.
    Show { matches: Vec<GrepMatch>, requests: Vec<LineRequest> },
}

/// The lines that are needed of `path`: from its first to its last match.
pub open spec fn needed_range(list: Seq<MatchView>, path: Seq<char>) -> Option<(nat, nat)>
    decreases list.len(),
{
    if list.len() == 0 {
        None
    } else {
        let earlier = needed_range(list.drop_last(), path);
        let m = list.last();
        if !paths::is_same(m.0, path) {
            earlier
        } else {
            match earlier {
                None => Some((m.1, m.1)),
                Some((a, b)) => Some(
                    (
                        if m.1 < a {
                            m.1
                        } else {
                            a
                        },
                        if m.1 > b {
                            m.1
                        } else {
                            b
                        },
                    ),
                ),
            }
        }
    }
}

/// Whether a path is among others.
pub open spec fn has_path(list: Seq<Seq<char>>, path: Seq<char>) -> bool {
    exists|i: int| 0 <= i < list.len() && paths::is_same(#[trigger] list[i], path)
}

/// The paths of matches, each file once, in the order in which they come up.
pub open spec fn match_paths(list: Seq<MatchView>) -> Seq<Seq<char>>
    decreases list.len(),
{
    if list.len() == 0 {
        Seq::empty()
    } else {
        let earlier = match_paths(list.drop_last());
        if has_path(earlier, list.last().0) {
            earlier
        } else {
            earlier.push(list.last().0)
        }
    }
}

pub open spec fn request_views(list: Seq<LineRequest>) -> Seq<(Seq<char>, nat, nat)> {
    list.map_values(|r: LineRequest| (r.path@, r.start as nat, r.end as nat))
}

/// The lines that are needed to show matches, file by file.
pub open spec fn needed_lines(list: Seq<MatchView>) -> Seq<(Seq<char>, nat, nat)> {
    match_paths(list).map_values(
        |path: Seq<char>|
            (path, (needed_range(list, path)->0).0, (needed_range(list, path)->0).1),
    )
}

/// The first `n` of `list`, or all of it.
pub open spec fn at_most<T>(list: Seq<T>, n: nat) -> Seq<T> {
    if n < list.len() {
        list.take(n as int)
    } else {
        list
    }
}

/// Line `number` among the lines that were read of a file; the last one counts.
pub open spec fn line_in(lines: Seq<ContextLine>, number: nat) -> Option<ContextLine>
    decreases lines.len(),
{
    if lines.len() == 0 {
        None
    } else if lines.last().line_number == number {
        Some(lines.last())
    } else {
        line_in(lines.drop_last(), number)
    }
}

/// The lines that were read of `path`.
pub open spec fn lines_read(files: Seq<FileLines>, path: Seq<char>) -> Option<Seq<ContextLine>>
    decreases files.len(),
{
    if files.len() == 0 {
        None
    } else if paths::is_same(files.last().path@, path) {
        Some(files.last().lines@)
    } else {
        lines_read(files.drop_last(), path)
    }
}

/// Every file with a match has been read.
pub open spec fn all_read(list: Seq<MatchView>, files: Seq<FileLines>) -> bool {
    forall|i: int| 0 <= i < list.len() ==> lines_read(files, (#[trigger] list[i]).0) is Some
}

/// The matches as they are shown, or the first one whose line is gone.
pub open spec fn shown_matches(list: Seq<MatchView>, files: Seq<FileLines>) -> Result<
    Seq<Seq<char>>,
    MatchView,
>
    decreases list.len(),
{
    if list.len() == 0 {
        Ok(Seq::empty())
    } else {
        match shown_matches(list.drop_last(), files) {
            Err(m) => Err(m),
            Ok(earlier) => {
                let m = list.last();
                match line_in(lines_read(files, m.0)->0, m.1) {
                    None => Err(m),
                    Some(line) => Ok(
                        earlier.push(m.0 + ":"@ + line.display_prefix@ + "|"@ + line.text@),
                    ),
                }
            },
        }
    }
}

/// What the model is answered once the files have been read.
pub open spec fn grep_answer(
    list: Seq<MatchView>,
    limit: nat,
    truncated: bool,
    files: Seq<FileLines>,
) -> model::OutputView {
    match shown_matches(at_most(list, limit), files) {
        Err(m) => model::OutputView::Failure(
            "grep result became stale while reading file context: "@ + m.0 + ":"@ + text::decimal(
                m.1,
            ),
        ),
        Ok(lines) => model::OutputView::Success(
            text::joined(
                if truncated || list.len() > limit {
                    lines.push("[results truncated]"@)
                } else {
                    lines
                },
                "\n"@,
            ),
        ),
    }
}

pub open spec fn searched(pattern: Seq<char>, path: Seq<char>) -> Seq<char> {
    "Searched \""@ + pattern + "\" in "@ + path
}

fn find_range(list: &Vec<GrepMatch>, n: usize, path: &str) -> (r: Option<(usize, usize)>)
    requires
        n <= list@.len(),
    ensures
        needed_range(match_views(list@).take(n as int), path@) == (match r {
            Some(p) => Some((p.0 as nat, p.1 as nat)),
            None => None,
        }),
{
    let ghost all = match_views(list@);
    let mut found: Option<(usize, usize)> = None;
    let mut i: usize = 0;
    proof {
        assert(all.take(0) =~= Seq::empty());
    }
    while i < n
        invariant
            i <= n <= list@.len(),
            all == match_views(list@),
            needed_range(all.take(i as int), path@) == (match found {
                Some(p) => Some((p.0 as nat, p.1 as nat)),
                None => None,
            }),
        decreases n - i,
    {
        proof {
            assert(all.take(i + 1).drop_last() =~= all.take(i as int));
            assert(all.take(i + 1).last() == (list@[i as int].path@, list@[i as int].line as nat));
        }
        if paths::same_path(list[i].path.as_str(), path) {
            let line: usize = list[i].line;
            found = match found {
                None => Some((line, line)),
                Some((a, b)) => Some(
                    (
                        if line < a {
                            line
                        } else {
                            a
                        },
                        if line > b {
                            line
                        } else {
                            b
                        },
                    ),
                ),
            };
        }
        i += 1;
    }
    found
}

fn holds_path(list: &[String], path: &str) -> (r: bool)
    ensures
        r == has_path(text::texts(list@), path@),
{
    let ghost all = text::texts(list@);
    let mut i: usize = 0;
    while i < list.len()
        invariant
            i <= list@.len(),
            all == text::texts(list@),
            forall|k: int| 0 <= k < i ==> !paths::is_same(#[trigger] all[k], path@),
        decreases list@.len() - i,
    {
        proof {
            assert(all[i as int] == list@[i as int]@);
        }
        if paths::same_path(list[i].as_str(), path) {
            return true;
        }
        i += 1;
    }
    proof {
        assert(all.len() == list@.len());
    }
    false
}

fn collect_paths(list: &Vec<GrepMatch>, n: usize) -> (r: Vec<String>)
    requires
        n <= list@.len(),
    ensures
        text::texts(r@) == match_paths(match_views(list@).take(n as int)),
{
    let ghost all = match_views(list@);
    let mut out = text::no_texts();
    let mut i: usize = 0;
    proof {
        assert(all.take(0) =~= Seq::empty());
    }
    while i < n
        invariant
            i <= n <= list@.len(),
            all == match_views(list@),
            text::texts(out@) == match_paths(all.take(i as int)),
        decreases n - i,
    {
        proof {
            assert(all.take(i + 1).drop_last() =~= all.take(i as int));
            assert(all.take(i + 1).last() == (list@[i as int].path@, list@[i as int].line as nat));
        }
        if !holds_path(out.as_slice(), list[i].path.as_str()) {
            text::push_text(&mut out, list[i].path.as_str());
        }
        i += 1;
    }
    out
}

proof fn lemma_paths_have_ranges(list: Seq<MatchView>)
    ensures
        forall|i: int|
            0 <= i < match_paths(list).len() ==> needed_range(
                list,
                #[trigger] match_paths(list)[i],
            ) is Some,
        forall|i: int|
            0 <= i < list.len() ==> has_path(match_paths(list), (#[trigger] list[i]).0),
    decreases list.len(),
{
    if list.len() > 0 {
        lemma_paths_have_ranges(list.drop_last());
        let earlier = match_paths(list.drop_last());
        let now = match_paths(list);
        assert forall|i: int| 0 <= i < now.len() implies needed_range(
            list,
            #[trigger] now[i],
        ) is Some by {
            if i < earlier.len() {
                assert(now[i] == earlier[i]);
            }
        }
        assert forall|i: int| 0 <= i < list.len() implies has_path(
            now,
            (#[trigger] list[i]).0,
        ) by {
            if i < list.len() - 1 {
                assert(list.drop_last()[i] == list[i]);
            }
            if has_path(earlier, list[i].0) {
                let k = choose|k: int|
                    0 <= k < earlier.len() && paths::is_same(#[trigger] earlier[k], list[i].0);
                assert(now[k] == earlier[k]);
            } else {
                assert(now[now.len() - 1] == list[i].0);
            }
        }
    }
}

/// Every match lies in the lines that are asked for, and these are asked for once for
/// each file, however its path is spelled.
pub proof fn law_needed_lines_cover_matches(list: Seq<MatchView>, i: int)
    requires
        0 <= i < list.len(),
    ensures
        needed_range(list, list[i].0) matches Some(r) && r.0 <= list[i].1 <= r.1,
        has_path(match_paths(list), list[i].0),
        forall|j: int, k: int|
            0 <= j < k < match_paths(list).len() ==> !paths::is_same(
                #[trigger] match_paths(list)[j],
                #[trigger] match_paths(list)[k],
            ),
    decreases list.len(),
{
    lemma_paths_have_ranges(list);
    lemma_files_once(list);
    if i < list.len() - 1 {
        law_needed_lines_cover_matches(list.drop_last(), i);
        assert(list.drop_last()[i] == list[i]);
    }
}

proof fn lemma_files_once(list: Seq<MatchView>)
    ensures
        forall|j: int, k: int|
            0 <= j < k < match_paths(list).len() ==> !paths::is_same(
                #[trigger] match_paths(list)[j],
                #[trigger] match_paths(list)[k],
            ),
    decreases list.len(),
{
    if list.len() > 0 {
        lemma_files_once(list.drop_last());
        let earlier = match_paths(list.drop_last());
        let now = match_paths(list);
        assert forall|j: int, k: int| 0 <= j < k < now.len() implies !paths::is_same(
            #[trigger] now[j],
            #[trigger] now[k],
        ) by {
            assert(now[j] == earlier[j]);
            if k < earlier.len() {
                assert(now[k] == earlier[k]);
            } else {
                assert(!paths::is_same(earlier[j], list.last().0));
            }
        }
    }
}

fn build_requests(list: &Vec<GrepMatch>, n: usize) -> (r: Vec<LineRequest>)
    requires
        n <= list@.len(),
    ensures
        request_views(r@) == needed_lines(match_views(list@).take(n as int)),
{
    let ghost chosen = match_views(list@).take(n as int);
    let files = collect_paths(list, n);
    proof {
        lemma_paths_have_ranges(chosen);
    }
    let mut out: Vec<LineRequest> = Vec::new();
    let mut i: usize = 0;
    while i < files.len()
        invariant
            i <= files@.len(),
            n <= list@.len(),
            chosen == match_views(list@).take(n as int),
            text::texts(files@) == match_paths(chosen),
            forall|k: int|
                0 <= k < match_paths(chosen).len() ==> needed_range(
                    chosen,
                    #[trigger] match_paths(chosen)[k],
                ) is Some,
            out@.len() == i,
            forall|k: int|
                0 <= k < i ==> (
                    (#[trigger] out@[k]).path@,
                    out@[k].start as nat,
                    out@[k].end as nat,
                ) == needed_lines(chosen)[k],
        decreases files@.len() - i,
    {
        proof {
            assert(match_paths(chosen)[i as int] == text::texts(files@)[i as int]);
        }
        match find_range(list, n, files[i].as_str()) {
            Some((start, end)) => {
                out.push(LineRequest { path: text::owned(files[i].as_str()), start, end });
            },
            None => {
                proof {
                    assert(false);
                }
            },
        }
        i += 1;
    }
    proof {
        assert(text::texts(files@).len() == files@.len());
        assert(request_views(out@) =~= needed_lines(chosen));
    }
    out
}

fn find_line<'a>(lines: &'a Vec<ContextLine>, number: usize) -> (r: Option<&'a ContextLine>)
    ensures
        line_in(lines@, number as nat) == (match r {
            Some(l) => Some(*l),
            None => None,
        }),
{
    let mut i: usize = lines.len();
    proof {
        assert(lines@.take(i as int) =~= lines@);
    }
    while i > 0
        invariant
            i <= lines@.len(),
            line_in(lines@, number as nat) == line_in(lines@.take(i as int), number as nat),
        decreases i,
    {
        proof {
            assert(lines@.take(i as int).last() == lines@[i - 1]);
            assert(lines@.take(i as int).drop_last() =~= lines@.take(i - 1));
        }
        if lines[i - 1].line_number == number {
            return Some(&lines[i - 1]);
        }
        i -= 1;
    }
    None
}

fn find_file<'a>(files: &'a Vec<FileLines>, path: &str) -> (r: Option<&'a FileLines>)
    ensures
        lines_read(files@, path@) == (match r {
            Some(f) => Some(f.lines@),
            None => None,
        }),
{
    let mut i: usize = files.len();
    proof {
        assert(files@.take(i as int) =~= files@);
    }
    while i > 0
        invariant
            i <= files@.len(),
            lines_read(files@, path@) == lines_read(files@.take(i as int), path@),
        decreases i,
    {
        proof {
            assert(files@.take(i as int).last() == files@[i - 1]);
            assert(files@.take(i as int).drop_last() =~= files@.take(i - 1));
        }
        if paths::same_path(files[i - 1].path.as_str(), path) {
            return Some(&files[i - 1]);
        }
        i -= 1;
    }
    None
}

proof fn lemma_shown_err(list: Seq<MatchView>, files: Seq<FileLines>, n: int)
    requires
        0 <= n <= list.len(),
        shown_matches(list.take(n), files) is Err,
    ensures
        shown_matches(list, files) == shown_matches(list.take(n), files),
    decreases list.len() - n,
{
    if n < list.len() {
        assert(list.take(n + 1).drop_last() =~= list.take(n));
        lemma_shown_err(list, files, n + 1);
    } else {
        assert(list.take(n) =~= list);
    }
}

fn show_matches(list: &Vec<GrepMatch>, n: usize, files: &Vec<FileLines>) -> (r: Result<
    Vec<String>,
    usize,
>)
    requires
        n <= list@.len(),
        all_read(match_views(list@).take(n as int), files@),
    ensures
        match r {
            Ok(lines) => shown_matches(match_views(list@).take(n as int), files@) == Ok::<
                Seq<Seq<char>>,
                MatchView,
            >(text::texts(lines@)),
            Err(i) => i < n && shown_matches(match_views(list@).take(n as int), files@) == Err::<
                Seq<Seq<char>>,
                MatchView,
            >(match_views(list@)[i as int]),
        },
{
    let ghost all = match_views(list@).take(n as int);
    let mut out = text::no_texts();
    let mut i: usize = 0;
    proof {
        assert(all.take(0) =~= Seq::empty());
    }
    while i < n
        invariant
            i <= n <= list@.len(),
            all == match_views(list@).take(n as int),
            all_read(all, files@),
            shown_matches(all.take(i as int), files@) == Ok::<Seq<Seq<char>>, MatchView>(
                text::texts(out@),
            ),
        decreases n - i,
    {
        let m = &list[i];
        proof {
            assert(all.take(i + 1).drop_last() =~= all.take(i as int));
            assert(all.take(i + 1).last() == (m.path@, m.line as nat));
            assert(all[i as int] == (m.path@, m.line as nat));
        }
        let file = match find_file(files, m.path.as_str()) {
            Some(f) => f,
            None => {
                proof {
                    assert(lines_read(files@, all[i as int].0) is Some);
                    assert(false);
                }
                return Err(i);
            },
        };
        match find_line(&file.lines, m.line) {
            Some(line) => {
                let shown = text::cat5(
                    m.path.as_str(),
                    ":",
                    line.display_prefix.as_str(),
                    "|",
                    line.text.as_str(),
                );
                text::push_string(&mut out, shown);
            },
            None => {
                proof {
                    lemma_shown_err(all, files@, i + 1);
                }
                return Err(i);
            },
        }
        i += 1;
    }
    proof {
        assert(all.take(n as int) =~= all);
    }
    Ok(out)
}

impl Default for ToolGrep {
    fn default() -> (r: Self)
        ensures
            ids::is_random(r.id.0),
            r.max_output_bytes == 128 * 1024,
            r.max_results == 500,
    {
        ToolGrep::new()
    }
}

impl ToolGrep {
    pub fn new() -> (r: Self)
        ensures
            ids::is_random(r.id.0),
            r.max_output_bytes == 128 * 1024,
            r.max_results == 500,
    {
        ToolGrep { id: ToolId(fresh()), max_output_bytes: 128 * 1024, max_results: 500 }
    }

    pub fn with_limits(self, max_results: usize, max_output_bytes: usize) -> (r: Self)
        ensures
            r.id == self.id,
            r.max_results == max_results,
            r.max_output_bytes == max_output_bytes,
    {
        ToolGrep { id: self.id, max_output_bytes, max_results }
    }

    pub fn name(&self) -> (r: &'static str)
        ensures
            r@ == "grep"@,
    {
        "grep"
    }

    fn path_of(&self, input: &GrepInput) -> (r: String)
        ensures
            r@ == search_path(text::opt_text(input.path)),
    {
        match &input.path {
            Some(p) => if p.as_str().is_empty() {
                text::owned(".")
            } else {
                text::owned(p.as_str())
            },
            None => text::owned("."),
        }
    }

    fn limit_of(&self, input: &GrepInput) -> (r: usize)
        ensures
            r == result_limit(input.max_results, self.max_results),
    {
        match input.max_results {
            Some(n) => if n <= self.max_results {
                n
            } else {
                self.max_results
            },
            None => self.max_results,
        }
    }

    /// A search that failed with a message.
    pub fn failed(&self, message: String) -> (r: (ToolOutput, NoteContent))
        ensures
            r.0@ == model::OutputView::Failure(message@),
            r.1@ == note::note_about("Search failed"@, r.0@),
    {
        note::noted("Search failed", ToolOutput::Failure { content: message })
    }

    /// The command that searches, or the answer to a request without a pattern.
    pub fn command(&self, input: &GrepInput) -> (r: Result<CommandSpec, (ToolOutput, NoteContent)>)
        ensures
            if input.pattern@.len() == 0 {
                &&& r is Err
                &&& (r->Err_0).0@ == model::OutputView::Failure("grep pattern cannot be empty"@)
                &&& (r->Err_0).1@ == note::note_about("Search failed"@, (r->Err_0).0@)
            } else {
                r is Ok && r->Ok_0@ == (model::CommandView {
                    program: "rg"@,
                    args: search_args(*input),
                    cwd: None,
                    env: Seq::empty(),
                    max_output_bytes: Some(self.max_output_bytes),
                })
            },
    {
        if input.pattern.as_str().is_empty() {
            return Err(self.failed(text::owned("grep pattern cannot be empty")));
        }
        let mut args = text::no_texts();
        text::push_text(&mut args, "--json");
        text::push_text(&mut args, "--color=never");
        text::push_text(&mut args, "--hidden");
        text::push_text(&mut args, "--glob");
        text::push_text(&mut args, "!.git");
        if let Some(glob) = &input.glob {
            text::push_text(&mut args, "--glob");
            text::push_text(&mut args, glob.as_str());
        }
        text::push_text(&mut args, "--");
        text::push_text(&mut args, input.pattern.as_str());
        text::push_string(&mut args, self.path_of(input));
        proof {
            assert(text::texts(args@) =~= search_args(*input));
        }
        Ok(CommandSpec::plain("rg", args, Some(self.max_output_bytes)))
    }

    /// What a search that ran comes to.
    pub fn examine(&self, input: &GrepInput, result: &CommandOutput) -> (r: SearchResult)
        ensures
            ({
                let list = reported(result.stdout@);
                let path = search_path(text::opt_text(input.path));
                let limit = result_limit(input.max_results, self.max_results) as nat;
                if result.status == Some(1i32) && list.len() == 0 {
                    &&& r matches SearchResult::Answer { output, note }
                    &&& output@ == model::OutputView::Failure("no matches"@)
                    &&& note@ == note::note_about(
                        searched(input.pattern@, path) + " - no matches"@,
                        output@,
                    )
                } else if result.status != Some(0i32) {
                    &&& r matches SearchResult::Answer { output, note }
                    &&& output@ == model::OutputView::Failure(
                        if result.stderr@.len() == 0 {
                            "grep exited "@ + model::shown_status(result.status)
                        } else {
                            result.stderr@
                        },
                    )
                    &&& note@ == note::note_about(
                        "Search failed for \""@ + input.pattern@ + "\" in "@ + path,
                        output@,
                    )
                } else {
                    &&& r matches SearchResult::Show { matches, requests }
                    &&& match_views(matches@) == list
                    &&& request_views(requests@) == needed_lines(at_most(list, limit))
                }
            }),
    {
        let matches = parse_matches(result.stdout.as_str());
        let path = self.path_of(input);
        let pattern = input.pattern.as_str();
        proof {
            assert(match_views(matches@).len() == matches@.len());
        }
        let no_match = match result.status {
            Some(n) => n == 1,
            None => false,
        };
        if no_match && matches.len() == 0 {
            let mut summary = text::cat4("Searched \"", pattern, "\" in ", path.as_str());
            summary.push_str(" - no matches");
            let (output, note) = note::noted(
                summary.as_str(),
                ToolOutput::Failure { content: text::owned("no matches") },
            );
            return SearchResult::Answer { output, note };
        }
        let success = match result.status {
            Some(n) => n == 0,
            None => false,
        };
        if !success {
            let content = if result.stderr.as_str().is_empty() {
                text::cat2("grep exited ", model::show_status(result.status).as_str())
            } else {
                text::owned(result.stderr.as_str())
            };
            let summary = text::cat4("Search failed for \"", pattern, "\" in ", path.as_str());
            let (output, note) = note::noted(summary.as_str(), ToolOutput::Failure { content });
            return SearchResult::Answer { output, note };
        }
        let limit: usize = self.limit_of(input);
        let n: usize = if limit < matches.len() {
            limit
        } else {
            matches.len()
        };
        let requests = build_requests(&matches, n);
        proof {
            assert(match_views(matches@).take(n as int) =~= at_most(
                match_views(matches@),
                limit as nat,
            ));
        }
        SearchResult::Show { matches, requests }
    }

    /// Shows the matches with the lines that were read.
    pub fn show(
        &self,
        input: &GrepInput,
        result: &CommandOutput,
        matches: &Vec<GrepMatch>,
        files: &Vec<FileLines>,
    ) -> (r: (ToolOutput, NoteContent))
        requires
            all_read(
                at_most(
                    match_views(matches@),
                    result_limit(input.max_results, self.max_results) as nat,
                ),
                files@,
            ),
        ensures
            ({
                let list = match_views(matches@);
                let limit = result_limit(input.max_results, self.max_results) as nat;
                &&& r.0@ == grep_answer(list, limit, result.truncated, files@)
                &&& r.1@ == note::note_about(
                    if r.0@ is Failure {
                        "Search failed"@
                    } else {
                        searched(input.pattern@, search_path(text::opt_text(input.path))) + " - "@
                            + text::decimal(list.len()) + " matches"@
                    },
                    r.0@,
                )
            }),
    {
        let limit: usize = self.limit_of(input);
        let n: usize = if limit < matches.len() {
            limit
        } else {
            matches.len()
        };
        let ghost list = match_views(matches@);
        proof {
            assert(list.len() == matches@.len());
            assert(list.take(n as int) =~= at_most(list, limit as nat));
        }
        let mut lines = match show_matches(matches, n, files) {
            Ok(lines) => lines,
            Err(i) => {
                let mut content = text::cat3(
                    "grep result became stale while reading file context: ",
                    matches[i].path.as_str(),
                    ":",
                );
                content.push_str(text::usize_text(matches[i].line).as_str());
                return self.failed(content);
            },
        };
        if result.truncated || matches.len() > limit {
            text::push_text(&mut lines, "[results truncated]");
        }
        let content = text::join(lines.as_slice(), "\n");
        let mut summary = text::cat4(
            "Searched \"",
            input.pattern.as_str(),
            "\" in ",
            self.path_of(input).as_str(),
        );
        summary.push_str(" - ");
        summary.push_str(text::usize_text(matches.len()).as_str());
        summary.push_str(" matches");
        note::noted(summary.as_str(), ToolOutput::Success { content })
    }
}

pub struct ToolGrepPlugin {
    pub id: PluginId,
}

impl ToolGrepPlugin {
    pub fn new() -> (r: Self)
        ensures
            ids::is_random(r.id.0),
    {
        ToolGrepPlugin { id: PluginId(fresh()) }
    }

    pub fn name(&self) -> (r: &'static str)
        ensures
            r@ == "tool_grep"@,
    {
        "tool_grep"
    }
}

impl ToolGrep {
    /// How the tool is described to a provider; `schema` is that of its input.
    pub fn definition(&self, schema: Json) -> (r: ToolDefinition)
        ensures
            r.name@ == "grep"@,
            r.description@ == DESCRIPTION@,
            r.schema == schema,
            r.freeform is None,
    {
        ToolDefinition::new("grep", DESCRIPTION, schema)
    }
}

/// What a search reports as a match is read as one, with its path and its line; what it
/// reports besides is passed over. Matches keep the order in which they are reported.
pub proof fn law_matches_are_read(
    a: Seq<Seq<char>>,
    b: Seq<Seq<char>>,
    path: Seq<char>,
    line: u64,
    kind: Seq<char>,
    data: json::JsonView,
)
    requires
        line <= usize::MAX,
    ensures
        line_matches(a + b) == line_matches(a) + line_matches(b),
        event_match(
            json::JsonView::Object(
                seq![
                    ("type"@, json::JsonView::Text("match"@)),
                    (
                        "data"@,
                        json::JsonView::Object(
                            seq![
                                (
                                    "path"@,
                                    json::JsonView::Object(
                                        seq![("text"@, json::JsonView::Text(path))],
                                    ),
                                ),
                                (
                                    "line_number"@,
                                    json::JsonView::Number(json::NumberView::Unsigned(line)),
                                ),
                            ],
                        ),
                    ),
                ],
            ),
        ) == Some((path, line as nat)),
        kind != "match"@ ==> event_match(
            json::JsonView::Object(seq![("type"@, json::JsonView::Text(kind)), ("data"@, data)]),
        ) is None,
    decreases b.len(),
{
    if b.len() == 0 {
        assert(a + b =~= a);
        assert(line_matches(a) + Seq::<MatchView>::empty() =~= line_matches(a));
    } else {
        law_matches_are_read(a, b.drop_last(), path, line, kind, data);
        assert((a + b).drop_last() =~= a + b.drop_last());
        assert((a + b).last() == b.last());
        assert(line_matches(a + b) =~= line_matches(a) + line_matches(b));
    }
    reveal_strlit("type");
    reveal_strlit("data");
    reveal_strlit("path");
    reveal_strlit("line_number");
    assert("type"@[0] == 't' && "data"@[0] == 'd' && "path"@.len() == 4 && "line_number"@.len()
        == 11);
    reveal_with_fuel(json::field_from, 3);
}

/// Each match is shown in its turn, with its path and with a line of its file that has
/// its number: the anchor of that line and what the line says.
pub proof fn law_matches_are_shown(list: Seq<MatchView>, files: Seq<FileLines>, i: int)
    requires
        0 <= i < list.len(),
        all_read(list, files),
    ensures
        shown_matches(list, files) matches Ok(shown) ==> {
            &&& shown.len() == list.len()
            &&& exists|f: int, k: int|
                #![trigger files[f].lines@[k]]
                0 <= f < files.len() && 0 <= k < files[f].lines@.len() && paths::is_same(
                    files[f].path@,
                    list[i].0,
                ) && files[f].lines@[k].line_number == list[i].1 && shown[i] == list[i].0 + ":"@
                    + files[f].lines@[k].display_prefix@ + "|"@ + files[f].lines@[k].text@
        },
    decreases list.len(),
{
    let front = list.drop_last();
    let last = list.last();
    assert(list[list.len() - 1] == last);
    assert forall|j: int| 0 <= j < front.len() implies lines_read(files, (#[trigger] front[j]).0)
        is Some by {
        assert(front[j] == list[j]);
    }
    if let Ok(shown) = shown_matches(list, files) {
        let earlier = shown_matches(front, files)->Ok_0;
        if front.len() > 0 {
            law_matches_are_shown(front, files, 0);
        }
        assert(earlier.len() == front.len());
        if i < front.len() {
            law_matches_are_shown(front, files, i);
            assert(shown[i] == earlier[i]);
        } else {
            lemma_lines_read(files, last.0);
            let f = choose|f: int|
                0 <= f < files.len() && paths::is_same((#[trigger] files[f]).path@, last.0)
                    && lines_read(files, last.0) == Some(files[f].lines@);
            lemma_line_in(files[f].lines@, last.1);
            let k = choose|k: int|
                0 <= k < files[f].lines@.len() && (#[trigger] files[f].lines@[k]).line_number
                    == last.1 && line_in(files[f].lines@, last.1) == Some(files[f].lines@[k]);
            assert(files[f].lines@[k].line_number == last.1);
        }
    }
}

proof fn lemma_lines_read(files: Seq<FileLines>, path: Seq<char>)
    ensures
        lines_read(files, path) is Some ==> exists|f: int|
            0 <= f < files.len() && paths::is_same((#[trigger] files[f]).path@, path) && lines_read(
                files,
                path,
            ) == Some(files[f].lines@),
    decreases files.len(),
{
    if files.len() > 0 {
        if paths::is_same(files.last().path@, path) {
            assert(files[files.len() - 1] == files.last());
        } else {
            let front = files.drop_last();
            lemma_lines_read(front, path);
            if lines_read(front, path) is Some {
                let f = choose|f: int|
                    0 <= f < front.len() && paths::is_same((#[trigger] front[f]).path@, path)
                        && lines_read(front, path) == Some(front[f].lines@);
                assert(files[f] == front[f]);
            }
        }
    }
}

proof fn lemma_line_in(lines: Seq<ContextLine>, number: nat)
    ensures
        line_in(lines, number) is Some ==> exists|k: int|
            0 <= k < lines.len() && (#[trigger] lines[k]).line_number == number && line_in(
                lines,
                number,
            ) == Some(lines[k]),
    decreases lines.len(),
{
    if lines.len() > 0 {
        if lines.last().line_number == number {
            assert(lines[lines.len() - 1] == lines.last());
        } else {
            let front = lines.drop_last();
            lemma_line_in(front, number);
            if line_in(front, number) is Some {
                let k = choose|k: int|
                    0 <= k < front.len() && (#[trigger] front[k]).line_number == number && line_in(
                        front,
                        number,
                    ) == Some(front[k]);
                assert(lines[k] == front[k]);
            }
        }
    }
}

/// The search program gets the pattern and the place to look as they were asked for,
/// behind the mark that ends its options, and a filter exactly where one was given. No
/// more results are wanted than were asked for or are allowed.
pub proof fn law_searches_ask_for_the_pattern(input: GrepInput, most: usize)
    ensures
        ({
            let args = search_args(input);
            let n = args.len() as int;
            &&& n >= 3
            &&& args[n - 3] == "--"@
            &&& args[n - 2] == input.pattern@
            &&& text::opt_text(input.path) matches Some(p) ==> p.len() > 0 ==> args[n - 1]
                == p
            &&& text::opt_text(input.path) is None ==> args[n - 1] == "."@
            &&& text::opt_text(input.glob) matches Some(g) ==> args[n - 5] == "--glob"@ && args[n
                - 4] == g && n == 10
            &&& text::opt_text(input.glob) is None ==> n == 8
        }),
        result_limit(input.max_results, most) <= most,
        input.max_results matches Some(k) ==> result_limit(input.max_results, most) <= k,
        result_limit(input.max_results, most) == most || input.max_results == Some(
            result_limit(input.max_results, most),
        ),
{
}

/// The lines that are asked for of a file begin and end with a match in it.
pub proof fn law_no_needless_lines_are_read(list: Seq<MatchView>, path: Seq<char>)
    ensures
        needed_range(list, path) matches Some(r) ==> {
            &&& exists|i: int|
                0 <= i < list.len() && paths::is_same((#[trigger] list[i]).0, path) && list[i].1
                    == r.0
            &&& exists|i: int|
                0 <= i < list.len() && paths::is_same((#[trigger] list[i]).0, path) && list[i].1
                    == r.1
        },
    decreases list.len(),
{
    if list.len() > 0 {
        let front = list.drop_last();
        law_no_needless_lines_are_read(front, path);
        assert(list[list.len() - 1] == list.last());
        if let Some(r) = needed_range(front, path) {
            let i = choose|i: int|
                0 <= i < front.len() && paths::is_same((#[trigger] front[i]).0, path) && front[i].1
                    == r.0;
            let j = choose|j: int|
                0 <= j < front.len() && paths::is_same((#[trigger] front[j]).0, path) && front[j].1
                    == r.1;
            assert(list[i] == front[i] && list[j] == front[j]);
        }
    }
}

/// The answer shows the first matches up to the limit, each on its line; whether something
/// was left out stands at its end.
pub proof fn law_answers_show_the_first_matches(
    list: Seq<MatchView>,
    limit: nat,
    files: Seq<FileLines>,
    truncated: bool,
)
    ensures
        list.len() <= limit && !truncated ==> (shown_matches(list, files) matches Ok(lines)
            ==> grep_answer(list, limit, truncated, files) == model::OutputView::Success(
            text::joined(lines, seq!['\n']),
        )),
        list.len() <= limit && truncated ==> (shown_matches(list, files) matches Ok(lines)
            ==> grep_answer(list, limit, truncated, files) == model::OutputView::Success(
            text::joined(lines.push("[results truncated]"@), seq!['\n']),
        )),
        list.len() > limit ==> (shown_matches(list.take(limit as int), files) matches Ok(lines)
            ==> grep_answer(list, limit, truncated, files) == model::OutputView::Success(
            text::joined(lines.push("[results truncated]"@), seq!['\n']),
        )),
        list.len() <= limit && shown_matches(list, files) is Err ==> grep_answer(
            list,
            limit,
            truncated,
            files,
        ) is Failure,
{
    reveal_strlit("\n");
    assert("\n"@ =~= seq!['\n']);
}

} // verus!
