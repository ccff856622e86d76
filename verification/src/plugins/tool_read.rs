//! Reads a file and shows its lines with their anchors.
use crate::ids;
use crate::ids::{fresh, PluginId, ToolId};
use crate::json::Json;
use crate::model;
use crate::model::{Error, NoteContent, ToolDefinition, ToolOutput};
use crate::plugins::tool_grep::ContextLine;
use crate::text;
use crate::utils::note;
use vstd::prelude::*;

verus! {

pub const DESCRIPTION: &'static str = "Read a UTF-8 text file from the current workdir and return numbered lines in the form `<line anchor>|<content>`. `line_start` and `line_end` are optional inclusive line limits; reversed limits are normalized. Binary/NUL-containing files and requests beyond the configured size or line limits fail.";

/// A request to read a file.
#[derive(Clone, Debug, PartialEq, Eq)]
pub struct ReadInput {
    pub path: String,
    pub line_start: Option<usize>,
    pub line_end: Option<usize>,
}

/// Reads files.
pub struct ToolRead {
    pub id: ToolId,
    pub max_lines: usize,
    pub max_bytes: usize,
}

impl Default for ToolRead {
    fn default() -> (r: Self)
        ensures
            ids::is_random(r.id.0),
            r.max_lines == 2000,
            r.max_bytes == 256 * 1024,
    {
        ToolRead::new()
    }
}

/// The limits of a request, the lower one first.
pub open spec fn line_range(start: Option<usize>, end: Option<usize>) -> (
    Option<usize>,
    Option<usize>,
) {
    match (start, end) {
        (Some(s), Some(e)) => if s > e {
            (Some(e), Some(s))
        } else {
            (start, end)
        },
        _ => (start, end),
    }
}

/// How the limits are shown behind the path.
pub open spec fn range_text(range: (Option<usize>, Option<usize>)) -> Seq<char> {
    match range.1 {
        Some(end) => ":"@ + text::decimal(
            match range.0 {
                Some(start) => start as nat,
                None => 1,
            },
        ) + "-"@ + text::decimal(end as nat),
        None => match range.0 {
            Some(start) => ":"@ + text::decimal(start as nat) + "-"@,
            None => Seq::empty(),
        },
    }
}

/// The lines of a file as they are shown.
pub open spec fn shown_lines(lines: Seq<ContextLine>) -> Seq<Seq<char>> {
    lines.map_values(|l: ContextLine| l.display_prefix@ + "|"@ + l.text@)
}

/// Why a file could not be read.
pub enum ReadFailure {
    /// The working directory gave this reason; the second is a path that may have
    /// been meant.
    Workdir(String, Option<String>),
    /// The request asks for too much, or for what is no text.
    Tool(String),
}

/// The answer to a request that failed.
pub open spec fn failure_text(failure: ReadFailure) -> Seq<char> {
    match failure {
        ReadFailure::Workdir(message, None) => message@,
        ReadFailure::Workdir(message, Some(path)) => message@ + "\nDid you mean? "@ + path@,
        ReadFailure::Tool(message) => message@,
    }
}

impl ToolRead {
    pub fn new() -> (r: Self)
        ensures
            ids::is_random(r.id.0),
            r.max_lines == 2000,
            r.max_bytes == 256 * 1024,
    {
        ToolRead { id: ToolId(fresh()), max_lines: 2000, max_bytes: 256 * 1024 }
    }

    pub fn with_limits(self, max_lines: usize, max_bytes: usize) -> (r: Self)
        ensures
            r.id == self.id,
            r.max_lines == max_lines,
            r.max_bytes == max_bytes,
    {
        ToolRead { id: self.id, max_lines, max_bytes }
    }

    pub fn name(&self) -> (r: &'static str)
        ensures
            r@ == "read"@,
    {
        "read"
    }

    /// Checks a request: the lines that it asks for.
    pub fn range(&self, input: &ReadInput) -> (r: model::Result<(Option<usize>, Option<usize>)>)
        ensures
            if input.path@.len() == 0 {
                r is Err && r->Err_0@ == model::ErrorView::Tool("read requires path"@)
            } else {
                r == Ok::<(Option<usize>, Option<usize>), Error>(
                    line_range(input.line_start, input.line_end),
                )
            },
    {
        if input.path.as_str().is_empty() {
            return Err(Error::Tool(text::owned("read requires path")));
        }
        Ok(
            match (input.line_start, input.line_end) {
                (Some(start), Some(end)) => if start > end {
                    (Some(end), Some(start))
                } else {
                    (Some(start), Some(end))
                },
                range => range,
            },
        )
    }

    /// The answer to a request that failed.
    pub fn failed(&self, failure: ReadFailure) -> (r: (ToolOutput, NoteContent))
        ensures
            r.0@ == model::OutputView::Failure(failure_text(failure)),
            r.1@ == note::note_about("Read failed"@, r.0@),
    {
        let content = match failure {
            ReadFailure::Workdir(message, None) => message,
            ReadFailure::Workdir(message, Some(path)) => text::cat3(
                message.as_str(),
                "\nDid you mean? ",
                path.as_str(),
            ),
            ReadFailure::Tool(message) => message,
        };
        note::noted("Read failed", ToolOutput::Failure { content })
    }

    /// The answer to a request, by the lines that were read.
    pub fn show(&self, input: &ReadInput, lines: &[ContextLine]) -> (r: (ToolOutput, NoteContent))
        ensures
            r.0@ == model::OutputView::Success(text::joined(shown_lines(lines@), "\n"@)),
            r.1@ == model::NoteView::Subtle(
                "Read "@ + input.path@ + range_text(line_range(input.line_start, input.line_end)),
            ),
    {
        let ghost all = shown_lines(lines@);
        let mut shown = text::no_texts();
        let mut i: usize = 0;
        proof {
            assert(all.take(0) =~= Seq::empty());
        }
        while i < lines.len()
            invariant
                i <= lines@.len(),
                all == shown_lines(lines@),
                text::texts(shown@) == all.take(i as int),
            decreases lines@.len() - i,
        {
            let line = text::cat3(lines[i].display_prefix.as_str(), "|", lines[i].text.as_str());
            proof {
                assert(all.take(i + 1) =~= all.take(i as int).push(line@));
            }
            text::push_string(&mut shown, line);
            i += 1;
        }
        proof {
            assert(all.take(i as int) =~= all);
        }
        let (start, end) = match (input.line_start, input.line_end) {
            (Some(start), Some(end)) => if start > end {
                (Some(end), Some(start))
            } else {
                (Some(start), Some(end))
            },
            range => range,
        };
        let range = match end {
            Some(end) => {
                let first: usize = match start {
                    Some(start) => start,
                    None => 1,
                };
                text::cat4(
                    ":",
                    text::usize_text(first).as_str(),
                    "-",
                    text::usize_text(end).as_str(),
                )
            },
            None => match start {
                Some(start) => text::cat3(":", text::usize_text(start).as_str(), "-"),
                None => String::new(),
            },
        };
        proof {
            assert(range@ == range_text(line_range(input.line_start, input.line_end)));
        }
        let output = ToolOutput::Success { content: text::join(shown.as_slice(), "\n") };
        let summary = text::cat3("Read ", input.path.as_str(), range.as_str());
        note::noted(summary.as_str(), output)
    }
}

/// A range never starts behind its end, and holds the same limits.
pub proof fn law_ranges_are_ordered(start: Option<usize>, end: Option<usize>)
    ensures
        line_range(start, end) == (start, end) || line_range(start, end) == (end, start),
        (line_range(start, end).0 is Some && line_range(start, end).1 is Some) ==> line_range(
            start,
            end,
        ).0->0 <= line_range(start, end).1->0,
{
}

/// The plugin that offers the tool.
pub struct ToolReadPlugin {
    pub id: PluginId,
}

impl ToolReadPlugin {
    pub fn new() -> (r: Self)
        ensures
            ids::is_random(r.id.0),
    {
        ToolReadPlugin { id: PluginId(fresh()) }
    }

    pub fn name(&self) -> (r: &'static str)
        ensures
            r@ == "tool_read"@,
    {
        "tool_read"
    }
}

impl ToolRead {
    /// How the tool is described to a provider; `schema` is that of its input.
    pub fn definition(&self, schema: Json) -> (r: ToolDefinition)
        ensures
            r.name@ == "read"@,
            r.description@ == DESCRIPTION@,
            r.schema == schema,
            r.freeform is None,
    {
        ToolDefinition::new("read", DESCRIPTION, schema)
    }
}

/// A line is shown with its anchor before it, from which it can be told apart again.
pub proof fn law_shown_lines_are_read_back(lines: Seq<ContextLine>, i: int)
    requires
        0 <= i < lines.len(),
        !lines[i].display_prefix@.contains('|'),
    ensures
        shown_lines(lines).len() == lines.len(),
        text::split_once(shown_lines(lines)[i], '|') == Some(
            (lines[i].display_prefix@, lines[i].text@),
        ),
{
    reveal_strlit("|");
    let prefix = lines[i].display_prefix@;
    let shown = shown_lines(lines)[i];
    assert(shown == prefix + "|"@ + lines[i].text@);
    assert forall|j: int| 0 <= j < prefix.len() implies #[trigger] shown[j] != '|' by {
        assert(shown[j] == prefix[j]);
    }
    text::lemma_index_of_is(shown, '|', prefix.len() as int);
    assert(shown.take(prefix.len() as int) =~= prefix);
    assert(shown.skip(prefix.len() as int + 1) =~= lines[i].text@);
}

/// Of a request with two limits both are kept, whichever way round they were given.
pub proof fn law_limits_may_be_reversed(a: usize, b: usize)
    ensures
        line_range(Some(a), Some(b)) == line_range(Some(b), Some(a)),
        a <= b ==> line_range(Some(b), Some(a)) == (Some(a), Some(b)),
        line_range(Some(a), None) == (Some(a), None::<usize>),
        line_range(None, Some(b)) == (None::<usize>, Some(b)),
        line_range(None, None) == (None::<usize>, None::<usize>),
{
}

/// The lines that were asked for are told as they were asked for.
pub proof fn law_ranges_are_told(a: usize, b: usize)
    ensures
        range_text((Some(a), Some(b))) == ":"@ + text::decimal(a as nat) + "-"@ + text::decimal(
            b as nat,
        ),
        range_text((Some(a), None)) == ":"@ + text::decimal(a as nat) + "-"@,
        range_text((None, Some(b))) == ":"@ + text::decimal(1) + "-"@ + text::decimal(b as nat),
        range_text((None, None)).len() == 0,
{
}

} // verus!
