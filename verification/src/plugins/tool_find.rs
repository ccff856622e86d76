//! Finds files by their name, with the program `fd`.
use crate::ids;
use crate::ids::{fresh, PluginId, ToolId};
use crate::json;
use crate::json::Json;
use crate::model;
use crate::model::{
    CommandOutput, CommandSpec, Error, ToolDefinition, ToolInput, ToolOutput,
};
use crate::text;
use vstd::prelude::*;

verus! {

pub const DESCRIPTION: &'static str = "Find files by exact filename with fd and return their workdir-relative paths. Pass the filename as `name` (or `pattern`); `path` optionally limits the search root and `max_results` limits output.";

/// Finds files by their name.
pub struct ToolFind {
    pub id: ToolId,
    pub max_output_bytes: usize,
    pub max_results: usize,
}

impl Default for ToolFind {
    fn default() -> (r: Self)
        ensures
            ids::is_random(r.id.0),
            r.max_output_bytes == 128 * 1024,
            r.max_results == 500,
    {
        ToolFind::new()
    }
}

/// A request that was read.
pub struct FindRequest {
    pub name: String,
    pub path: String,
    pub max_results: usize,
}

pub ghost struct RequestView {
    pub name: Seq<char>,
    pub path: Seq<char>,
    pub max_results: usize,
}

impl View for FindRequest {
    type V = RequestView;

    open spec fn view(&self) -> RequestView {
        RequestView { name: self.name@, path: self.path@, max_results: self.max_results }
    }
}

/// The name that a request asks for.
pub open spec fn asked_name(input: json::JsonView) -> Option<Seq<char>> {
    match json::field(input, "name"@) {
        Some(v) => json::text_of(Some(v)),
        None => json::text_at(input, "pattern"@),
    }
}

/// Where a request wants to look.
pub open spec fn asked_path(input: json::JsonView) -> Seq<char> {
    match json::text_at(input, "path"@) {
        Some(p) => if p.len() == 0 {
            "."@
        } else {
            p
        },
        None => "."@,
    }
}

/// How many files a request wants at most, within the limit.
pub open spec fn asked_limit(input: json::JsonView, max: usize) -> usize {
    match json::number_of(json::field(input, "max_results"@)) {
        Some(n) => if (n as usize) <= max {
            n as usize
        } else {
            max
        },
        None => max,
    }
}

/// The lines that `fd` printed, as they are shown: at most `max`, without `./`.
pub open spec fn found_lines(lines: Seq<Seq<char>>, max: nat) -> Seq<Seq<char>> {
    Seq::new(
        if lines.len() <= max {
            lines.len()
        } else {
            max
        },
        |i: int| bare_line(lines[i]),
    )
}

pub open spec fn bare_line(line: Seq<char>) -> Seq<char> {
    if text::starts_with(line, "./"@) {
        line.skip(2)
    } else {
        line
    }
}

/// What a search leads to.
pub open spec fn found(
    status: Option<i32>,
    stdout: Seq<char>,
    stderr: Seq<char>,
    truncated: bool,
    max: nat,
) -> model::OutputView {
    if status == Some(1i32) && stdout.len() == 0 {
        model::OutputView::Failure("no files found"@)
    } else if status != Some(0i32) {
        model::OutputView::Failure(
            if stderr.len() == 0 {
                "find exited "@ + model::shown_status(status)
            } else {
                stderr
            },
        )
    } else {
        let lines = text::lines_of(stdout);
        let kept = found_lines(lines, max);
        model::OutputView::Success(
            text::joined(
                if truncated || lines.len() > max {
                    kept.push("[results truncated]"@)
                } else {
                    kept
                },
                "\n"@,
            ),
        )
    }
}

fn strip_here(line: &str) -> (r: String)
    ensures
        r@ == bare_line(line@),
{
    if text::begins(line, "./") {
        let cs = text::to_chars(line);
        proof {
            reveal_strlit("./");
            assert(cs@.subrange(2, cs@.len() as int) =~= line@.skip(2));
        }
        text::from_chars(vstd::slice::slice_subrange(cs.as_slice(), 2, cs.len()))
    } else {
        text::owned(line)
    }
}

impl ToolFind {
    pub fn new() -> (r: Self)
        ensures
            ids::is_random(r.id.0),
            r.max_output_bytes == 128 * 1024,
            r.max_results == 500,
    {
        ToolFind { id: ToolId(fresh()), max_output_bytes: 128 * 1024, max_results: 500 }
    }

    pub fn with_limits(self, max_results: usize, max_output_bytes: usize) -> (r: Self)
        ensures
            r.id == self.id,
            r.max_results == max_results,
            r.max_output_bytes == max_output_bytes,
    {
        ToolFind { id: self.id, max_output_bytes, max_results }
    }

    pub fn name(&self) -> (r: &'static str)
        ensures
            r@ == "find"@,
    {
        "find"
    }

    /// Reads a request.
    pub fn request(&self, input: &Json) -> (r: model::Result<FindRequest>)
        ensures
            if !(input@ is Object) {
                r is Err && r->Err_0@ == model::ErrorView::Tool("find input must be an object"@)
            } else {
                match asked_name(input@) {
                    None => r is Err && r->Err_0@ == model::ErrorView::Tool("find requires name"@),
                    Some(name) => r is Ok && r->Ok_0@ == (RequestView {
                        name,
                        path: asked_path(input@),
                        max_results: asked_limit(input@, self.max_results),
                    }),
                }
            },
    {
        if !input.is_object() {
            return Err(Error::Tool(text::owned("find input must be an object")));
        }
        let given = match input.get("name") {
            Some(v) => v.as_str(),
            None => input.get_str("pattern"),
        };
        let name = match given {
            Some(n) => text::owned(n),
            None => return Err(Error::Tool(text::owned("find requires name"))),
        };
        let path = match input.get_str("path") {
            Some(p) => if p.is_empty() {
                text::owned(".")
            } else {
                text::owned(p)
            },
            None => text::owned("."),
        };
        let max_results: usize = match input.get_u64("max_results") {
            Some(n) => {
                #[verifier::truncate]
                let asked: usize = n as usize;
                if asked <= self.max_results {
                    asked
                } else {
                    self.max_results
                }
            },
            None => self.max_results,
        };
        Ok(FindRequest { name, path, max_results })
    }

    /// The command that searches, or the answer to a request for no name.
    pub fn command(&self, request: &FindRequest) -> (r: core::result::Result<CommandSpec, ToolOutput>)
        ensures
            if request@.name.len() == 0 {
                r is Err && r->Err_0@ == model::OutputView::Failure("find name cannot be empty"@)
            } else {
                r is Ok && r->Ok_0@ == (model::CommandView {
                    program: "fd"@,
                    args: seq![
                        "--type"@,
                        "f"@,
                        "--hidden"@,
                        "--exclude"@,
                        ".git"@,
                        "--glob"@,
                        "--max-results"@,
                        text::decimal(request@.max_results as nat),
                        "--"@,
                        request@.name,
                        request@.path,
                    ],
                    cwd: None,
                    env: Seq::empty(),
                    max_output_bytes: Some(self.max_output_bytes),
                })
            },
    {
        if request.name.as_str().is_empty() {
            return Err(ToolOutput::Failure { content: text::owned("find name cannot be empty") });
        }
        let mut args = text::no_texts();
        let count = text::usize_text(request.max_results);
        text::push_all(
            &mut args,
            &[
                "--type",
                "f",
                "--hidden",
                "--exclude",
                ".git",
                "--glob",
                "--max-results",
                count.as_str(),
                "--",
                request.name.as_str(),
                request.path.as_str(),
            ],
        );
        proof {
            assert(text::texts(args@) =~= seq![
                "--type"@,
                "f"@,
                "--hidden"@,
                "--exclude"@,
                ".git"@,
                "--glob"@,
                "--max-results"@,
                text::decimal(request@.max_results as nat),
                "--"@,
                request@.name,
                request@.path,
            ]);
        }
        Ok(CommandSpec::plain("fd", args, Some(self.max_output_bytes)))
    }

    /// The answer to a request, by what the search printed.
    pub fn show(&self, request: &FindRequest, output: &CommandOutput) -> (r: ToolOutput)
        ensures
            r@ == found(
                output.status,
                output.stdout@,
                output.stderr@,
                output.truncated,
                request@.max_results as nat,
            ),
    {
        let nothing = match output.status {
            Some(n) => n == 1,
            None => false,
        };
        if nothing && output.stdout.as_str().is_empty() {
            return ToolOutput::Failure { content: text::owned("no files found") };
        }
        let succeeded = match output.status {
            Some(n) => n == 0,
            None => false,
        };
        if !succeeded {
            return ToolOutput::Failure {
                content: if output.stderr.as_str().is_empty() {
                    text::cat2("find exited ", model::show_status(output.status).as_str())
                } else {
                    text::owned(output.stderr.as_str())
                },
            };
        }
        let lines = text::split_lines(output.stdout.as_str());
        let ghost all = text::lines_of(output.stdout@);
        let max: usize = request.max_results;
        let mut kept = text::no_texts();
        let mut i: usize = 0;
        proof {
            assert(text::texts(kept@) =~= found_lines(all, max as nat).take(0));
        }
        while i < lines.len() && i < max
            invariant
                i <= lines@.len(),
                i <= max,
                text::texts(lines@) == all,
                text::texts(kept@) == found_lines(all, max as nat).take(i as int),
            decreases lines@.len() - i,
        {
            let ghost want = found_lines(all, max as nat);
            proof {
                assert(all[i as int] == lines@[i as int]@);
                assert(want.take(i + 1) =~= want.take(i as int).push(bare_line(all[i as int])));
            }
            text::push_string(&mut kept, strip_here(lines[i].as_str()));
            i += 1;
        }
        proof {
            assert(text::texts(lines@).len() == all.len());
            assert(found_lines(all, max as nat).take(i as int) =~= found_lines(all, max as nat));
        }
        if output.truncated || lines.len() > max {
            text::push_text(&mut kept, "[results truncated]");
        }
        ToolOutput::Success { content: text::join(kept.as_slice(), "\n") }
    }
}

/// The plugin that offers the tool.
pub struct ToolFindPlugin {
    pub id: PluginId,
    pub tool: ToolFind,
}

impl ToolFindPlugin {
    pub fn new() -> (r: Self)
        ensures
            ids::is_random(r.id.0),
            ids::is_random(r.tool.id.0),
            r.tool.max_output_bytes == 128 * 1024,
            r.tool.max_results == 500,
    {
        ToolFindPlugin { id: PluginId(fresh()), tool: ToolFind::new() }
    }

    /// The tool that the plugin offers: the same one each time.
    pub fn tool(&self) -> (r: &ToolFind)
        ensures
            *r == self.tool,
    {
        &self.tool
    }

    pub fn name(&self) -> (r: &'static str)
        ensures
            r@ == "tool_find"@,
    {
        "tool_find"
    }
}

impl ToolFind {
    /// What the model gave the tool, which takes an object and no text.
    pub fn input<'a>(&self, input: &'a ToolInput) -> (r: model::Result<&'a Json>)
        ensures
            match *input {
                ToolInput::Json(value) => r is Ok && *r->Ok_0 == value,
                ToolInput::Text(_) => r is Err && r->Err_0@ == model::ErrorView::Tool(
                    "find input must be an object"@,
                ),
            },
    {
        proof {
            reveal_strlit("find");
            reveal_strlit(" input must be an object");
            reveal_strlit("find input must be an object");
            assert("find"@ + " input must be an object"@ =~= "find input must be an object"@);
        }
        input.object("find")
    }

    /// How the tool is described to a provider; `schema` is that of its input.
    pub fn definition(&self, schema: Json) -> (r: ToolDefinition)
        ensures
            r.name@ == "find"@,
            r.description@ == DESCRIPTION@,
            r.schema == schema,
            r.freeform is None,
    {
        ToolDefinition::new("find", DESCRIPTION, schema)
    }
}

/// What the search found is shown line by line, without the mark of the directory that
/// it started in, as far as the limit allows.
pub proof fn law_found_files_are_shown(lines: Seq<Seq<char>>, max: nat, path: Seq<char>, i: int)
    requires
        0 <= i < lines.len(),
        i < max,
    ensures
        found_lines(lines, max).len() <= max,
        found_lines(lines, max).len() <= lines.len(),
        lines[i] == "./"@ + path ==> found_lines(lines, max)[i] == path,
        lines[i].len() == 0 || lines[i][0] != '.' ==> found_lines(lines, max)[i] == lines[i],
        i < found_lines(lines, max).len(),
{
    reveal_strlit("./");
    let line = lines[i];
    if line == "./"@ + path {
        assert(line.subrange(0, 2) =~= "./"@);
        assert(line.skip(2) =~= path);
    }
    if line.len() == 0 || line[0] != '.' {
        if text::starts_with(line, "./"@) {
            assert(line.subrange(0, 2)[0] == line[0]);
        }
    }
}

/// A search is a success exactly where the program says so. What it found then is all
/// in the answer, and whether something was left out stands at its end.
pub proof fn law_failed_searches_are_failures(
    status: Option<i32>,
    stdout: Seq<char>,
    stderr: Seq<char>,
    truncated: bool,
    max: nat,
)
    ensures
        found(status, stdout, stderr, truncated, max) is Success <==> status == Some(0i32),
        status != Some(0i32) && status != Some(1i32) && stderr.len() > 0 ==> found(
            status,
            stdout,
            stderr,
            truncated,
            max,
        ) == model::OutputView::Failure(stderr),
        status == Some(0i32) && !truncated && text::lines_of(stdout).len() <= max ==> found(
            status,
            stdout,
            stderr,
            truncated,
            max,
        ) == model::OutputView::Success(text::joined(found_lines(text::lines_of(stdout), max), "\n"@)),
{
}

/// What is asked for is read as it is meant: the name, the place, which is here where none
/// is given, and no more results than are allowed.
pub proof fn law_searches_are_read(input: json::JsonView, s: Seq<char>, n: u64, max: usize)
    ensures
        json::field(input, "name"@) == Some(json::JsonView::Text(s)) ==> asked_name(input) == Some(s),
        json::field(input, "name"@) is None && json::field(input, "pattern"@) == Some(
            json::JsonView::Text(s),
        ) ==> asked_name(input) == Some(s),
        json::field(input, "path"@) is None ==> asked_path(input) == "."@,
        json::field(input, "path"@) == Some(json::JsonView::Text(s)) && s.len() > 0 ==> asked_path(
            input,
        ) == s,
        asked_limit(input, max) <= max,
        json::field(input, "max_results"@) == Some(
            json::JsonView::Number(json::NumberView::Unsigned(n)),
        ) && n <= max ==> asked_limit(input, max) == n,
        json::field(input, "max_results"@) is None ==> asked_limit(input, max) == max,
{
}

} // verus!
