//! Creating files and replacing their whole content.
use crate::ids;
use crate::ids::fresh;
use crate::ids::{PluginId, ToolId};
use crate::json;
use crate::json::{Json, ObjectBuilder};
use crate::model;
use crate::model::{Error, FreeformParser, NoteContent, ToolDefinition, ToolOutput};
use crate::plugins::file_tools;
use crate::plugins::file_tools::Change;
use crate::text;
use vstd::prelude::*;
use vstd::string::StrSliceExecFns;

verus! {

/// The path and the content that a free-form request names: the path stands on
/// the first line, the content behind it.
pub open spec fn read_freeform(input: Seq<char>) -> Result<(Seq<char>, Seq<char>), Seq<char>> {
    match text::split_once(input, '\n') {
        None => Err("write freeform input requires a path line"@),
        Some((line, content)) => {
            let path = if line.len() > 0 && line.last() == '\r' {
                line.drop_last()
            } else {
                line
            };
            if path.len() == 0 {
                Err("write path must not be empty"@)
            } else {
                Ok((path, content))
            }
        },
    }
}

/// The input of the tool: a path and a content.
pub open spec fn write_input(path: Seq<char>, content: Seq<char>) -> json::JsonView {
    json::JsonView::Object(
        seq![
            ("path"@, json::JsonView::Text(path)),
            ("content"@, json::JsonView::Text(content)),
        ],
    )
}

/// Reads a free-form request.
pub fn parse_write_freeform(input: &str) -> (r: model::Result<Json>)
    ensures
        match read_freeform(input@) {
            Ok((path, content)) => r is Ok && r->Ok_0@ == write_input(path, content),
            Err(m) => r is Err && r->Err_0@ == model::ErrorView::Tool(m),
        },
{
    let (line, content) = match text::split_at_char(input, '\n') {
        Some(p) => p,
        None => return Err(Error::Tool(text::owned("write freeform input requires a path line"))),
    };
    let cs = text::to_chars(line);
    let n: usize = cs.len();
    let end: usize = if n > 0 && cs[n - 1] == '\r' {
        n - 1
    } else {
        n
    };
    let path = line.substring_char(0, end);
    proof {
        assert(line@.subrange(0, n as int) =~= line@);
        if end < n {
            assert(path@ =~= line@.drop_last());
        }
    }
    if path.is_empty() {
        return Err(Error::Tool(text::owned("write path must not be empty")));
    }
    let fields = ObjectBuilder::new().with("path", Json::text(path)).with(
        "content",
        Json::text(content),
    );
    assert(fields@ =~= seq![
        ("path"@, json::JsonView::Text(path@)),
        ("content"@, json::JsonView::Text(content@)),
    ]);
    Ok(fields.done())
}

pub const DESCRIPTION: &'static str = "Create a file or replace its entire UTF-8 content. Pass `{ \"path\": \"...\", \"content\": \"...\" }`.";

pub const FREEFORM_DESCRIPTION: &'static str = "Create a file or replace its entire UTF-8 content. Put the path on the first line and all file content after the first newline.";

/// A file and what it is to hold.
#[derive(Clone, Debug, PartialEq, Eq)]
pub struct WriteInput {
    pub path: String,
    pub content: String,
}

/// Creates files and replaces their content.
pub struct ToolWrite {
    pub id: ToolId,
}

impl Default for ToolWrite {
    fn default() -> (r: Self)
        ensures
            ids::is_random(r.id.0),
    {
        ToolWrite::new()
    }
}

impl ToolWrite {
    pub fn new() -> (r: Self)
        ensures
            ids::is_random(r.id.0),
    {
        ToolWrite { id: ToolId(fresh()) }
    }

    pub fn name(&self) -> (r: &'static str)
        ensures
            r@ == "write"@,
    {
        "write"
    }

    /// Checks a request.
    pub fn check(&self, input: &WriteInput) -> (r: model::Result<()>)
        ensures
            r is Ok == (input.path@.len() > 0),
            r matches Err(e) ==> e@ == model::ErrorView::Tool("write requires a non-empty path"@),
    {
        if input.path.as_str().is_empty() {
            return Err(Error::Tool(text::owned("write requires a non-empty path")));
        }
        Ok(())
    }

    /// The output and the note for a file that was written.
    pub fn conclude(&self, path: &str, change: Change) -> (r: model::Result<
        (ToolOutput, NoteContent),
    >)
        ensures
            match file_tools::concluded("Wrote "@ + path@, change) {
                Some(views) => r is Ok && (r->Ok_0).0@ == views.0 && (r->Ok_0).1@ == views.1,
                None => r is Err && r->Err_0@ == model::ErrorView::Cancelled,
            },
    {
        file_tools::conclude(text::cat2("Wrote ", path).as_str(), change)
    }
}

/// The plugin that offers the tool.
pub struct ToolWritePlugin {
    pub id: PluginId,
    pub tool: ToolWrite,
}

impl ToolWritePlugin {
    pub fn new() -> (r: Self)
        ensures
            ids::is_random(r.id.0),
            ids::is_random(r.tool.id.0),
    {
        ToolWritePlugin { id: PluginId(fresh()), tool: ToolWrite::new() }
    }

    pub fn name(&self) -> (r: &'static str)
        ensures
            r@ == "tool_write"@,
    {
        "tool_write"
    }
}

impl ToolWrite {
    /// How the tool is described where the model writes its input freely.
    pub fn freeform_description(&self) -> (r: &'static str)
        ensures
            r@ == FREEFORM_DESCRIPTION@,
    {
        FREEFORM_DESCRIPTION
    }

    /// How the tool is described to a provider; `schema` is that of its input.
    pub fn definition(&self, schema: Json) -> (r: ToolDefinition)
        ensures
            r.name@ == "write"@,
            r.description@ == DESCRIPTION@,
            r.schema == schema,
            r.freeform == Some(FreeformParser::Write),
    {
        ToolDefinition {
            name: text::owned("write"),
            description: text::owned(DESCRIPTION),
            schema,
            freeform: Some(FreeformParser::Write),
        }
    }
}

/// A request that is written freely is read as it is meant: the path is what stands on
/// the first line, the content all that follows. Without a second line, or without a
/// path, there is no request.
pub proof fn law_free_requests_are_read_back(path: Seq<char>, content: Seq<char>)
    requires
        !path.contains('\n'),
    ensures
        path.len() > 0 && path.last() != '\r' ==> read_freeform(path + seq!['\n'] + content) == Ok::<
            (Seq<char>, Seq<char>),
            Seq<char>,
        >((path, content)),
        path.len() > 0 ==> read_freeform(path + seq!['\r', '\n'] + content) == Ok::<
            (Seq<char>, Seq<char>),
            Seq<char>,
        >((path, content)),
        read_freeform(path) is Err,
        read_freeform(seq!['\n'] + content) is Err,
{
    let a = path + seq!['\n'] + content;
    let b = path + seq!['\r', '\n'] + content;
    let c = seq!['\n'] + content;
    let n = path.len() as int;
    assert forall|j: int| 0 <= j < n implies #[trigger] a[j] != '\n' by {
        assert(a[j] == path[j]);
    }
    assert forall|j: int| 0 <= j < n + 1 implies #[trigger] b[j] != '\n' by {
        if j < n {
            assert(b[j] == path[j]);
        }
    }
    assert forall|j: int| 0 <= j < n implies #[trigger] path[j] != '\n' by {
        assert(path.contains(path[j]));
    }
    text::lemma_index_of_is(a, '\n', n);
    text::lemma_index_of_is(b, '\n', n + 1);
    text::lemma_index_of_is(path, '\n', n);
    text::lemma_index_of_is(c, '\n', 0);
    assert(a.take(n) =~= path && a.skip(n + 1) =~= content);
    assert(b.take(n + 1) =~= path.push('\r') && b.skip(n + 2) =~= content);
    assert(path.push('\r').drop_last() =~= path);
    assert(c.take(0) =~= Seq::empty());
}

/// The input that is made of a request holds its path and its content under their names.
pub proof fn law_inputs_hold_path_and_content(path: Seq<char>, content: Seq<char>)
    ensures
        json::text_at(write_input(path, content), "path"@) == Some(path),
        json::text_at(write_input(path, content), "content"@) == Some(content),
{
    reveal_strlit("path");
    reveal_strlit("content");
    assert("path"@.len() == 4 && "content"@.len() == 7);
    reveal_with_fuel(json::field_from, 3);
}

} // verus!
