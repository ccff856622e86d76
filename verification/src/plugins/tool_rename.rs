//! Renames or moves a file.
use crate::ids;
use crate::ids::{fresh, PluginId, ToolId};
use crate::json;
use crate::json::{Json, ObjectBuilder};
use crate::model;
use crate::model::{NoteContent, ToolDefinition, ToolOutput};
use crate::plugins::file_tools;
use crate::plugins::file_tools::Change;
use crate::text;
use vstd::prelude::*;

verus! {

pub const DESCRIPTION: &'static str = "Rename or move one file. Pass `{ \"from\": \"...\", \"to\": \"...\" }`.";

/// Renames or moves a file.
pub struct ToolRename {
    pub id: ToolId,
}

impl Default for ToolRename {
    fn default() -> (r: Self)
        ensures
            ids::is_random(r.id.0),
    {
        ToolRename::new()
    }
}

impl ToolRename {
    pub fn new() -> (r: Self)
        ensures
            ids::is_random(r.id.0),
    {
        ToolRename { id: ToolId(fresh()) }
    }

    /// What a provider is told of the tool.
    pub fn definition(&self) -> (r: ToolDefinition)
        ensures
            r.name@ == "rename"@,
            r.description@ == DESCRIPTION@,
            r.schema@ == json::object_type(
                seq![("from"@, json::string_type()), ("to"@, json::string_type())],
                seq!["from"@, "to"@],
            ),
            r.freeform is None,
    {
        let properties = ObjectBuilder::new().with("from", json::string_schema()).with(
            "to",
            json::string_schema(),
        );
        proof {
            assert(properties@ =~= seq![
                ("from"@, json::string_type()),
                ("to"@, json::string_type()),
            ]);
            assert(text::slice_texts(["from", "to"]@) =~= seq!["from"@, "to"@]);
        }
        ToolDefinition {
            name: text::owned("rename"),
            description: text::owned(DESCRIPTION),
            schema: json::object_schema(properties, &["from", "to"]),
            freeform: None,
        }
    }

    /// The file that is to be moved, and where to.
    pub fn targets(&self, input: &Json) -> (r: model::Result<(String, String)>)
        ensures
            match (
                file_tools::given_path(input@, "from"@),
                file_tools::given_path(input@, "to"@),
            ) {
                (None, _) => r is Err && r->Err_0@ == model::ErrorView::Tool(
                    "rename requires a non-empty from path"@,
                ),
                (Some(_), None) => r is Err && r->Err_0@ == model::ErrorView::Tool(
                    "rename requires a non-empty to path"@,
                ),
                (Some(from), Some(to)) => r is Ok && (r->Ok_0).0@ == from && (r->Ok_0).1@ == to,
            },
    {
        let from = match file_tools::require_path(
            input,
            "from",
            "rename requires a non-empty from path",
        ) {
            Ok(p) => p,
            Err(e) => return Err(e),
        };
        match file_tools::require_path(input, "to", "rename requires a non-empty to path") {
            Ok(to) => Ok((from, to)),
            Err(e) => Err(e),
        }
    }

    /// The output and the note for a move.
    pub fn conclude(&self, from: &str, to: &str, change: Change) -> (r: model::Result<
        (ToolOutput, NoteContent),
    >)
        ensures
            match file_tools::concluded("Renamed "@ + from@ + " to "@ + to@, change) {
                Some(views) => r is Ok && (r->Ok_0).0@ == views.0 && (r->Ok_0).1@ == views.1,
                None => r is Err && r->Err_0@ == model::ErrorView::Cancelled,
            },
    {
        file_tools::conclude(text::cat4("Renamed ", from, " to ", to).as_str(), change)
    }
}

/// The plugin that offers the tool.
pub struct ToolRenamePlugin {
    pub id: PluginId,
    pub tool: ToolRename,
}

impl ToolRenamePlugin {
    pub fn new() -> (r: Self)
        ensures
            ids::is_random(r.id.0),
            ids::is_random(r.tool.id.0),
    {
        ToolRenamePlugin { id: PluginId(fresh()), tool: ToolRename::new() }
    }

    pub fn name(&self) -> (r: &'static str)
        ensures
            r@ == "tool_rename"@,
    {
        "tool_rename"
    }
}

} // verus!
