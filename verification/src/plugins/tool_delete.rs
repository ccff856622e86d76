//! Deletes a file.
use crate::ids;
use crate::ids::{fresh, PluginId, ToolId};
use crate::json;
use crate::json::{Json, ObjectBuilder};
use crate::model;
use crate::model::{NoteContent, ToolDefinition, ToolOutput};
use crate::plugins::file_tools;
use crate::plugins::file_tools::Change;
use crate::text;
use vstd::prelude::*;

verus! {

pub const DESCRIPTION: &'static str = "Delete one file. Pass `{ \"path\": \"...\" }`.";

/// Deletes a file.
pub struct ToolDelete {
    pub id: ToolId,
}

impl Default for ToolDelete {
    fn default() -> (r: Self)
        ensures
            ids::is_random(r.id.0),
    {
        ToolDelete::new()
    }
}

impl ToolDelete {
    pub fn new() -> (r: Self)
        ensures
            ids::is_random(r.id.0),
    {
        ToolDelete { id: ToolId(fresh()) }
    }

    /// What a provider is told of the tool.
    pub fn definition(&self) -> (r: ToolDefinition)
        ensures
            r.name@ == "delete"@,
            r.description@ == DESCRIPTION@,
            r.schema@ == json::object_type(seq![("path"@, json::string_type())], seq!["path"@]),
            r.freeform is None,
    {
        let properties = ObjectBuilder::new().with("path", json::string_schema());
        proof {
            assert(properties@ =~= seq![("path"@, json::string_type())]);
            assert(text::slice_texts(["path"]@) =~= seq!["path"@]);
        }
        ToolDefinition {
            name: text::owned("delete"),
            description: text::owned(DESCRIPTION),
            schema: json::object_schema(properties, &["path"]),
            freeform: None,
        }
    }

    /// The file that is to be deleted.
    pub fn target(&self, input: &Json) -> (r: model::Result<String>)
        ensures
            match file_tools::given_path(input@, "path"@) {
                Some(p) => r is Ok && r->Ok_0@ == p,
                None => r is Err && r->Err_0@ == model::ErrorView::Tool(
                    "delete requires a non-empty path"@,
                ),
            },
    {
        file_tools::require_path(input, "path", "delete requires a non-empty path")
    }

    /// The output and the note for a deletion.
    pub fn conclude(&self, path: &str, change: Change) -> (r: model::Result<
        (ToolOutput, NoteContent),
    >)
        ensures
            match file_tools::concluded("Deleted "@ + path@, change) {
                Some(views) => r is Ok && (r->Ok_0).0@ == views.0 && (r->Ok_0).1@ == views.1,
                None => r is Err && r->Err_0@ == model::ErrorView::Cancelled,
            },
    {
        file_tools::conclude(text::cat2("Deleted ", path).as_str(), change)
    }
}

/// The plugin that offers the tool.
pub struct ToolDeletePlugin {
    pub id: PluginId,
    pub tool: ToolDelete,
}

impl ToolDeletePlugin {
    pub fn new() -> (r: Self)
        ensures
            ids::is_random(r.id.0),
            ids::is_random(r.tool.id.0),
    {
        ToolDeletePlugin { id: PluginId(fresh()), tool: ToolDelete::new() }
    }

    pub fn name(&self) -> (r: &'static str)
        ensures
            r@ == "tool_delete"@,
    {
        "tool_delete"
    }
}

} // verus!
