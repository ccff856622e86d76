//! What the tools that change whole files have in common.
use crate::json;
use crate::json::Json;
use crate::model;
use crate::model::{Error, NoteContent, ToolOutput};
use crate::text;
use crate::utils::note;
use vstd::prelude::*;

verus! {

/// What is known of a file, without following links.
#[derive(Clone, Copy, Debug, PartialEq, Eq, Structural)]
pub struct FileFacts {
    pub symlink: bool,
    pub file: bool,
    pub length: u64,
}

/// What was found out about a file.
#[derive(Clone, Debug, PartialEq, Eq)]
pub enum FileProbe {
    Missing,
    /// Nothing could be found out, and why.
    Failed(String),
    Found(FileFacts),
}

/// The path that a field of a request gives.
pub open spec fn given_path(input: json::JsonView, field: Seq<char>) -> Option<Seq<char>> {
    match json::text_at(input, field) {
        Some(p) => if p.len() == 0 {
            None
        } else {
            Some(p)
        },
        None => None,
    }
}

/// Reads the path that a field of a request gives.
pub fn require_path(input: &Json, field: &str, complaint: &str) -> (r: model::Result<String>)
    ensures
        match given_path(input@, field@) {
            Some(p) => r is Ok && r->Ok_0@ == p,
            None => r is Err && r->Err_0@ == model::ErrorView::Tool(complaint@),
        },
{
    match input.get_str(field) {
        Some(p) => {
            if p.is_empty() {
                return Err(Error::Tool(text::owned(complaint)));
            }
            Ok(text::owned(p))
        },
        None => Err(Error::Tool(text::owned(complaint))),
    }
}

/// How changing a file ended.
pub enum Change {
    Done,
    Cancelled,
    Failed(String),
}

/// The output and the note for a change that `summary` describes.
pub open spec fn concluded(summary: Seq<char>, change: Change) -> Option<
    (model::OutputView, model::NoteView),
> {
    match change {
        Change::Done => Some(
            (
                model::OutputView::Success(summary),
                note::note_about(summary, model::OutputView::Success(summary)),
            ),
        ),
        Change::Cancelled => None,
        Change::Failed(m) => Some(
            (
                model::OutputView::Failure(m@),
                note::note_about(summary, model::OutputView::Failure(m@)),
            ),
        ),
    }
}

/// The output and the note for a change that `summary` describes.
pub fn conclude(summary: &str, change: Change) -> (r: model::Result<(ToolOutput, NoteContent)>)
    ensures
        match concluded(summary@, change) {
            Some(views) => r is Ok && (r->Ok_0).0@ == views.0 && (r->Ok_0).1@ == views.1,
            None => r is Err && r->Err_0@ == model::ErrorView::Cancelled,
        },
{
    match change {
        Change::Done => Ok(
            note::noted(summary, ToolOutput::Success { content: text::owned(summary) }),
        ),
        Change::Cancelled => Err(Error::Cancelled),
        Change::Failed(m) => Ok(note::noted(summary, ToolOutput::Failure { content: m })),
    }
}

/// A change that was made is a success, one that failed gives its reason, and one that was
/// not wanted is answered by nothing. A path has to be given.
pub proof fn law_changes_are_reported(
    summary: Seq<char>,
    change: Change,
    input: json::JsonView,
    field: Seq<char>,
    path: Seq<char>,
)
    ensures
        change is Done ==> (concluded(summary, change) matches Some(c) && c.0
            == model::OutputView::Success(summary) && c.1 == model::NoteView::Subtle(summary)),
        change matches Change::Failed(m) ==> (concluded(summary, change) matches Some(c) && c.0
            == model::OutputView::Failure(m@) && c.1 is Alert),
        change is Cancelled <==> concluded(summary, change) is None,
        given_path(input, field) == Some(path) <==> json::text_at(input, field) == Some(path)
            && path.len() > 0,
{
}

} // verus!
