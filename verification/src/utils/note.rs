//! Notes about what tools did.
use crate::model;
use crate::model::{NoteContent, ToolOutput};
use crate::text;
use vstd::prelude::*;

verus! {

/// The first line of a failure, or a stand-in for an empty one.
pub open spec fn headline(content: Seq<char>) -> Seq<char> {
    let lines = text::lines_of(content);
    if lines.len() == 0 {
        "tool failed"@
    } else {
        lines[0]
    }
}

/// The note about an output: subtle for a success, an alert with the first line
/// of a failure, and an information for a stop.
pub open spec fn note_about(summary: Seq<char>, output: model::OutputView) -> model::NoteView {
    match output {
        model::OutputView::Success(_) => model::NoteView::Subtle(summary),
        model::OutputView::Failure(content) => model::NoteView::Alert(
            summary + ": "@ + headline(content),
        ),
        model::OutputView::Stop => model::NoteView::Info(summary),
    }
}

/// The note about an output.
pub fn output_note(summary: &str, output: &ToolOutput) -> (r: NoteContent)
    ensures
        r@ == note_about(summary@, output@),
{
    match output {
        ToolOutput::Success { .. } => NoteContent::Subtle { content: text::owned(summary) },
        ToolOutput::Failure { content } => {
            let lines = text::split_lines(content.as_str());
            proof {
                assert(lines@.len() == text::lines_of(content@).len());
                if lines@.len() > 0 {
                    assert(text::texts(lines@)[0] == lines@[0]@);
                }
            }
            let first = if lines.len() == 0 {
                "tool failed"
            } else {
                lines[0].as_str()
            };
            NoteContent::Alert { content: text::cat3(summary, ": ", first) }
        },
        ToolOutput::Stop => NoteContent::Info { content: text::owned(summary) },
    }
}

/// An output with the note about it.
pub fn noted(summary: &str, output: ToolOutput) -> (r: (ToolOutput, NoteContent))
    ensures
        r.0 == output,
        r.1@ == note_about(summary@, output@),
{
    let note = output_note(summary, &output);
    (output, note)
}

/// A note tells how a call went: what went well is said quietly, what failed loudly and
/// with the first line of the reason.
pub proof fn law_notes_tell_how_it_went(
    summary: Seq<char>,
    content: Seq<char>,
    line: Seq<char>,
    more: Seq<char>,
)
    requires
        !line.contains('\n'),
        line.len() == 0 || line.last() != '\r',
    ensures
        note_about(summary, model::OutputView::Success(content)) == model::NoteView::Subtle(summary),
        note_about(summary, model::OutputView::Stop) == model::NoteView::Info(summary),
        note_about(summary, model::OutputView::Failure(line + seq!['\n'] + more))
            == model::NoteView::Alert(summary + ": "@ + line),
        line.len() > 0 ==> note_about(summary, model::OutputView::Failure(line))
            == model::NoteView::Alert(summary + ": "@ + line),
        note_about(summary, model::OutputView::Failure(Seq::empty())) == model::NoteView::Alert(
            summary + ": "@ + "tool failed"@,
        ),
{
    let s = line + seq!['\n'] + more;
    let n = line.len() as int;
    assert forall|j: int| 0 <= j < n implies #[trigger] s[j] != '\n' by {
        assert(s[j] == line[j]);
        assert(line.contains(line[j]));
    }
    assert forall|j: int| 0 <= j < n implies #[trigger] line[j] != '\n' by {
        assert(line.contains(line[j]));
    }
    text::lemma_index_of_is(s, '\n', n);
    text::lemma_index_of_is(line, '\n', n);
    text::lemma_segments_step(s);
    text::law_line_endings_are_taken_off(line);
    assert(s.take(n + 1) =~= line.push('\n'));
    assert(text::segments(s)[0] == line.push('\n'));
    assert(text::lines_of(s)[0] == line);
    if n > 0 {
        assert(line.contains(line.last()));
        assert(text::segments(line) =~= seq![line]);
        assert(text::lines_of(line)[0] == line);
    }
    assert(text::lines_of(Seq::<char>::empty()).len() == 0);
}

} // verus!
