//! The parts of the screen as rows of text.
use crate::text;
use crate::ui::state;
use crate::ui::state::{TranscriptEntry, TranscriptKind, UiState};
use vstd::prelude::*;
use vstd::string::StrSliceExecFns;

verus! {

#[derive(Clone, Copy, Debug, PartialEq, Eq, Structural)]
pub enum FragmentTone {
    Normal,
    Accent,
    Muted,
    Warning,
    Error,
}

#[derive(Clone, Debug, PartialEq, Eq)]
pub struct FragmentLine {
    pub tone: FragmentTone,
    pub text: String,
}

pub open spec fn line_views(list: Seq<FragmentLine>) -> Seq<(FragmentTone, Seq<char>)> {
    Seq::new(list.len(), |i: int| (list[i].tone, list[i].text@))
}

/// A host-neutral projection of immutable UI state into display rows.
pub trait Fragment {
    fn rows(&self, state: &UiState, width: usize) -> (r: Vec<FragmentLine>);
}

fn push_line(list: &mut Vec<FragmentLine>, tone: FragmentTone, text: String)
    ensures
        line_views(final(list)@) == line_views(old(list)@).push((tone, text@)),
{
    let ghost before = line_views(list@);
    let ghost shown = text@;
    list.push(FragmentLine { tone, text });
    proof {
        assert(line_views(list@) =~= before.push((tone, shown)));
    }
}

fn no_lines() -> (r: Vec<FragmentLine>)
    ensures
        line_views(r@) == Seq::<(FragmentTone, Seq<char>)>::empty(),
{
    let r: Vec<FragmentLine> = Vec::new();
    proof {
        assert(line_views(r@) =~= Seq::empty());
    }
    r
}

// ---------------------------------------------------------------------------
// The transcript
// ---------------------------------------------------------------------------

pub struct TranscriptFragment;

/// How an entry of the transcript is labelled.
pub open spec fn label_of(kind: TranscriptKind) -> (Seq<char>, FragmentTone) {
    match kind {
        TranscriptKind::User => ("you"@, FragmentTone::Accent),
        TranscriptKind::Assistant => ("assistant"@, FragmentTone::Normal),
        TranscriptKind::Reasoning => ("reasoning"@, FragmentTone::Muted),
        TranscriptKind::Tool => ("tool"@, FragmentTone::Warning),
        TranscriptKind::Error => ("error"@, FragmentTone::Error),
        TranscriptKind::System => ("system"@, FragmentTone::Muted),
    }
}

/// The row of an entry.
pub open spec fn entry_row(entry: (TranscriptKind, Seq<char>)) -> (FragmentTone, Seq<char>) {
    (label_of(entry.0).1, label_of(entry.0).0 + "> "@ + entry.1)
}

fn label(kind: TranscriptKind) -> (r: (&'static str, FragmentTone))
    ensures
        (r.0@, r.1) == label_of(kind),
{
    match kind {
        TranscriptKind::User => ("you", FragmentTone::Accent),
        TranscriptKind::Assistant => ("assistant", FragmentTone::Normal),
        TranscriptKind::Reasoning => ("reasoning", FragmentTone::Muted),
        TranscriptKind::Tool => ("tool", FragmentTone::Warning),
        TranscriptKind::Error => ("error", FragmentTone::Error),
        TranscriptKind::System => ("system", FragmentTone::Muted),
    }
}

impl Fragment for TranscriptFragment {
    fn rows(&self, state: &UiState, width: usize) -> (r: Vec<FragmentLine>)
        ensures
            line_views(r@) == state@.transcript.map_values(
                |e: (TranscriptKind, Seq<char>)| entry_row(e),
            ),
    {
        let ghost wanted = state@.transcript.map_values(
            |e: (TranscriptKind, Seq<char>)| entry_row(e),
        );
        let list: &Vec<TranscriptEntry> = &state.transcript;
        let mut rows = no_lines();
        let mut i: usize = 0;
        proof {
            assert(wanted.take(0) =~= Seq::empty());
        }
        while i < list.len()
            invariant
                i <= list@.len(),
                wanted.len() == list@.len(),
                forall|k: int|
                    0 <= k < list@.len() ==> #[trigger] wanted[k] == entry_row(
                        (list@[k].kind, list@[k].text@),
                    ),
                line_views(rows@) == wanted.take(i as int),
            decreases list@.len() - i,
        {
            let (name, tone) = label(list[i].kind);
            let shown = text::cat3(name, "> ", list[i].text.as_str());
            proof {
                assert(wanted.take(i + 1) =~= wanted.take(i as int).push(wanted[i as int]));
            }
            push_line(&mut rows, tone, shown);
            i += 1;
        }
        proof {
            assert(wanted.take(i as int) =~= wanted);
        }
        rows
    }
}

// ---------------------------------------------------------------------------
// The bar above the transcript
// ---------------------------------------------------------------------------

pub struct EditBarFragment;

/// The rows that tell provider, model and mode: one where they fit, else two.
pub open spec fn editbar_rows(
    provider: Seq<char>,
    model: Seq<char>,
    mode: Seq<char>,
    width: nat,
) -> Seq<(FragmentTone, Seq<char>)> {
    let first = provider + " / "@ + model;
    let second = "mode: "@ + mode;
    let whole = first + "  "@ + second;
    if width >= whole.len() {
        seq![(FragmentTone::Accent, whole)]
    } else {
        seq![(FragmentTone::Accent, first), (FragmentTone::Muted, second)]
    }
}

impl Fragment for EditBarFragment {
    fn rows(&self, state: &UiState, width: usize) -> (r: Vec<FragmentLine>)
        ensures
            line_views(r@) == editbar_rows(
                state@.provider,
                state@.model,
                state@.mode,
                width as nat,
            ),
    {
        let first = text::cat3(state.provider.as_str(), " / ", state.model.as_str());
        let second = text::cat2("mode: ", state.mode.as_str());
        let whole = text::cat3(first.as_str(), "  ", second.as_str());
        let ghost wanted = editbar_rows(state@.provider, state@.model, state@.mode, width as nat);
        let length: usize = whole.as_str().unicode_len();
        let mut rows = no_lines();
        if width >= length {
            push_line(&mut rows, FragmentTone::Accent, whole);
        } else {
            push_line(&mut rows, FragmentTone::Accent, first);
            push_line(&mut rows, FragmentTone::Muted, second);
        }
        proof {
            assert(line_views(rows@) =~= wanted);
        }
        rows
    }
}

// ---------------------------------------------------------------------------
// The status
// ---------------------------------------------------------------------------

pub const HELP: &'static str = "Enter send | Alt/Shift+Enter newline | Ctrl-C cancel/exit | Ctrl-D exit";

pub struct StatusFragment {
    pub active_command: bool,
}

/// The status, with help where there is room for it.
pub open spec fn status_row(status: Seq<char>, width: nat) -> Seq<char> {
    if width >= text::utf8_len(status) + text::utf8_len(HELP@) + 3 {
        status + " | "@ + HELP@
    } else {
        status
    }
}

impl Fragment for StatusFragment {
    fn rows(&self, state: &UiState, width: usize) -> (r: Vec<FragmentLine>)
        ensures
            line_views(r@) == seq![
                (
                    if state@.active_turn || self.active_command {
                        FragmentTone::Warning
                    } else {
                        FragmentTone::Muted
                    },
                    status_row(state@.status, width as nat),
                ),
            ],
    {
        let status = state.status.as_str();
        let needed: u128 = text::byte_len(status) as u128 + text::byte_len(HELP) as u128 + 3;
        let shown = if width as u128 >= needed {
            text::cat3(status, " | ", HELP)
        } else {
            text::owned(status)
        };
        let tone = if state.active_turn || self.active_command {
            FragmentTone::Warning
        } else {
            FragmentTone::Muted
        };
        let mut rows = no_lines();
        let ghost row = (tone, shown@);
        push_line(&mut rows, tone, shown);
        proof {
            assert(line_views(rows@) =~= seq![row]);
        }
        rows
    }
}

// ---------------------------------------------------------------------------
// Suggestions
// ---------------------------------------------------------------------------

/// What is known of a command.
#[derive(Clone, Debug, PartialEq, Eq)]
pub struct CommandDescriptor {
    pub name: String,
    pub description: String,
    pub usage: String,
}

/// The commands that what was typed may mean, and which of them is selected.
pub struct SuggestionFragment {
    pub suggestions: Vec<CommandDescriptor>,
    pub selected: usize,
}

/// The first suggestion that is shown.
pub open spec fn first_shown(selected: int) -> int {
    if selected > 4 {
        selected - 4
    } else {
        0
    }
}

/// How many suggestions are shown.
pub open spec fn shown_count(count: int, selected: int) -> int {
    let left = count - first_shown(selected);
    if left <= 0 {
        0
    } else if left < 5 {
        left
    } else {
        5
    }
}

/// The row of a suggestion.
pub open spec fn suggestion_row(command: CommandDescriptor, selected: bool) -> (
    FragmentTone,
    Seq<char>,
) {
    (
        if selected {
            FragmentTone::Accent
        } else {
            FragmentTone::Muted
        },
        (if selected {
            ">"@
        } else {
            " "@
        }) + " /"@ + command.name@ + "  "@ + command.description@ + "  Usage: "@ + command.usage@,
    )
}

/// The rows of the suggestions.
pub open spec fn suggestion_rows(commands: Seq<CommandDescriptor>, selected: int) -> Seq<
    (FragmentTone, Seq<char>),
> {
    Seq::new(
        shown_count(commands.len() as int, selected) as nat,
        |i: int|
            suggestion_row(
                commands[first_shown(selected) + i],
                first_shown(selected) + i == selected,
            ),
    )
}

impl Fragment for SuggestionFragment {
    fn rows(&self, state: &UiState, width: usize) -> (r: Vec<FragmentLine>)
        ensures
            line_views(r@) == suggestion_rows(self.suggestions@, self.selected as int),
    {
        let ghost wanted = suggestion_rows(self.suggestions@, self.selected as int);
        let start: usize = if self.selected > 4 {
            self.selected - 4
        } else {
            0
        };
        let count: usize = self.suggestions.len();
        let mut rows = no_lines();
        let mut shown: usize = 0;
        proof {
            assert(wanted.take(0) =~= Seq::empty());
        }
        while shown < 5 && start < count && shown < count - start
            invariant
                shown <= 5,
                count == self.suggestions@.len(),
                start == first_shown(self.selected as int),
                shown <= wanted.len(),
                wanted == suggestion_rows(self.suggestions@, self.selected as int),
                line_views(rows@) == wanted.take(shown as int),
            decreases 5 - shown,
        {
            let command = &self.suggestions[start + shown];
            let selected = start + shown == self.selected;
            let (mark, tone) = if selected {
                (">", FragmentTone::Accent)
            } else {
                (" ", FragmentTone::Muted)
            };
            let head = text::cat4(mark, " /", command.name.as_str(), "  ");
            let line = text::cat4(
                head.as_str(),
                command.description.as_str(),
                "  Usage: ",
                command.usage.as_str(),
            );
            proof {
                assert(line@ =~= wanted[shown as int].1);
                assert(wanted.take(shown + 1) =~= wanted.take(shown as int).push(
                    wanted[shown as int],
                ));
            }
            push_line(&mut rows, tone, line);
            shown += 1;
        }
        proof {
            assert(wanted.take(shown as int) =~= wanted);
        }
        rows
    }
}

/// The selected suggestion is among those that are shown.
pub proof fn law_the_selection_is_shown(count: int, selected: int)
    requires
        0 <= selected < count,
    ensures
        first_shown(selected) <= selected < first_shown(selected) + shown_count(count, selected),
        shown_count(count, selected) <= 5,
{
}

/// An entry tells who speaks and what is said; every speaker has a name of its own.
pub proof fn law_speakers_are_told(t: Seq<char>)
    ensures
        entry_row((TranscriptKind::User, t)) == (FragmentTone::Accent, "you> "@ + t),
        entry_row((TranscriptKind::Assistant, t)) == (FragmentTone::Normal, "assistant> "@ + t),
        entry_row((TranscriptKind::Reasoning, t)) == (FragmentTone::Muted, "reasoning> "@ + t),
        entry_row((TranscriptKind::Tool, t)) == (FragmentTone::Warning, "tool> "@ + t),
        entry_row((TranscriptKind::Error, t)) == (FragmentTone::Error, "error> "@ + t),
        entry_row((TranscriptKind::System, t)) == (FragmentTone::Muted, "system> "@ + t),
{
    reveal_strlit("> ");
    reveal_strlit("you");
    reveal_strlit("you> ");
    reveal_strlit("assistant");
    reveal_strlit("assistant> ");
    reveal_strlit("reasoning");
    reveal_strlit("reasoning> ");
    reveal_strlit("tool");
    reveal_strlit("tool> ");
    reveal_strlit("error");
    reveal_strlit("error> ");
    reveal_strlit("system");
    reveal_strlit("system> ");
    assert("you"@ + "> "@ + t =~= "you> "@ + t);
    assert("assistant"@ + "> "@ + t =~= "assistant> "@ + t);
    assert("reasoning"@ + "> "@ + t =~= "reasoning> "@ + t);
    assert("tool"@ + "> "@ + t =~= "tool> "@ + t);
    assert("error"@ + "> "@ + t =~= "error> "@ + t);
    assert("system"@ + "> "@ + t =~= "system> "@ + t);
}

/// Suggestions are neighbours in the list, in its order; exactly the selected one is
/// marked.
pub proof fn law_suggestions_are_neighbours(
    commands: Seq<CommandDescriptor>,
    selected: int,
    i: int,
)
    requires
        0 <= selected < commands.len(),
        0 <= i < suggestion_rows(commands, selected).len(),
    ensures
        ({
            let rows = suggestion_rows(commands, selected);
            let k = first_shown(selected) + i;
            let said = " /"@ + commands[k].name@ + "  "@ + commands[k].description@ + "  Usage: "@
                + commands[k].usage@;
            &&& 0 <= k < commands.len()
            &&& rows[i].1 == seq![
                if k == selected {
                    '>'
                } else {
                    ' '
                },
            ] + said
            &&& rows[i].0 == FragmentTone::Accent <==> k == selected
        }),
{
    reveal_strlit(">");
    reveal_strlit(" ");
    assert(">"@ =~= seq!['>'] && " "@ =~= seq![' ']);
    let k = first_shown(selected) + i;
    let said = " /"@ + commands[k].name@ + "  "@ + commands[k].description@ + "  Usage: "@
        + commands[k].usage@;
    assert(suggestion_row(commands[k], true).1 =~= seq!['>'] + said);
    assert(suggestion_row(commands[k], false).1 =~= seq![' '] + said);
}

/// What is selected is shown on one row where it fits, and otherwise on two.
pub proof fn law_the_selection_of_a_model_is_shown(
    provider: Seq<char>,
    model: Seq<char>,
    mode: Seq<char>,
    width: nat,
)
    ensures
        ({
            let rows = editbar_rows(provider, model, mode, width);
            let first = provider + " / "@ + model;
            let second = "mode: "@ + mode;
            &&& width >= first.len() + 2 + second.len() ==> rows.len() == 1 && rows[0].1 == first
                + "  "@ + second
            &&& width < first.len() + 2 + second.len() ==> rows.len() == 2 && rows[0].1 == first
                && rows[1].1 == second
        }),
{
    reveal_strlit("  ");
}

/// The status is always shown, and the help behind it where both fit.
pub proof fn law_the_status_comes_first(status: Seq<char>, width: nat)
    ensures
        width >= text::utf8_len(status + " | "@ + HELP@) ==> status_row(status, width) == status
            + " | "@ + HELP@,
        width < text::utf8_len(status + " | "@ + HELP@) ==> status_row(status, width) == status,
{
    reveal_strlit(" | ");
    text::lemma_utf8_len_concat(status, " | "@);
    text::lemma_utf8_len_concat(status + " | "@, HELP@);
    assert(text::utf8_len(" | "@) == 3) by {
        let s = " | "@;
        assert(s =~= seq![' ', '|', ' ']);
        assert(s.drop_last() =~= seq![' ', '|']);
        assert(s.drop_last().drop_last() =~= seq![' ']);
        assert(s.drop_last().drop_last().drop_last() =~= Seq::empty());
        reveal_with_fuel(text::utf8_len, 4);
    }
}

} // verus!
