//! What a terminal hands to the user interface, and how its screen is divided.
use crate::ids::SessionId;
use crate::model;
use crate::model::ProviderEvent;
use crate::text;
use crate::ui::columns;
use crate::ui::fragments;
use crate::ui::fragments::FragmentLine;
use crate::ui::state;
use crate::ui::state::{reduce, Action, UiState};
use vstd::prelude::*;

verus! {

/// How the user interface is started.
#[derive(Clone, Debug, PartialEq, Eq)]
pub struct Options {
    pub provider: String,
    pub model: String,
    pub mode: String,
    pub project: String,
    pub color: bool,
    pub show_reasoning: bool,
    pub show_tool_calls: bool,
}

/// What the host is told: an action on the state, or something about a command.
pub enum HostAction {
    Act(Action),
    AcceptCompletion,
    DismissCompletions,
    CommandStarted,
    CommandFinished,
    CommandFailed,
    CommandCancelled,
}

// ---------------------------------------------------------------------------
// Keys
// ---------------------------------------------------------------------------

/// A key.
#[derive(Clone, Copy, Debug, PartialEq, Eq, Structural)]
pub enum Key {
    Char(char),
    Enter,
    Tab,
    Esc,
    Backspace,
    Delete,
    Left,
    Right,
    Up,
    Down,
    Home,
    End,
    Other,
}

/// A key that was pressed, with the keys that were held.
#[derive(Clone, Copy, Debug, PartialEq, Eq, Structural)]
pub struct KeyPress {
    pub key: Key,
    pub control: bool,
    pub shift: bool,
    pub alt: bool,
}

/// What a key means.
pub open spec fn key_meaning(press: KeyPress) -> Option<HostAction> {
    if press.control {
        if press.key == Key::Char('c') {
            Some(HostAction::Act(Action::Interrupt))
        } else if press.key == Key::Char('d') {
            Some(HostAction::Act(Action::EndOfInput))
        } else {
            None
        }
    } else {
        match press.key {
            Key::Enter => Some(
                HostAction::Act(
                    if press.shift || press.alt {
                        Action::Newline
                    } else {
                        Action::Submit
                    },
                ),
            ),
            Key::Char(c) => Some(HostAction::Act(Action::Insert(c))),
            Key::Tab => Some(HostAction::AcceptCompletion),
            Key::Esc => Some(HostAction::DismissCompletions),
            Key::Backspace => Some(HostAction::Act(Action::Backspace)),
            Key::Delete => Some(HostAction::Act(Action::Delete)),
            Key::Left => Some(HostAction::Act(Action::Left)),
            Key::Right => Some(HostAction::Act(Action::Right)),
            Key::Up => Some(HostAction::Act(Action::Up)),
            Key::Down => Some(HostAction::Act(Action::Down)),
            Key::Home => Some(HostAction::Act(Action::Home)),
            Key::End => Some(HostAction::Act(Action::End)),
            Key::Other => None,
        }
    }
}

/// What a key means.
pub fn key_action(press: KeyPress) -> (r: Option<HostAction>)
    ensures
        r == key_meaning(press),
{
    if press.control {
        return match press.key {
            Key::Char('c') => Some(HostAction::Act(Action::Interrupt)),
            Key::Char('d') => Some(HostAction::Act(Action::EndOfInput)),
            _ => None,
        };
    }
    match press.key {
        Key::Enter => {
            if press.shift || press.alt {
                Some(HostAction::Act(Action::Newline))
            } else {
                Some(HostAction::Act(Action::Submit))
            }
        },
        Key::Char(c) => Some(HostAction::Act(Action::Insert(c))),
        Key::Tab => Some(HostAction::AcceptCompletion),
        Key::Esc => Some(HostAction::DismissCompletions),
        Key::Backspace => Some(HostAction::Act(Action::Backspace)),
        Key::Delete => Some(HostAction::Act(Action::Delete)),
        Key::Left => Some(HostAction::Act(Action::Left)),
        Key::Right => Some(HostAction::Act(Action::Right)),
        Key::Up => Some(HostAction::Act(Action::Up)),
        Key::Down => Some(HostAction::Act(Action::Down)),
        Key::Home => Some(HostAction::Act(Action::Home)),
        Key::End => Some(HostAction::Act(Action::End)),
        Key::Other => None,
    }
}

/// What pasting a text means: it is typed, with line feeds at the ends of its lines.
pub fn paste_action(pasted: &str) -> (r: Action)
    ensures
        r is Paste,
        r->Paste_0@ == columns::unified(pasted@),
{
    Action::Paste(columns::unify(pasted))
}

// ---------------------------------------------------------------------------
// Events of the runtime
// ---------------------------------------------------------------------------

/// What the runtime reports of a session.
#[derive(Clone)]
pub enum RuntimeEvent {
    ProviderEvent { session_id: SessionId, event: ProviderEvent },
    TurnCompleted { session_id: SessionId },
    TurnCancelled { session_id: SessionId },
    TurnFailed { session_id: SessionId, error: String },
    CommandStarted { session_id: SessionId },
    CommandCancelled { session_id: SessionId },
    CommandCompleted { session_id: SessionId },
    CommandFailed { session_id: SessionId },
    Other,
}

/// Which session an event is about.
pub open spec fn session_of(event: RuntimeEvent) -> Option<SessionId> {
    match event {
        RuntimeEvent::ProviderEvent { session_id, event } => Some(session_id),
        RuntimeEvent::TurnCompleted { session_id } => Some(session_id),
        RuntimeEvent::TurnCancelled { session_id } => Some(session_id),
        RuntimeEvent::TurnFailed { session_id, error } => Some(session_id),
        RuntimeEvent::CommandStarted { session_id } => Some(session_id),
        RuntimeEvent::CommandCancelled { session_id } => Some(session_id),
        RuntimeEvent::CommandCompleted { session_id } => Some(session_id),
        RuntimeEvent::CommandFailed { session_id } => Some(session_id),
        RuntimeEvent::Other => None,
    }
}

/// How a piece of a call is shown.
pub open spec fn call_text(name: Option<Seq<char>>, arguments: Seq<char>) -> Seq<char> {
    match name {
        Some(n) => if arguments.len() == 0 {
            "\n"@ + n
        } else {
            "\n"@ + n + ": "@ + arguments
        },
        None => arguments,
    }
}

/// What an event of a provider means for the transcript.
pub ghost enum Shown {
    Nothing,
    Text(Seq<char>),
    Reasoning(Seq<char>),
    Tool(Seq<char>),
}

/// What an event of a provider means for the transcript.
pub open spec fn shown_of(
    event: model::EventView,
    show_reasoning: bool,
    show_tool_calls: bool,
) -> Shown {
    match event {
        model::EventView::TextDelta(t) => Shown::Text(t),
        model::EventView::ReasoningDelta(t) => if show_reasoning {
            Shown::Reasoning(t)
        } else {
            Shown::Nothing
        },
        model::EventView::ToolCallDelta(index, id, name, arguments) => if show_tool_calls
            && call_text(name, arguments).len() > 0 {
            Shown::Tool(call_text(name, arguments))
        } else {
            Shown::Nothing
        },
        _ => Shown::Nothing,
    }
}

/// Whether an action is what an event of a provider means.
pub open spec fn shows(r: Option<HostAction>, shown: Shown) -> bool {
    match shown {
        Shown::Nothing => r is None,
        Shown::Text(t) => r matches Some(HostAction::Act(Action::TextDelta(s))) && s@ == t,
        Shown::Reasoning(t) => r matches Some(HostAction::Act(Action::ReasoningDelta(s))) && s@
            == t,
        Shown::Tool(t) => r matches Some(HostAction::Act(Action::ToolActivity(s))) && s@ == t,
    }
}

fn provider_action(event: ProviderEvent, show_reasoning: bool, show_tool_calls: bool) -> (r: Option<
    HostAction,
>)
    ensures
        shows(r, shown_of(event@, show_reasoning, show_tool_calls)),
{
    match event {
        ProviderEvent::TextDelta { text } => Some(HostAction::Act(Action::TextDelta(text))),
        ProviderEvent::ReasoningDelta { text } => {
            if show_reasoning {
                Some(HostAction::Act(Action::ReasoningDelta(text)))
            } else {
                None
            }
        },
        ProviderEvent::ToolCallDelta { index: _, id: _, name, arguments } => {
            if !show_tool_calls {
                return None;
            }
            let shown = match name {
                Some(n) => {
                    if arguments.as_str().is_empty() {
                        text::cat2("\n", n.as_str())
                    } else {
                        text::cat4("\n", n.as_str(), ": ", arguments.as_str())
                    }
                },
                None => arguments,
            };
            if shown.as_str().is_empty() {
                return None;
            }
            Some(HostAction::Act(Action::ToolActivity(shown)))
        },
        _ => None,
    }
}

/// What an event of the runtime means for a session.
pub fn runtime_action(
    session: SessionId,
    event: RuntimeEvent,
    show_reasoning: bool,
    show_tool_calls: bool,
) -> (r: Option<HostAction>)
    ensures
        session_of(event) != Some(session) ==> r is None,
        session_of(event) == Some(session) ==> match event {
            RuntimeEvent::ProviderEvent { session_id, event } => shows(
                r,
                shown_of(event@, show_reasoning, show_tool_calls),
            ),
            RuntimeEvent::TurnCompleted { session_id } => r == Some(
                HostAction::Act(Action::TurnCompleted),
            ),
            RuntimeEvent::TurnCancelled { session_id } => r == Some(
                HostAction::Act(Action::TurnCancelled),
            ),
            RuntimeEvent::TurnFailed { session_id, error } => r matches Some(
                HostAction::Act(Action::Error(m)),
            ) && m@ == "turn failed: "@ + error@,
            RuntimeEvent::CommandStarted { session_id } => r == Some(HostAction::CommandStarted),
            RuntimeEvent::CommandCancelled { session_id } => r == Some(
                HostAction::CommandCancelled,
            ),
            RuntimeEvent::CommandCompleted { session_id } => r == Some(
                HostAction::CommandFinished,
            ),
            RuntimeEvent::CommandFailed { session_id } => r == Some(HostAction::CommandFailed),
            RuntimeEvent::Other => true,
        },
{
    match event {
        RuntimeEvent::ProviderEvent { session_id, event } => {
            if session_id != session {
                return None;
            }
            provider_action(event, show_reasoning, show_tool_calls)
        },
        RuntimeEvent::TurnCompleted { session_id } => {
            if session_id != session {
                return None;
            }
            Some(HostAction::Act(Action::TurnCompleted))
        },
        RuntimeEvent::TurnCancelled { session_id } => {
            if session_id != session {
                return None;
            }
            Some(HostAction::Act(Action::TurnCancelled))
        },
        RuntimeEvent::TurnFailed { session_id, error } => {
            if session_id != session {
                return None;
            }
            Some(HostAction::Act(Action::Error(text::cat2("turn failed: ", error.as_str()))))
        },
        RuntimeEvent::CommandStarted { session_id } => {
            if session_id != session {
                return None;
            }
            Some(HostAction::CommandStarted)
        },
        RuntimeEvent::CommandCancelled { session_id } => {
            if session_id != session {
                return None;
            }
            Some(HostAction::CommandCancelled)
        },
        RuntimeEvent::CommandCompleted { session_id } => {
            if session_id != session {
                return None;
            }
            Some(HostAction::CommandFinished)
        },
        RuntimeEvent::CommandFailed { session_id } => {
            if session_id != session {
                return None;
            }
            Some(HostAction::CommandFailed)
        },
        RuntimeEvent::Other => None,
    }
}

/// What is told where events were missed.
pub fn lagged_action(count: u64) -> (r: Action)
    ensures
        r is Error,
        r->Error_0@ == "UI event stream lagged by "@ + text::decimal(count as nat) + " events"@,
{
    let shown = text::decimal_text(count as u128);
    Action::Error(text::cat3("UI event stream lagged by ", shown.as_str(), " events"))
}

/// What is told where no more events come.
pub fn closed_action() -> (r: Action)
    ensures
        r is Error,
        r->Error_0@ == "runtime event stream closed"@,
{
    Action::Error(text::owned("runtime event stream closed"))
}

/// What became of what the host was told to do.
pub enum Performed {
    Done,
    SendFailed(String),
    /// Whether something was active that could be cancelled.
    Cancelled(bool),
    CancelFailed(String),
}

/// The state after something went wrong: the turn is over, and the transcript tells
/// why.
pub open spec fn failed(v: state::UiView, message: Seq<char>) -> state::UiView {
    state::UiView {
        active_turn: false,
        status: "error"@,
        transcript: v.transcript.push((state::TranscriptKind::Error, message)),
        ..v
    }
}

/// The state after the host did what it was told to do.
pub fn performed(state: UiState, outcome: Performed) -> (r: UiState)
    requires
        state.editor.wf(),
    ensures
        r.editor.wf(),
        match outcome {
            Performed::Done => r == state,
            Performed::Cancelled(true) => r == state,
            Performed::Cancelled(false) => r@ == state::reduced(
                state@,
                Action::TurnCancelled,
            ).0,
            Performed::SendFailed(e) => r@ == failed(state@, "could not start turn: "@ + e@),
            Performed::CancelFailed(e) => r@ == failed(
                state@,
                "could not cancel active operation: "@ + e@,
            ),
        },
{
    match outcome {
        Performed::Done => state,
        Performed::Cancelled(true) => state,
        Performed::Cancelled(false) => reduce(state, Action::TurnCancelled).state,
        Performed::SendFailed(e) => reduce(
            state,
            Action::Error(text::cat2("could not start turn: ", e.as_str())),
        ).state,
        Performed::CancelFailed(e) => reduce(
            state,
            Action::Error(text::cat2("could not cancel active operation: ", e.as_str())),
        ).state,
    }
}

// ---------------------------------------------------------------------------
// The screen
// ---------------------------------------------------------------------------

/// A number, kept between two others.
pub open spec fn clamped(n: int, low: int, high: int) -> int {
    if n < low {
        low
    } else if n > high {
        high
    } else {
        n
    }
}

/// How many rows the editor takes where its text takes `lines`, of which sixteen
/// bits are told.
pub fn editor_height(lines: usize) -> (r: u16)
    requires
        lines as int % 65536 + 2 <= u16::MAX,
    ensures
        r == clamped(lines as int % 65536 + 2, 3, 8),
{
    let rows: usize = lines % 65536 + 2;
    if rows < 3 {
        3
    } else if rows > 8 {
        8
    } else {
        rows as u16
    }
}

/// A difference, or zero where there is none.
pub open spec fn less(a: int, b: int) -> int {
    if a > b {
        a - b
    } else {
        0
    }
}

/// How many columns are inside a frame of so many.
pub fn inner_width(width: u16) -> (r: usize)
    ensures
        r == (if width > 3 {
            width - 2
        } else {
            1
        }),
{
    if width > 3 {
        (width - 2) as usize
    } else {
        1
    }
}

/// How many rows all rows of the transcript take.
pub open spec fn transcript_rows(rows: Seq<FragmentLine>, width: nat) -> nat
    decreases rows.len(),
{
    if rows.len() == 0 {
        0
    } else {
        transcript_rows(rows.drop_last(), width) + columns::rows_of(
            text::split(rows.last().text@, '\n'),
            width,
        )
    }
}

proof fn lemma_transcript_rows(rows: Seq<FragmentLine>, width: nat, n: int)
    requires
        0 <= n <= rows.len(),
    ensures
        transcript_rows(rows.take(n), width) <= transcript_rows(rows, width),
    decreases rows.len(),
{
    if n < rows.len() {
        assert(rows.drop_last().take(n) =~= rows.take(n));
        lemma_transcript_rows(rows.drop_last(), width, n);
    } else {
        assert(rows.take(n) =~= rows);
    }
}

/// How far the transcript is scrolled so that its end is visible: as far as its
/// rows do not fit, but no further than can be told.
pub fn transcript_scroll(rows: &[FragmentLine], width: usize, height: u16) -> (r: u16)
    ensures
        ({
            let over = less(
                transcript_rows(rows@, width as nat) as int,
                less(height as int, 2),
            );
            r == (if over > u16::MAX {
                u16::MAX as int
            } else {
                over
            })
        }),
{
    let visible: u128 = if height > 2 {
        (height - 2) as u128
    } else {
        0
    };
    let enough: u128 = visible + u16::MAX as u128;
    let mut total: u128 = 0;
    let mut i: usize = 0;
    proof {
        assert(rows@.take(0) =~= Seq::empty());
    }
    while i < rows.len()
        invariant
            i <= rows@.len(),
            visible == less(height as int, 2),
            enough == visible + u16::MAX,
            enough <= 0x2_0000,
            total == transcript_rows(rows@.take(i as int), width as nat),
            total <= enough,
        decreases rows@.len() - i,
    {
        let more: u128 = columns::wrapped_height(rows[i].text.as_str(), width);
        proof {
            assert(rows@.take(i + 1).drop_last() =~= rows@.take(i as int));
            assert(rows@.take(i + 1).last() == rows@[i as int]);
            lemma_transcript_rows(rows@, width as nat, i + 1);
        }
        if more > enough - total {
            return u16::MAX;
        }
        total = total + more;
        i += 1;
    }
    proof {
        assert(rows@.take(i as int) =~= rows@);
    }
    if total > visible {
        (total - visible) as u16
    } else {
        0
    }
}

/// How far the text of the editor is scrolled so that the row of the cursor is
/// visible.
pub fn editor_scroll(row: usize, height: u16) -> (r: usize)
    ensures
        r == less(row as int, less(less(height as int, 2), 1)),
{
    let inner: usize = if height > 2 {
        (height - 2) as usize
    } else {
        0
    };
    let last: usize = if inner > 1 {
        inner - 1
    } else {
        0
    };
    if row > last {
        row - last
    } else {
        0
    }
}

/// Keys do what they stand for: without a modifier a character is typed and the return key
/// sends; with one it breaks the line.
pub proof fn law_keys_do_what_they_stand_for(press: KeyPress, c: char)
    ensures
        press.control && press.key == Key::Char('c') ==> key_meaning(press) == Some(
            HostAction::Act(Action::Interrupt),
        ),
        press.control && press.key == Key::Char('d') ==> key_meaning(press) == Some(
            HostAction::Act(Action::EndOfInput),
        ),
        press.control && press.key != Key::Char('c') && press.key != Key::Char('d') ==> key_meaning(
            press,
        ) is None,
        !press.control && press.key == Key::Enter && !press.shift && !press.alt ==> key_meaning(
            press,
        ) == Some(HostAction::Act(Action::Submit)),
        !press.control && press.key == Key::Enter && (press.shift || press.alt) ==> key_meaning(
            press,
        ) == Some(HostAction::Act(Action::Newline)),
        !press.control && press.key == Key::Char(c) ==> key_meaning(press) == Some(
            HostAction::Act(Action::Insert(c)),
        ),
        !press.control && press.key == Key::Tab ==> key_meaning(press) == Some(
            HostAction::AcceptCompletion,
        ),
        !press.control && press.key == Key::Esc ==> key_meaning(press) == Some(
            HostAction::DismissCompletions,
        ),
        !press.control && press.key == Key::Backspace ==> key_meaning(press) == Some(
            HostAction::Act(Action::Backspace),
        ),
        !press.control && press.key == Key::Delete ==> key_meaning(press) == Some(
            HostAction::Act(Action::Delete),
        ),
        !press.control && press.key == Key::Left ==> key_meaning(press) == Some(
            HostAction::Act(Action::Left),
        ),
        !press.control && press.key == Key::Right ==> key_meaning(press) == Some(
            HostAction::Act(Action::Right),
        ),
        !press.control && press.key == Key::Up ==> key_meaning(press) == Some(
            HostAction::Act(Action::Up),
        ),
        !press.control && press.key == Key::Down ==> key_meaning(press) == Some(
            HostAction::Act(Action::Down),
        ),
        !press.control && press.key == Key::Home ==> key_meaning(press) == Some(
            HostAction::Act(Action::Home),
        ),
        !press.control && press.key == Key::End ==> key_meaning(press) == Some(
            HostAction::Act(Action::End),
        ),
{
}

/// What the agent says is always shown, what it thinks and calls where that is wanted.
pub proof fn law_events_are_shown_where_wanted(
    t: Seq<char>,
    index: u32,
    id: Option<Seq<char>>,
    name: Seq<char>,
    show_reasoning: bool,
    show_tool_calls: bool,
)
    requires
        t.len() > 0,
    ensures
        shown_of(model::EventView::TextDelta(t), show_reasoning, show_tool_calls) == Shown::Text(t),
        shown_of(model::EventView::ReasoningDelta(t), true, show_tool_calls) == Shown::Reasoning(t),
        shown_of(model::EventView::ReasoningDelta(t), false, show_tool_calls) == Shown::Nothing,
        shown_of(model::EventView::ToolCallDelta(index, id, Some(name), t), show_reasoning, true)
            == Shown::Tool("\n"@ + name + ": "@ + t),
        shown_of(model::EventView::ToolCallDelta(index, id, None, t), show_reasoning, true)
            == Shown::Tool(t),
        shown_of(model::EventView::ToolCallDelta(index, id, Some(name), t), show_reasoning, false)
            == Shown::Nothing,
{
    reveal_strlit("\n");
    assert(("\n"@ + name + ": "@ + t).len() > 0);
}

/// A number is kept between its limits, and taking away stops at zero.
pub proof fn law_numbers_keep_their_limits(n: int, low: int, high: int)
    requires
        low <= high,
    ensures
        low <= clamped(n, low, high) <= high,
        low <= n <= high ==> clamped(n, low, high) == n,
        n < low ==> clamped(n, low, high) == low,
        n > high ==> clamped(n, low, high) == high,
        less(high, low) == high - low,
        less(low, high) == 0,
{
}

/// The rows of a transcript add up.
pub proof fn law_rows_add_up(a: Seq<FragmentLine>, b: Seq<FragmentLine>, row: FragmentLine, width: nat)
    ensures
        transcript_rows(a + b, width) == transcript_rows(a, width) + transcript_rows(b, width),
        transcript_rows(seq![row], width) == columns::rows_of(
            text::split(row.text@, '\n'),
            width,
        ),
    decreases b.len(),
{
    reveal_with_fuel(transcript_rows, 2);
    assert(seq![row].drop_last() =~= Seq::empty());
    if b.len() == 0 {
        assert(a + b =~= a);
    } else {
        law_rows_add_up(a, b.drop_last(), row, width);
        assert((a + b).drop_last() =~= a + b.drop_last());
        assert((a + b).last() == b.last());
    }
}

} // verus!
