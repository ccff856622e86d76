//! The state of the user interface, and how it changes.
use crate::text;
use crate::ui::columns;
use crate::ui::cursor;
use vstd::prelude::*;

verus! {

/// A text that is being written, with a cursor.
#[derive(Clone, Debug, PartialEq, Eq)]
pub struct Editor {
    pub text: String,
    /// How many bytes stand before the cursor.
    pub cursor: usize,
}

impl View for Editor {
    type V = cursor::Place;

    open spec fn view(&self) -> cursor::Place {
        cursor::place(self.text@, self.cursor as int)
    }
}

impl Default for Editor {
    fn default() -> (r: Self)
        ensures
            r.wf(),
            r@ == (cursor::Place { text: Seq::empty(), at: 0 }),
            r.cursor == 0,
    {
        Editor::new()
    }
}

impl Editor {
    /// Whether the cursor stands between two characters.
    pub open spec fn wf(&self) -> bool {
        cursor::on_boundary(self.text@, self.cursor as int)
    }

    /// An editor with nothing in it.
    pub fn new() -> (r: Self)
        ensures
            r.wf(),
            r@ == (cursor::Place { text: Seq::empty(), at: 0 }),
            r.cursor == 0,
    {
        let r = Editor { text: String::new(), cursor: 0 };
        proof {
            assert(r.text@ =~= Seq::empty());
            assert(r.text@.take(0) =~= Seq::empty());
            cursor::lemma_position(r.text@, 0);
        }
        r
    }

    pub fn text(&self) -> (r: &str)
        ensures
            r@ == self@.text,
    {
        self.text.as_str()
    }

    /// How many bytes stand before the cursor.
    pub fn cursor(&self) -> (r: usize)
        ensures
            r == self.cursor,
            self.wf() ==> r == text::utf8_len(self@.text.take(self@.at)),
    {
        self.cursor
    }

    pub fn is_empty(&self) -> (r: bool)
        ensures
            r == (self@.text.len() == 0),
    {
        self.text.as_str().is_empty()
    }

    /// Types a character.
    pub fn insert(&mut self, character: char)
        requires
            old(self).wf(),
        ensures
            final(self).wf(),
            final(self)@ == cursor::typed(old(self)@, seq![character]),
    {
        let mut typed = String::new();
        typed.push(character);
        proof {
            assert(typed@ =~= seq![character]);
        }
        self.insert_str(typed.as_str());
    }

    /// Types a text.
    pub fn insert_str(&mut self, text: &str)
        requires
            old(self).wf(),
        ensures
            final(self).wf(),
            final(self)@ == cursor::typed(old(self)@, text@),
    {
        let (text, cursor) = cursor::type_text(self.text.as_str(), self.cursor, text);
        self.text = text;
        self.cursor = cursor;
    }

    /// Erases the character before the cursor.
    pub fn backspace(&mut self)
        requires
            old(self).wf(),
        ensures
            final(self).wf(),
            final(self)@ == cursor::erased_before(old(self)@),
    {
        let (text, cursor) = cursor::erase_before(self.text.as_str(), self.cursor);
        self.text = text;
        self.cursor = cursor;
    }

    /// Erases the character behind the cursor.
    pub fn delete(&mut self)
        requires
            old(self).wf(),
        ensures
            final(self).wf(),
            final(self)@ == cursor::erased_after(old(self)@),
    {
        self.text = cursor::erase_after(self.text.as_str(), self.cursor);
    }

    pub fn move_left(&mut self)
        requires
            old(self).wf(),
        ensures
            final(self).wf(),
            final(self)@ == moved(old(self)@, cursor::moved_left(old(self)@)),
    {
        self.cursor = cursor::left(self.text.as_str(), self.cursor);
    }

    pub fn move_right(&mut self)
        requires
            old(self).wf(),
        ensures
            final(self).wf(),
            final(self)@ == moved(old(self)@, cursor::moved_right(old(self)@)),
    {
        self.cursor = cursor::right(self.text.as_str(), self.cursor);
    }

    /// Moves to the beginning of the line.
    pub fn move_home(&mut self)
        requires
            old(self).wf(),
        ensures
            final(self).wf(),
            final(self)@ == moved(
                old(self)@,
                cursor::line_start(old(self)@.text, old(self)@.at),
            ),
    {
        self.cursor = cursor::home(self.text.as_str(), self.cursor);
    }

    /// Moves to the end of the line.
    pub fn move_end(&mut self)
        requires
            old(self).wf(),
        ensures
            final(self).wf(),
            final(self)@ == moved(old(self)@, cursor::line_end(old(self)@.text, old(self)@.at)),
    {
        self.cursor = cursor::end(self.text.as_str(), self.cursor);
    }

    pub fn move_up(&mut self)
        requires
            old(self).wf(),
        ensures
            final(self).wf(),
            final(self)@ == moved(old(self)@, cursor::moved_up(old(self)@)),
    {
        self.cursor = cursor::up(self.text.as_str(), self.cursor);
    }

    pub fn move_down(&mut self)
        requires
            old(self).wf(),
        ensures
            final(self).wf(),
            final(self)@ == moved(old(self)@, cursor::moved_down(old(self)@)),
    {
        self.cursor = cursor::down(self.text.as_str(), self.cursor);
    }

    /// The row and the column of the cursor, where lines have a width.
    pub fn visual_position(&self, width: usize) -> (r: (usize, usize))
        requires
            self.wf(),
        ensures
            (r.0 as nat, r.1 as nat) == cursor::seat(
                self@.text.take(self@.at),
                columns::at_least_one(width as nat),
            ),
            r.0 < cursor::row_count(self@.text, width as nat),
    {
        let k: usize = cursor::position_of(self.text.as_str(), self.cursor);
        proof {
            cursor::law_rows_hold_the_cursor(
                cursor::Place { text: self.text@, at: k as int },
                width as nat,
            );
        }
        cursor::seat_of(self.text.as_str(), k, width)
    }

    /// How many rows the text takes, where lines have a width.
    pub fn visual_line_count(&self, width: usize) -> (r: usize)
        ensures
            r == cursor::row_count(self@.text, width as nat),
            r > cursor::feeds(self@.text),
    {
        let n: usize = text::char_count(self.text.as_str());
        proof {
            assert(self.text@.take(n as int) =~= self.text@);
        }
        let (row, _) = cursor::seat_of(self.text.as_str(), n, width);
        proof {
            cursor::law_rows_hold_the_cursor(
                cursor::Place { text: self.text@, at: n as int },
                width as nat,
            );
        }
        row + 1
    }
}

/// A text with its cursor moved.
pub open spec fn moved(p: cursor::Place, at: int) -> cursor::Place {
    cursor::Place { text: p.text, at }
}

/// Moving the cursor changes nothing of how many rows the text takes.
pub proof fn law_moves_keep_the_rows(p: cursor::Place, at: int, width: nat)
    requires
        0 <= p.at <= p.text.len(),
        0 <= at <= p.text.len(),
    ensures
        cursor::row_count(moved(p, at).text, width) == cursor::row_count(p.text, width),
        cursor::seat(moved(p, at).text.take(at), columns::at_least_one(width)).0
            < cursor::row_count(p.text, width),
{
    cursor::law_rows_hold_the_cursor(moved(p, at), width);
}

// ---------------------------------------------------------------------------
// The state
// ---------------------------------------------------------------------------

#[derive(Clone, Copy, Debug, PartialEq, Eq, Structural)]
pub enum TranscriptKind {
    User,
    Assistant,
    Reasoning,
    Tool,
    Error,
    System,
}

#[derive(Clone, Debug, PartialEq, Eq)]
pub struct TranscriptEntry {
    pub kind: TranscriptKind,
    pub text: String,
}

pub open spec fn entry_views(list: Seq<TranscriptEntry>) -> Seq<(TranscriptKind, Seq<char>)> {
    Seq::new(list.len(), |i: int| (list[i].kind, list[i].text@))
}

#[derive(Clone, Debug, PartialEq, Eq)]
pub struct UiState {
    pub provider: String,
    pub model: String,
    pub mode: String,
    pub project: String,
    pub editor: Editor,
    pub transcript: Vec<TranscriptEntry>,
    pub active_turn: bool,
    pub status: String,
    pub should_exit: bool,
}

/// The state in mathematical terms.
pub ghost struct UiView {
    pub provider: Seq<char>,
    pub model: Seq<char>,
    pub mode: Seq<char>,
    pub project: Seq<char>,
    pub editor: cursor::Place,
    pub transcript: Seq<(TranscriptKind, Seq<char>)>,
    pub active_turn: bool,
    pub status: Seq<char>,
    pub should_exit: bool,
}

impl View for UiState {
    type V = UiView;

    open spec fn view(&self) -> UiView {
        UiView {
            provider: self.provider@,
            model: self.model@,
            mode: self.mode@,
            project: self.project@,
            editor: self.editor@,
            transcript: entry_views(self.transcript@),
            active_turn: self.active_turn,
            status: self.status@,
            should_exit: self.should_exit,
        }
    }
}

impl UiState {
    pub fn new(provider: String, model: String, mode: String, project: String) -> (r: Self)
        ensures
            r.editor.wf(),
            r@ == (UiView {
                provider: provider@,
                model: model@,
                mode: mode@,
                project: project@,
                editor: cursor::Place { text: Seq::empty(), at: 0 },
                transcript: Seq::empty(),
                active_turn: false,
                status: "ready"@,
                should_exit: false,
            }),
    {
        let transcript: Vec<TranscriptEntry> = Vec::new();
        proof {
            assert(entry_views(transcript@) =~= Seq::empty());
        }
        UiState {
            provider,
            model,
            mode,
            project,
            editor: Editor::new(),
            transcript,
            active_turn: false,
            status: text::owned("ready"),
            should_exit: false,
        }
    }
}

/// What happens to the user interface.
#[derive(Clone, Debug, PartialEq, Eq)]
pub enum Action {
    Insert(char),
    Paste(String),
    Newline,
    Backspace,
    Delete,
    Left,
    Right,
    Up,
    Down,
    Home,
    End,
    Submit,
    Interrupt,
    EndOfInput,
    TextDelta(String),
    ReasoningDelta(String),
    ToolActivity(String),
    TurnCompleted,
    TurnCancelled,
    Error(String),
}

/// What the host has to do.
#[derive(Clone, Debug, PartialEq, Eq)]
pub enum Effect {
    Nothing,
    Send(String),
    Cancel,
    Exit,
}

/// What the host has to do, in mathematical terms.
pub ghost enum EffectView {
    Nothing,
    Send(Seq<char>),
    Cancel,
    Exit,
}

impl View for Effect {
    type V = EffectView;

    open spec fn view(&self) -> EffectView {
        match *self {
            Effect::Nothing => EffectView::Nothing,
            Effect::Send(t) => EffectView::Send(t@),
            Effect::Cancel => EffectView::Cancel,
            Effect::Exit => EffectView::Exit,
        }
    }
}

#[derive(Clone, Debug, PartialEq, Eq)]
pub struct Update {
    pub state: UiState,
    pub effect: Effect,
}

/// A transcript with another piece of a stream: it continues the last entry where
/// that is of the same kind.
pub open spec fn streamed(
    list: Seq<(TranscriptKind, Seq<char>)>,
    kind: TranscriptKind,
    s: Seq<char>,
) -> Seq<(TranscriptKind, Seq<char>)> {
    if list.len() > 0 && list.last().0 == kind {
        list.drop_last().push((kind, list.last().1 + s))
    } else {
        list.push((kind, s))
    }
}

/// The state with another editor.
pub open spec fn edited(v: UiView, editor: cursor::Place) -> UiView {
    UiView { editor, ..v }
}

/// What an action makes of the state, and what the host has to do.
pub open spec fn reduced(v: UiView, action: Action) -> (UiView, EffectView) {
    let p = v.editor;
    match action {
        Action::Insert(c) => (edited(v, cursor::typed(p, seq![c])), EffectView::Nothing),
        Action::Paste(t) => (edited(v, cursor::typed(p, t@)), EffectView::Nothing),
        Action::Newline => (edited(v, cursor::typed(p, seq!['\n'])), EffectView::Nothing),
        Action::Backspace => (edited(v, cursor::erased_before(p)), EffectView::Nothing),
        Action::Delete => (edited(v, cursor::erased_after(p)), EffectView::Nothing),
        Action::Left => (edited(v, moved(p, cursor::moved_left(p))), EffectView::Nothing),
        Action::Right => (edited(v, moved(p, cursor::moved_right(p))), EffectView::Nothing),
        Action::Up => (edited(v, moved(p, cursor::moved_up(p))), EffectView::Nothing),
        Action::Down => (edited(v, moved(p, cursor::moved_down(p))), EffectView::Nothing),
        Action::Home => (
            edited(v, moved(p, cursor::line_start(p.text, p.at))),
            EffectView::Nothing,
        ),
        Action::End => (
            edited(v, moved(p, cursor::line_end(p.text, p.at))),
            EffectView::Nothing,
        ),
        Action::Submit => if v.active_turn {
            (UiView { status: "turn already active"@, ..v }, EffectView::Nothing)
        } else if text::is_blank(p.text) {
            (v, EffectView::Nothing)
        } else {
            (
                UiView {
                    editor: cursor::Place { text: Seq::empty(), at: 0 },
                    transcript: v.transcript.push((TranscriptKind::User, p.text)),
                    active_turn: true,
                    status: "working (Ctrl-C to cancel)"@,
                    ..v
                },
                EffectView::Send(p.text),
            )
        },
        Action::Interrupt => if v.active_turn {
            (UiView { status: "cancelling"@, ..v }, EffectView::Cancel)
        } else {
            (UiView { should_exit: true, ..v }, EffectView::Exit)
        },
        Action::EndOfInput => if p.text.len() == 0 {
            (UiView { should_exit: true, ..v }, EffectView::Exit)
        } else {
            (edited(v, cursor::erased_after(p)), EffectView::Nothing)
        },
        Action::TextDelta(t) => (
            UiView { transcript: streamed(v.transcript, TranscriptKind::Assistant, t@), ..v },
            EffectView::Nothing,
        ),
        Action::ReasoningDelta(t) => (
            UiView { transcript: streamed(v.transcript, TranscriptKind::Reasoning, t@), ..v },
            EffectView::Nothing,
        ),
        Action::ToolActivity(t) => (
            UiView { transcript: streamed(v.transcript, TranscriptKind::Tool, t@), ..v },
            EffectView::Nothing,
        ),
        Action::TurnCompleted => (
            UiView { active_turn: false, status: "ready"@, ..v },
            EffectView::Nothing,
        ),
        Action::TurnCancelled => (
            UiView { active_turn: false, status: "turn cancelled"@, ..v },
            EffectView::Nothing,
        ),
        Action::Error(e) => (
            UiView {
                active_turn: false,
                status: "error"@,
                transcript: v.transcript.push((TranscriptKind::Error, e@)),
                ..v
            },
            EffectView::Nothing,
        ),
    }
}

fn push_entry(list: &mut Vec<TranscriptEntry>, kind: TranscriptKind, text: String)
    ensures
        entry_views(final(list)@) == entry_views(old(list)@).push((kind, text@)),
{
    let ghost before = entry_views(list@);
    let ghost said = text@;
    list.push(TranscriptEntry { kind, text });
    proof {
        assert(entry_views(list@) =~= before.push((kind, said)));
    }
}

fn append_stream(list: &mut Vec<TranscriptEntry>, kind: TranscriptKind, text: String)
    ensures
        entry_views(final(list)@) == streamed(entry_views(old(list)@), kind, text@),
{
    let ghost before = entry_views(list@);
    let n: usize = list.len();
    if n > 0 && list[n - 1].kind == kind {
        let whole = text::cat2(list[n - 1].text.as_str(), text.as_str());
        let ghost said = whole@;
        list.set(n - 1, TranscriptEntry { kind, text: whole });
        proof {
            assert(entry_views(list@) =~= before.drop_last().push((kind, said)));
        }
    } else {
        push_entry(list, kind, text);
    }
}

/// What an action makes of the state.
pub fn reduce(state: UiState, action: Action) -> (r: Update)
    requires
        state.editor.wf(),
    ensures
        r.state.editor.wf(),
        (r.state@, r.effect@) == reduced(state@, action),
{
    let mut state = state;
    let mut effect = Effect::Nothing;
    match action {
        Action::Insert(character) => {
            state.editor.insert(character);
        },
        Action::Paste(text) => {
            state.editor.insert_str(text.as_str());
        },
        Action::Newline => {
            state.editor.insert('\n');
        },
        Action::Backspace => {
            state.editor.backspace();
        },
        Action::Delete => {
            state.editor.delete();
        },
        Action::Left => {
            state.editor.move_left();
        },
        Action::Right => {
            state.editor.move_right();
        },
        Action::Up => {
            state.editor.move_up();
        },
        Action::Down => {
            state.editor.move_down();
        },
        Action::Home => {
            state.editor.move_home();
        },
        Action::End => {
            state.editor.move_end();
        },
        Action::Submit => {
            if state.active_turn {
                state.status = text::owned("turn already active");
            } else if !text::blank(state.editor.text()) {
                let said = text::owned(state.editor.text());
                let sent = text::owned(state.editor.text());
                state.editor = Editor::new();
                push_entry(&mut state.transcript, TranscriptKind::User, said);
                state.active_turn = true;
                state.status = text::owned("working (Ctrl-C to cancel)");
                effect = Effect::Send(sent);
            }
        },
        Action::Interrupt => {
            if state.active_turn {
                state.status = text::owned("cancelling");
                effect = Effect::Cancel;
            } else {
                state.should_exit = true;
                effect = Effect::Exit;
            }
        },
        Action::EndOfInput => {
            if state.editor.is_empty() {
                state.should_exit = true;
                effect = Effect::Exit;
            } else {
                state.editor.delete();
            }
        },
        Action::TextDelta(text) => {
            append_stream(&mut state.transcript, TranscriptKind::Assistant, text);
        },
        Action::ReasoningDelta(text) => {
            append_stream(&mut state.transcript, TranscriptKind::Reasoning, text);
        },
        Action::ToolActivity(text) => {
            append_stream(&mut state.transcript, TranscriptKind::Tool, text);
        },
        Action::TurnCompleted => {
            state.active_turn = false;
            state.status = text::owned("ready");
        },
        Action::TurnCancelled => {
            state.active_turn = false;
            state.status = text::owned("turn cancelled");
        },
        Action::Error(error) => {
            state.active_turn = false;
            state.status = text::owned("error");
            push_entry(&mut state.transcript, TranscriptKind::Error, error);
        },
    }
    Update { state, effect }
}

// ---------------------------------------------------------------------------
// Laws
// ---------------------------------------------------------------------------

/// Pieces of a stream of one kind are shown as if they had come as one.
pub proof fn law_pieces_are_coalesced(
    list: Seq<(TranscriptKind, Seq<char>)>,
    kind: TranscriptKind,
    first: Seq<char>,
    second: Seq<char>,
)
    ensures
        streamed(streamed(list, kind, first), kind, second) == streamed(list, kind, first + second),
{
    let once = streamed(list, kind, first);
    assert(once.last().0 == kind);
    if list.len() > 0 && list.last().0 == kind {
        assert(once.drop_last() =~= list.drop_last());
        assert(list.last().1 + first + second =~= list.last().1 + (first + second));
    } else {
        assert(once.drop_last() =~= list);
    }
}

/// While a turn is active nothing is sent, and an interrupt asks for the turn to be
/// cancelled; without one it ends the program.
pub proof fn law_one_turn_at_a_time(v: UiView, action: Action)
    ensures
        v.active_turn ==> !(reduced(v, action).1 is Send),
        reduced(v, action).1 is Send ==> reduced(v, action).0.active_turn,
        reduced(v, Action::Interrupt).1 == (if v.active_turn {
            EffectView::Cancel
        } else {
            EffectView::Exit
        }),
{
}

/// What is sent is what was written; it joins the transcript, and the editor is
/// empty.
pub proof fn law_what_is_written_is_sent(v: UiView, action: Action)
    requires
        reduced(v, action).1 is Send,
    ensures
        action == Action::Submit,
        reduced(v, action).1->Send_0 == v.editor.text,
        reduced(v, action).0.editor.text.len() == 0,
        reduced(v, action).0.transcript == v.transcript.push(
            (TranscriptKind::User, v.editor.text),
        ),
{
}

/// The program ends where the host is told to, and only there.
pub proof fn law_exit_is_announced(v: UiView, action: Action)
    requires
        !v.should_exit,
    ensures
        reduced(v, action).0.should_exit <==> reduced(v, action).1 == EffectView::Exit,
{
}

/// What is typed stands at the cursor, and moving leaves what is written. What arrives is
/// added to the transcript as what it is, and a turn ends in one of three ways.
pub proof fn law_actions_do_what_they_say(v: UiView, action: Action)
    requires
        0 <= v.editor.at <= v.editor.text.len(),
    ensures
        ({
            let (after, effect) = reduced(v, action);
            let head = v.editor.text.take(v.editor.at);
            let tail = v.editor.text.skip(v.editor.at);
            &&& action matches Action::Insert(c) ==> after.editor.text == head + seq![c] + tail
                && after.editor.at == v.editor.at + 1
            &&& action matches Action::Paste(t) ==> after.editor.text == head + t@ + tail
                && after.editor.at == v.editor.at + t@.len()
            &&& action is Newline ==> after.editor.text == head + seq!['\n'] + tail
            &&& action is Left || action is Right || action is Up || action is Down
                || action is Home || action is End ==> after == UiView {
                editor: cursor::Place { text: v.editor.text, at: after.editor.at },
                ..v
            }
            &&& action matches Action::TextDelta(t) ==> (after.transcript.last().0
                == TranscriptKind::Assistant && text::ends_with(
                after.transcript.last().1,
                t@,
            ))
            &&& action matches Action::ReasoningDelta(t) ==> (after.transcript.last().0
                == TranscriptKind::Reasoning && text::ends_with(
                after.transcript.last().1,
                t@,
            ))
            &&& action matches Action::ToolActivity(t) ==> (after.transcript.last().0
                == TranscriptKind::Tool && text::ends_with(after.transcript.last().1, t@))
            &&& action matches Action::Error(e) ==> after.transcript == v.transcript.push(
                (TranscriptKind::Error, e@),
            )
            &&& action is TurnCompleted || action is TurnCancelled || action is Error
                ==> !after.active_turn && after.editor == v.editor
            &&& action is TurnCompleted || action is TurnCancelled ==> after.transcript
                == v.transcript
        }),
{
    let last = if v.transcript.len() > 0 {
        v.transcript.last().1
    } else {
        Seq::empty()
    };
    match action {
        Action::TextDelta(t) => {
            text::law_texts_hold_what_was_put_there(last, t@, last);
            text::law_texts_hold_what_was_put_there(Seq::empty(), t@, last);
            assert(Seq::<char>::empty() + t@ =~= t@);
        },
        Action::ReasoningDelta(t) => {
            text::law_texts_hold_what_was_put_there(last, t@, last);
            text::law_texts_hold_what_was_put_there(Seq::empty(), t@, last);
            assert(Seq::<char>::empty() + t@ =~= t@);
        },
        Action::ToolActivity(t) => {
            text::law_texts_hold_what_was_put_there(last, t@, last);
            text::law_texts_hold_what_was_put_there(Seq::empty(), t@, last);
            assert(Seq::<char>::empty() + t@ =~= t@);
        },
        _ => {},
    }
}

/// A piece of the same kind continues the last entry; one of another kind begins a new
/// one, and all entries before stay.
pub proof fn law_pieces_continue_their_entry(
    list: Seq<(TranscriptKind, Seq<char>)>,
    kind: TranscriptKind,
    before: Seq<char>,
    s: Seq<char>,
)
    ensures
        streamed(list.push((kind, before)), kind, s) == list.push((kind, before + s)),
        list.len() == 0 || list.last().0 != kind ==> streamed(list, kind, s) == list.push(
            (kind, s),
        ),
{
    assert(list.push((kind, before)).drop_last() =~= list);
}

} // verus!
