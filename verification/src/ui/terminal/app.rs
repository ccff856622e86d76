//! The terminal application: what keys, clicks and events make of it.
use crate::ids::ProviderId;
use crate::model::Usage;
use crate::text;
use crate::ui::cursor;
use crate::ui::terminal::editbar::EditBarState;
use crate::ui::terminal::editor::EditorState;
use crate::ui::terminal::messages;
use crate::ui::terminal::messages::{
    render_transcript, transcript_height, HitRegion, PlacedLine, Rect,
};
use crate::ui::terminal::statusbar::{ModelRef, StatusBarState};
use crate::ui::terminal::theme;
use crate::ui::terminal::timeline;
use crate::ui::terminal::timeline::{
    build_transcript, SessionState, TranscriptItem, TranscriptItemId,
};
use vstd::prelude::*;

verus! {

/// What a session keeps of the user's choices.
#[derive(Clone, Debug, PartialEq, Eq)]
pub struct UIState {
    pub selected_model: Option<ModelRef>,
    pub selected_mode: Option<String>,
    pub selected_variant: Option<String>,
}

/// The application.
pub struct TerminalApp {
    pub editor: EditorState,
    pub statusbar: StatusBarState,
    pub editbar: EditBarState,
    pub default_model: ModelRef,
    pub provider_id: ProviderId,
    pub model: String,
    pub streaming: String,
    pub reasoning: String,
    pub status: String,
    pub scroll_offset: u128,
    pub max_scroll: u128,
    pub expanded: Vec<TranscriptItemId>,
    pub hovered: Option<TranscriptItemId>,
    pub hit_regions: Vec<HitRegion>,
    pub message_area: Rect,
    pub transcript: Vec<TranscriptItem>,
    pub content_height: u128,
}

/// The bars of the application, in mathematical terms.
pub ghost struct BarsView {
    pub title: Seq<char>,
    pub selected_model: Option<(ProviderId, Seq<char>)>,
    pub usage: Option<Usage>,
    pub status: Seq<char>,
    pub mode: Seq<char>,
    pub model: Seq<char>,
    pub variant: Seq<char>,
    pub input_state: Seq<char>,
}

/// What the application shows of the messages, in mathematical terms.
pub ghost struct PaneView {
    pub scroll_offset: int,
    pub max_scroll: int,
    pub expanded: Seq<TranscriptItemId>,
    pub hovered: Option<TranscriptItemId>,
    pub hit_regions: Seq<HitRegion>,
    pub message_area: Rect,
    pub transcript: Seq<timeline::ItemView>,
    pub content_height: int,
}

/// The application in mathematical terms.
pub ghost struct AppView {
    pub editor: cursor::Place,
    pub bars: BarsView,
    pub default_model: (ProviderId, Seq<char>),
    pub provider_id: ProviderId,
    pub model: Seq<char>,
    pub streaming: Seq<char>,
    pub reasoning: Seq<char>,
    pub status: Seq<char>,
    pub pane: PaneView,
}

pub open spec fn model_pair(m: ModelRef) -> (ProviderId, Seq<char>) {
    (m.provider_id, m.model_id@)
}

pub open spec fn opt_model(m: Option<ModelRef>) -> Option<(ProviderId, Seq<char>)> {
    match m {
        Some(m) => Some(model_pair(m)),
        None => None,
    }
}

impl View for TerminalApp {
    type V = AppView;

    open spec fn view(&self) -> AppView {
        AppView {
            editor: self.editor@,
            bars: BarsView {
                title: self.statusbar.title@,
                selected_model: opt_model(self.statusbar.selected_model),
                usage: self.statusbar.usage,
                status: self.statusbar.status@,
                mode: self.editbar.mode@,
                model: self.editbar.model@,
                variant: self.editbar.variant@,
                input_state: self.editbar.input_state@,
            },
            default_model: model_pair(self.default_model),
            provider_id: self.provider_id,
            model: self.model@,
            streaming: self.streaming@,
            reasoning: self.reasoning@,
            status: self.status@,
            pane: PaneView {
                scroll_offset: self.scroll_offset as int,
                max_scroll: self.max_scroll as int,
                expanded: self.expanded@,
                hovered: self.hovered,
                hit_regions: self.hit_regions@,
                message_area: self.message_area,
                transcript: timeline::item_views(self.transcript@),
                content_height: self.content_height as int,
            },
        }
    }
}

fn clone_model(m: &ModelRef) -> (r: ModelRef)
    ensures
        model_pair(r) == model_pair(*m),
{
    ModelRef { provider_id: m.provider_id, model_id: text::owned(m.model_id.as_str()) }
}

// ---------------------------------------------------------------------------
// Choices
// ---------------------------------------------------------------------------

pub open spec fn text_or(t: Option<String>, otherwise: Seq<char>) -> Seq<char> {
    match t {
        Some(s) => s@,
        None => otherwise,
    }
}

/// The application with the choices that a session keeps; what was not chosen is
/// what it is by default.
pub open spec fn hydrated(v: AppView, ui: UIState) -> AppView {
    let chosen = match ui.selected_model {
        Some(m) => model_pair(m),
        None => v.default_model,
    };
    AppView {
        provider_id: chosen.0,
        model: chosen.1,
        bars: BarsView {
            selected_model: Some(chosen),
            mode: text_or(ui.selected_mode, "build"@),
            model: chosen.1,
            variant: text_or(ui.selected_variant, "default"@),
            ..v.bars
        },
        ..v
    }
}

/// What is shown of the messages of a session that was just opened.
pub open spec fn fresh_pane() -> PaneView {
    PaneView {
        scroll_offset: 0,
        max_scroll: 0,
        expanded: Seq::empty(),
        hovered: None,
        hit_regions: Seq::empty(),
        message_area: Rect { x: 0, y: 0, width: 0, height: 0 },
        transcript: Seq::empty(),
        content_height: 0,
    }
}

pub open spec fn empty_editor() -> cursor::Place {
    cursor::Place { text: Seq::empty(), at: 0 }
}

/// The application as it starts, before the choices of its session.
pub open spec fn started(provider_id: ProviderId, model: Seq<char>) -> AppView {
    AppView {
        editor: empty_editor(),
        bars: BarsView {
            title: "AiriCode"@,
            selected_model: Some((provider_id, model)),
            usage: None,
            status: "ready"@,
            mode: "build"@,
            model,
            variant: "default"@,
            input_state: "insert"@,
        },
        default_model: (provider_id, model),
        provider_id,
        model,
        streaming: Seq::empty(),
        reasoning: Seq::empty(),
        status: "ready"@,
        pane: fresh_pane(),
    }
}

/// The application after another session was opened, before its choices.
pub open spec fn reopened(v: AppView) -> AppView {
    AppView {
        editor: empty_editor(),
        bars: BarsView { usage: None, status: "ready"@, input_state: "insert"@, ..v.bars },
        streaming: Seq::empty(),
        reasoning: Seq::empty(),
        status: "ready"@,
        pane: fresh_pane(),
        ..v
    }
}

fn new_editor() -> (r: EditorState)
    ensures
        r.wf(),
        r@ == empty_editor(),
{
    let r = EditorState::default();
    proof {
        assert(r.text@ =~= Seq::empty());
        assert(r.text@.take(0) =~= Seq::empty());
        cursor::lemma_position(r.text@, 0);
    }
    r
}

fn no_text() -> (r: String)
    ensures
        r@ == Seq::<char>::empty(),
{
    let r = String::new();
    proof {
        assert(r@ =~= Seq::empty());
    }
    r
}

// ---------------------------------------------------------------------------
// Scrolling
// ---------------------------------------------------------------------------

/// How far a page is scrolled: four fifths of what is visible.
pub open spec fn page_of(area: Rect) -> int {
    messages::greater(area.height as int * 4 / 5, 1)
}

pub open spec fn scrolled_up(p: PaneView, rows: int) -> PaneView {
    PaneView { scroll_offset: messages::lesser(p.scroll_offset + rows, p.max_scroll), ..p }
}

pub open spec fn scrolled_down(p: PaneView, rows: int) -> PaneView {
    PaneView { scroll_offset: messages::greater(p.scroll_offset - rows, 0), ..p }
}

/// An offset that follows a height from `before` to `after`, within what can be told.
pub open spec fn followed(offset: int, before: int, after: int) -> int {
    messages::lesser(messages::greater(offset + after - before, 0), u128::MAX as int)
}

fn follow(offset: u128, before: u128, after: u128) -> (r: u128)
    ensures
        r == followed(offset as int, before as int, after as int),
{
    if after >= before {
        let more: u128 = after - before;
        if more > u128::MAX - offset {
            u128::MAX
        } else {
            offset + more
        }
    } else {
        let less: u128 = before - after;
        if less >= offset {
            0
        } else {
            offset - less
        }
    }
}

// ---------------------------------------------------------------------------
// Expanding
// ---------------------------------------------------------------------------

/// Identifiers without one of them.
pub open spec fn without(list: Seq<TranscriptItemId>, id: TranscriptItemId) -> Seq<
    TranscriptItemId,
>
    decreases list.len(),
{
    if list.len() == 0 {
        Seq::empty()
    } else {
        let before = without(list.drop_last(), id);
        if list.last() == id {
            before
        } else {
            before.push(list.last())
        }
    }
}

/// What is expanded after an item was clicked.
pub open spec fn toggled(list: Seq<TranscriptItemId>, id: TranscriptItemId) -> Seq<
    TranscriptItemId,
> {
    if list.contains(id) {
        without(list, id)
    } else {
        list.push(id)
    }
}

/// What is shown after an item was clicked: what is visible stays where it is, where
/// the messages are scrolled.
pub open spec fn after_toggle(p: PaneView, id: TranscriptItemId) -> PaneView {
    let expanded = toggled(p.expanded, id);
    let width = p.message_area.width;
    let before = if p.scroll_offset == 0 || width == 0 {
        0
    } else {
        messages::total_height(p.transcript, width, p.expanded) as int
    };
    if before == 0 {
        PaneView { expanded, ..p }
    } else {
        let after = messages::total_height(p.transcript, width, expanded) as int;
        PaneView {
            expanded,
            scroll_offset: followed(p.scroll_offset, before, after),
            content_height: after,
            ..p
        }
    }
}

/// The last region that has a cell.
pub open spec fn region_at(list: Seq<HitRegion>, x: u16, y: u16) -> Option<HitRegion>
    decreases list.len(),
{
    if list.len() == 0 {
        None
    } else if messages::has_cell(list.last().rect, x, y) {
        Some(list.last())
    } else {
        region_at(list.drop_last(), x, y)
    }
}

fn find_region(list: &[HitRegion], x: u16, y: u16) -> (r: Option<HitRegion>)
    ensures
        r == region_at(list@, x, y),
{
    let mut i: usize = list.len();
    proof {
        assert(list@.take(i as int) =~= list@);
    }
    while i > 0
        invariant
            i <= list@.len(),
            region_at(list@, x, y) == region_at(list@.take(i as int), x, y),
        decreases i,
    {
        proof {
            assert(list@.take(i as int).last() == list@[i - 1]);
            assert(list@.take(i as int).drop_last() =~= list@.take(i - 1));
        }
        if list[i - 1].rect.contains(x, y) {
            return Some(list[i - 1]);
        }
        i -= 1;
    }
    None
}

fn toggle(list: &mut Vec<TranscriptItemId>, id: TranscriptItemId)
    ensures
        final(list)@ == toggled(old(list)@, id),
{
    let ghost all = list@;
    let mut kept: Vec<TranscriptItemId> = Vec::new();
    let mut found = false;
    let mut i: usize = 0;
    proof {
        assert(all.take(0) =~= Seq::empty());
    }
    while i < list.len()
        invariant
            i <= list@.len(),
            list@ == all,
            kept@ == without(all.take(i as int), id),
            found == all.take(i as int).contains(id),
        decreases list@.len() - i,
    {
        proof {
            assert(all.take(i + 1).drop_last() =~= all.take(i as int));
            assert(all.take(i + 1).last() == all[i as int]);
            assert(all.take(i + 1) =~= all.take(i as int).push(all[i as int]));
            if all.take(i as int).contains(id) {
                let k = choose|k: int| 0 <= k < i && all.take(i as int)[k] == id;
                assert(all.take(i + 1)[k] == id);
            }
            let more = all.take(i + 1);
            if more.contains(id) && all[i as int] != id {
                let k = choose|k: int| 0 <= k < more.len() && more[k] == id;
                assert(all.take(i as int)[k] == id);
            }
        }
        if list[i] == id {
            proof {
                assert(all.take(i + 1)[i as int] == id);
            }
            found = true;
        } else {
            kept.push(list[i]);
        }
        i += 1;
    }
    proof {
        assert(all.take(i as int) =~= all);
    }
    if found {
        *list = kept;
    } else {
        list.push(id);
    }
}

// ---------------------------------------------------------------------------
// Keys
// ---------------------------------------------------------------------------

#[derive(Clone, Copy, Debug, PartialEq, Eq, Structural)]
pub enum Key {
    Char(char),
    Enter,
    Backspace,
    Left,
    Right,
    PageUp,
    PageDown,
    Other,
}

/// The keys that were held.
#[derive(Clone, Copy, Debug, PartialEq, Eq, Structural)]
pub enum Modifiers {
    Plain,
    Shift,
    Control,
    Other,
}

/// A turn that is to be run.
#[derive(Clone, Debug, PartialEq, Eq)]
pub struct TurnRequest {
    pub provider_id: ProviderId,
    pub model: String,
    pub mode: String,
    pub input: String,
}

/// What a key asks the host for.
#[derive(Clone, Debug, PartialEq, Eq)]
pub enum KeyOutcome {
    Nothing,
    Quit,
    Run(TurnRequest),
}

/// What a key asks the host for, in mathematical terms.
pub ghost enum OutcomeView {
    Nothing,
    Quit,
    Run(ProviderId, Seq<char>, Seq<char>, Seq<char>),
}

impl View for KeyOutcome {
    type V = OutcomeView;

    open spec fn view(&self) -> OutcomeView {
        match *self {
            KeyOutcome::Nothing => OutcomeView::Nothing,
            KeyOutcome::Quit => OutcomeView::Quit,
            KeyOutcome::Run(t) => OutcomeView::Run(t.provider_id, t.model@, t.mode@, t.input@),
        }
    }
}

/// What a key makes of the application, and what it asks the host for.
pub open spec fn keyed(v: AppView, key: Key, held: Modifiers) -> (AppView, OutcomeView) {
    let p = v.editor;
    match key {
        Key::Enter => if p.text.len() == 0 {
            (AppView { editor: empty_editor(), ..v }, OutcomeView::Nothing)
        } else {
            (
                AppView {
                    editor: empty_editor(),
                    status: "running"@,
                    pane: PaneView { scroll_offset: 0, ..v.pane },
                    ..v
                },
                OutcomeView::Run(v.provider_id, v.model, v.bars.mode, p.text),
            )
        },
        Key::Backspace => (
            AppView { editor: cursor::erased_before(p), ..v },
            OutcomeView::Nothing,
        ),
        Key::Left => (
            AppView { editor: cursor::Place { text: p.text, at: cursor::moved_left(p) }, ..v },
            OutcomeView::Nothing,
        ),
        Key::Right => (
            AppView { editor: cursor::Place { text: p.text, at: cursor::moved_right(p) }, ..v },
            OutcomeView::Nothing,
        ),
        Key::PageUp => (
            AppView { pane: scrolled_up(v.pane, page_of(v.pane.message_area)), ..v },
            OutcomeView::Nothing,
        ),
        Key::PageDown => (
            AppView { pane: scrolled_down(v.pane, page_of(v.pane.message_area)), ..v },
            OutcomeView::Nothing,
        ),
        Key::Char(c) => if c == 'c' && held == Modifiers::Control {
            (v, OutcomeView::Quit)
        } else if c == 'q' && held == Modifiers::Plain && p.text.len() == 0 {
            (v, OutcomeView::Quit)
        } else if held == Modifiers::Plain || held == Modifiers::Shift {
            (AppView { editor: cursor::typed(p, seq![c]), ..v }, OutcomeView::Nothing)
        } else {
            (v, OutcomeView::Nothing)
        },
        Key::Other => (v, OutcomeView::Nothing),
    }
}

// ---------------------------------------------------------------------------
// The mouse
// ---------------------------------------------------------------------------

#[derive(Clone, Copy, Debug, PartialEq, Eq, Structural)]
pub enum Mouse {
    ScrollUp,
    ScrollDown,
    Moved,
    LeftDown,
    Other,
}

/// What the mouse makes of what is shown.
pub open spec fn moused(p: PaneView, mouse: Mouse, x: u16, y: u16) -> PaneView {
    let inside = messages::has_cell(p.message_area, x, y);
    match mouse {
        Mouse::ScrollUp => if inside {
            scrolled_up(p, 4)
        } else {
            p
        },
        Mouse::ScrollDown => if inside {
            scrolled_down(p, 4)
        } else {
            p
        },
        Mouse::Moved => PaneView {
            hovered: if inside {
                match region_at(p.hit_regions, x, y) {
                    Some(r) => Some(r.id),
                    None => None,
                }
            } else {
                None
            },
            ..p
        },
        Mouse::LeftDown => if inside {
            match region_at(p.hit_regions, x, y) {
                Some(r) => after_toggle(p, r.id),
                None => p,
            }
        } else {
            p
        },
        Mouse::Other => p,
    }
}

// ---------------------------------------------------------------------------
// Events
// ---------------------------------------------------------------------------

/// What the runtime reports.
#[derive(Clone, Debug, PartialEq, Eq)]
pub enum RuntimeEvent {
    ProviderStreamDelta { text: String, reasoning: bool },
    ProviderUsageUpdated { usage: Usage },
    AssistantMessageCommitted,
    TurnCompleted,
    TurnCancelled,
    TurnFailed { error: String },
    ToolExecutionStarted { name: String },
    ToolExecutionFinished,
    Other,
}

/// What an event makes of the application, before the bar shows its status.
pub open spec fn reported(v: AppView, event: RuntimeEvent) -> AppView {
    match event {
        RuntimeEvent::ProviderStreamDelta { text, reasoning } => if reasoning {
            AppView { reasoning: v.reasoning + text@, ..v }
        } else {
            AppView { streaming: v.streaming + text@, ..v }
        },
        RuntimeEvent::ProviderUsageUpdated { usage } => AppView {
            bars: BarsView { usage: Some(usage), ..v.bars },
            ..v
        },
        RuntimeEvent::AssistantMessageCommitted => AppView {
            streaming: Seq::empty(),
            reasoning: Seq::empty(),
            ..v
        },
        RuntimeEvent::TurnCompleted => AppView { status: "ready"@, ..v },
        RuntimeEvent::TurnCancelled => AppView { status: "cancelled"@, ..v },
        RuntimeEvent::TurnFailed { error } => AppView {
            streaming: Seq::empty(),
            reasoning: Seq::empty(),
            status: "error: "@ + error@,
            ..v
        },
        RuntimeEvent::ToolExecutionStarted { name } => AppView {
            status: "running "@ + name@,
            ..v
        },
        RuntimeEvent::ToolExecutionFinished => AppView { status: "running"@, ..v },
        RuntimeEvent::Other => v,
    }
}

/// What an event makes of the application.
pub open spec fn evented(v: AppView, event: RuntimeEvent) -> AppView {
    let r = reported(v, event);
    AppView { bars: BarsView { status: r.status, ..r.bars }, ..r }
}

// ---------------------------------------------------------------------------
// Drawing
// ---------------------------------------------------------------------------

/// An area without its margins at the left and at the right.
pub open spec fn inside_margin(area: Rect) -> Rect {
    Rect {
        x: messages::lesser(area.x + theme::MESSAGE_MARGIN, u16::MAX as int) as u16,
        y: area.y,
        width: messages::greater(area.width - 2 * theme::MESSAGE_MARGIN, 0) as u16,
        height: area.height,
    }
}

/// An area without its margins.
pub fn margin(area: Rect) -> (r: Rect)
    ensures
        r == inside_margin(area),
{
    let x: u16 = if area.x > u16::MAX - theme::MESSAGE_MARGIN {
        u16::MAX
    } else {
        area.x + theme::MESSAGE_MARGIN
    };
    let sides: u16 = theme::MESSAGE_MARGIN * 2;
    let width: u16 = if area.width > sides {
        area.width - sides
    } else {
        0
    };
    Rect { x, y: area.y, width, height: area.height }
}

/// What is shown of messages in an area: what is visible stays where it is, where
/// the messages are scrolled.
pub open spec fn drawn(p: PaneView, transcript: Seq<timeline::ItemView>, area: Rect) -> PaneView {
    let height = messages::total_height(transcript, area.width, p.expanded) as int;
    let offset = if p.scroll_offset > 0 {
        followed(p.scroll_offset, p.content_height, height)
    } else {
        p.scroll_offset
    };
    let empty = area.width == 0 || area.height == 0;
    let limit = if empty {
        0
    } else {
        messages::scroll_limit(height, area)
    };
    PaneView {
        scroll_offset: messages::lesser(offset, limit),
        max_scroll: limit,
        hit_regions: if empty {
            Seq::empty()
        } else {
            messages::regions_of(
                transcript,
                messages::origin(height, offset, area),
                area,
                p.expanded,
            )
        },
        message_area: area,
        transcript,
        content_height: height,
        ..p
    }
}

/// A text, where there is one.
pub open spec fn some_text(s: Seq<char>) -> Option<Seq<char>> {
    if s.len() == 0 {
        None
    } else {
        Some(s)
    }
}

impl TerminalApp {
    /// Whether the cursor of the editor stands between two characters.
    pub open spec fn wf(&self) -> bool {
        self.editor.wf()
    }

    /// Starts the application on a session that keeps these choices.
    pub fn new(provider_id: ProviderId, model: &str, ui: UIState) -> (r: Self)
        ensures
            r.wf(),
            r@ == hydrated(started(provider_id, model@), ui),
    {
        let expanded: Vec<TranscriptItemId> = Vec::new();
        let hit_regions: Vec<HitRegion> = Vec::new();
        let transcript: Vec<TranscriptItem> = Vec::new();
        let chosen = ModelRef { provider_id, model_id: text::owned(model) };
        let mut app = TerminalApp {
            editor: new_editor(),
            statusbar: StatusBarState {
                title: text::owned("AiriCode"),
                selected_model: Some(clone_model(&chosen)),
                usage: None,
                status: text::owned("ready"),
            },
            editbar: EditBarState {
                mode: text::owned("build"),
                model: text::owned(model),
                variant: text::owned("default"),
                input_state: text::owned("insert"),
            },
            default_model: chosen,
            provider_id,
            model: text::owned(model),
            streaming: no_text(),
            reasoning: no_text(),
            status: text::owned("ready"),
            scroll_offset: 0,
            max_scroll: 0,
            expanded,
            hovered: None,
            hit_regions,
            message_area: Rect::default(),
            transcript,
            content_height: 0,
        };
        proof {
            assert(app@.pane.expanded =~= Seq::empty());
            assert(app@.pane.hit_regions =~= Seq::empty());
            assert(app@.pane.transcript =~= Seq::empty());
            assert(app@ == started(provider_id, model@));
        }
        app.hydrate_ui_state(ui);
        app
    }

    /// Takes over the choices that a session keeps.
    pub fn hydrate_ui_state(&mut self, ui: UIState)
        ensures
            final(self)@ == hydrated(old(self)@, ui),
            final(self).editor == old(self).editor,
    {
        let chosen = match ui.selected_model {
            Some(m) => m,
            None => clone_model(&self.default_model),
        };
        self.provider_id = chosen.provider_id;
        self.model = text::owned(chosen.model_id.as_str());
        self.editbar.mode = match ui.selected_mode {
            Some(m) => m,
            None => text::owned("build"),
        };
        self.editbar.model = text::owned(chosen.model_id.as_str());
        self.editbar.variant = match ui.selected_variant {
            Some(v) => v,
            None => text::owned("default"),
        };
        self.statusbar.selected_model = Some(chosen);
    }

    /// Shows another session, which keeps these choices.
    pub fn set_session(&mut self, ui: UIState)
        ensures
            final(self).wf(),
            final(self)@ == hydrated(reopened(old(self)@), ui),
    {
        self.editor = new_editor();
        self.streaming = no_text();
        self.reasoning = no_text();
        self.status = text::owned("ready");
        self.statusbar.usage = None;
        self.statusbar.status = text::owned("ready");
        self.scroll_offset = 0;
        self.max_scroll = 0;
        self.expanded = Vec::new();
        self.hovered = None;
        self.hit_regions = Vec::new();
        self.message_area = Rect::default();
        self.transcript = Vec::new();
        self.content_height = 0;
        self.editbar.input_state = text::owned("insert");
        proof {
            assert(self@.pane.expanded =~= Seq::empty());
            assert(self@.pane.hit_regions =~= Seq::empty());
            assert(self@.pane.transcript =~= Seq::empty());
            assert(self@.pane == fresh_pane());
        }
        self.hydrate_ui_state(ui);
    }

    /// Handles a key.
    pub fn handle_key(&mut self, key: Key, held: Modifiers) -> (r: KeyOutcome)
        requires
            old(self).wf(),
        ensures
            final(self).wf(),
            (final(self)@, r@) == keyed(old(self)@, key, held),
    {
        match key {
            Key::Enter => {
                let input = self.editor.take();
                proof {
                    assert(self.editor.text@ =~= Seq::empty());
                    assert(self.editor.text@.take(0) =~= Seq::empty());
                    cursor::lemma_position(self.editor.text@, 0);
                }
                if input.as_str().is_empty() {
                    return KeyOutcome::Nothing;
                }
                self.scroll_offset = 0;
                self.status = text::owned("running");
                KeyOutcome::Run(
                    TurnRequest {
                        provider_id: self.provider_id,
                        model: text::owned(self.model.as_str()),
                        mode: text::owned(self.editbar.mode.as_str()),
                        input,
                    },
                )
            },
            Key::Backspace => {
                self.editor.backspace();
                KeyOutcome::Nothing
            },
            Key::Left => {
                self.editor.move_left();
                KeyOutcome::Nothing
            },
            Key::Right => {
                self.editor.move_right();
                KeyOutcome::Nothing
            },
            Key::PageUp => {
                let page: u128 = self.page();
                self.scroll_up(page);
                KeyOutcome::Nothing
            },
            Key::PageDown => {
                let page: u128 = self.page();
                self.scroll_down(page);
                KeyOutcome::Nothing
            },
            Key::Char(c) => {
                if c == 'c' && held == Modifiers::Control {
                    return KeyOutcome::Quit;
                }
                if c == 'q' && held == Modifiers::Plain && self.editor.text.as_str().is_empty() {
                    return KeyOutcome::Quit;
                }
                if held == Modifiers::Plain || held == Modifiers::Shift {
                    let mut typed = String::new();
                    typed.push(c);
                    proof {
                        assert(typed@ =~= seq![c]);
                    }
                    self.editor.insert(typed.as_str());
                }
                KeyOutcome::Nothing
            },
            Key::Other => KeyOutcome::Nothing,
        }
    }

    fn page(&self) -> (r: u128)
        ensures
            r == page_of(self.message_area),
    {
        let rows: u128 = self.message_area.height as u128 * 4 / 5;
        if rows > 1 {
            rows
        } else {
            1
        }
    }

    fn scroll_up(&mut self, rows: u128)
        ensures
            final(self)@ == (AppView {
                pane: scrolled_up(old(self)@.pane, rows as int),
                ..old(self)@
            }),
            final(self).editor == old(self).editor,
    {
        if self.scroll_offset >= self.max_scroll || rows >= self.max_scroll - self.scroll_offset {
            self.scroll_offset = self.max_scroll;
        } else {
            self.scroll_offset = self.scroll_offset + rows;
        }
    }

    fn scroll_down(&mut self, rows: u128)
        ensures
            final(self)@ == (AppView {
                pane: scrolled_down(old(self)@.pane, rows as int),
                ..old(self)@
            }),
            final(self).editor == old(self).editor,
    {
        if rows >= self.scroll_offset {
            self.scroll_offset = 0;
        } else {
            self.scroll_offset = self.scroll_offset - rows;
        }
    }

    fn toggle_expanded(&mut self, id: TranscriptItemId)
        ensures
            final(self)@ == (AppView {
                pane: after_toggle(old(self)@.pane, id),
                ..old(self)@
            }),
            final(self).editor == old(self).editor,
    {
        let width: u16 = self.message_area.width;
        let before: u128 = if self.scroll_offset == 0 || width == 0 {
            0
        } else {
            transcript_height(self.transcript.as_slice(), width, self.expanded.as_slice())
        };
        toggle(&mut self.expanded, id);
        if before == 0 {
            return;
        }
        let after: u128 = transcript_height(
            self.transcript.as_slice(),
            width,
            self.expanded.as_slice(),
        );
        self.scroll_offset = follow(self.scroll_offset, before, after);
        self.content_height = after;
    }

    /// Handles the mouse.
    pub fn handle_mouse(&mut self, mouse: Mouse, x: u16, y: u16)
        ensures
            final(self)@ == (AppView {
                pane: moused(old(self)@.pane, mouse, x, y),
                ..old(self)@
            }),
            final(self).editor == old(self).editor,
    {
        let inside = self.message_area.contains(x, y);
        match mouse {
            Mouse::ScrollUp => {
                if inside {
                    self.scroll_up(4);
                }
            },
            Mouse::ScrollDown => {
                if inside {
                    self.scroll_down(4);
                }
            },
            Mouse::Moved => {
                self.hovered = if inside {
                    match find_region(self.hit_regions.as_slice(), x, y) {
                        Some(region) => Some(region.id),
                        None => None,
                    }
                } else {
                    None
                };
            },
            Mouse::LeftDown => {
                if inside {
                    if let Some(region) = find_region(self.hit_regions.as_slice(), x, y) {
                        self.toggle_expanded(region.id);
                    }
                }
            },
            Mouse::Other => {},
        }
    }

    /// Handles an event of the runtime.
    pub fn handle_runtime_event(&mut self, event: RuntimeEvent)
        ensures
            final(self)@ == evented(old(self)@, event),
            final(self).editor == old(self).editor,
    {
        match event {
            RuntimeEvent::ProviderStreamDelta { text, reasoning } => {
                if reasoning {
                    self.reasoning = text::cat2(self.reasoning.as_str(), text.as_str());
                } else {
                    self.streaming = text::cat2(self.streaming.as_str(), text.as_str());
                }
            },
            RuntimeEvent::ProviderUsageUpdated { usage } => {
                self.statusbar.usage = Some(usage);
            },
            RuntimeEvent::AssistantMessageCommitted => {
                self.streaming = no_text();
                self.reasoning = no_text();
            },
            RuntimeEvent::TurnCompleted => {
                self.status = text::owned("ready");
            },
            RuntimeEvent::TurnCancelled => {
                self.status = text::owned("cancelled");
            },
            RuntimeEvent::TurnFailed { error } => {
                self.streaming = no_text();
                self.reasoning = no_text();
                self.status = text::cat2("error: ", error.as_str());
            },
            RuntimeEvent::ToolExecutionStarted { name } => {
                self.status = text::cat2("running ", name.as_str());
            },
            RuntimeEvent::ToolExecutionFinished => {
                self.status = text::owned("running");
            },
            RuntimeEvent::Other => {},
        }
        self.statusbar.status = text::owned(self.status.as_str());
    }

    /// Draws the messages of a session into an area: gives the lines that are placed.
    pub fn draw(&mut self, state: &SessionState, area: Rect) -> (r: Vec<PlacedLine>)
        requires
            messages::on_screen(inside_margin(area)),
        ensures
            ({
                let before = old(self)@;
                let transcript = timeline::all_items(
                    timeline::timeline_of(
                        *state,
                        some_text(before.streaming),
                        some_text(before.reasoning),
                        None,
                    ),
                );
                let inner = inside_margin(area);
                let pane = drawn(before.pane, transcript, inner);
                &&& final(self)@ == (AppView { pane, ..before })
                &&& messages::placed_views(r@) == (if inner.width == 0 || inner.height == 0 {
                    Seq::empty()
                } else {
                    messages::all_visible(
                        transcript,
                        messages::origin(pane.content_height, pane.scroll_offset, inner),
                        inner,
                        pane.expanded,
                        pane.hovered,
                        messages::user_modes(transcript),
                    )
                })
            }),
            final(self).editor == old(self).editor,
    {
        let streaming = if self.streaming.as_str().is_empty() {
            None
        } else {
            Some(self.streaming.as_str())
        };
        let reasoning = if self.reasoning.as_str().is_empty() {
            None
        } else {
            Some(self.reasoning.as_str())
        };
        let transcript = build_transcript(state, streaming, reasoning);
        self.message_area = margin(area);
        let height: u128 = transcript_height(
            transcript.as_slice(),
            self.message_area.width,
            self.expanded.as_slice(),
        );
        if self.scroll_offset > 0 {
            self.scroll_offset = follow(self.scroll_offset, self.content_height, height);
        }
        self.content_height = height;
        self.transcript = transcript;
        let (rendered, lines) = render_transcript(
            self.message_area,
            self.transcript.as_slice(),
            self.scroll_offset,
            self.expanded.as_slice(),
            self.hovered,
        );
        self.max_scroll = rendered.max_scroll;
        if self.scroll_offset > self.max_scroll {
            self.scroll_offset = self.max_scroll;
        }
        self.hit_regions = rendered.hit_regions;
        proof {
            if self.message_area.width == 0 || self.message_area.height == 0 {
                assert(self.hit_regions@ =~= Seq::empty());
                assert(messages::placed_views(lines@) =~= Seq::empty());
            }
        }
        lines
    }
}

// ---------------------------------------------------------------------------
// Laws
// ---------------------------------------------------------------------------

/// Clicking an item that is not expanded twice changes nothing of what is expanded.
pub proof fn law_two_clicks_change_nothing(list: Seq<TranscriptItemId>, id: TranscriptItemId)
    requires
        !list.contains(id),
    ensures
        toggled(toggled(list, id), id) == list,
{
    let once = list.push(id);
    assert(once[list.len() as int] == id);
    assert(once.contains(id));
    assert(once.drop_last() =~= list);
    lemma_without_absent(list, id);
}

proof fn lemma_without_absent(list: Seq<TranscriptItemId>, id: TranscriptItemId)
    requires
        !list.contains(id),
    ensures
        without(list, id) == list,
    decreases list.len(),
{
    if list.len() > 0 {
        let front = list.drop_last();
        assert(!front.contains(id)) by {
            if front.contains(id) {
                let k = choose|k: int| 0 <= k < front.len() && front[k] == id;
                assert(list[k] == id);
            }
        }
        assert(list[list.len() - 1] != id);
        lemma_without_absent(front, id);
        assert(front.push(list.last()) =~= list);
    } else {
        assert(without(list, id) =~= list);
    }
}

/// After drawing, the messages are never scrolled beyond their limit.
pub proof fn law_drawing_keeps_the_limit(
    p: PaneView,
    transcript: Seq<timeline::ItemView>,
    area: Rect,
)
    ensures
        drawn(p, transcript, area).scroll_offset <= drawn(p, transcript, area).max_scroll,
{
}

/// Messages that are not scrolled stay so, however many come: their end is visible.
pub proof fn law_the_end_stays_visible(
    p: PaneView,
    transcript: Seq<timeline::ItemView>,
    area: Rect,
)
    requires
        p.scroll_offset == 0,
    ensures
        drawn(p, transcript, area).scroll_offset == 0,
{
}

/// A click opens or closes one item and leaves the others.
pub proof fn law_a_click_changes_one_item(
    list: Seq<TranscriptItemId>,
    id: TranscriptItemId,
    other: TranscriptItemId,
)
    ensures
        toggled(list, id).contains(id) <==> !list.contains(id),
        other != id ==> (toggled(list, id).contains(other) <==> list.contains(other)),
{
    lemma_without_holds(list, id, id);
    lemma_without_holds(list, id, other);
    let more = list.push(id);
    assert(more[list.len() as int] == id);
    if list.contains(other) {
        assert(more[list.index_of(other)] == other);
    }
}

proof fn lemma_without_holds(
    list: Seq<TranscriptItemId>,
    id: TranscriptItemId,
    other: TranscriptItemId,
)
    ensures
        without(list, id).contains(other) <==> list.contains(other) && other != id,
    decreases list.len(),
{
    let left = without(list, id);
    if list.len() > 0 {
        let front = list.drop_last();
        let before = without(front, id);
        lemma_without_holds(front, id, other);
        if front.contains(other) {
            assert(list[front.index_of(other)] == other);
        }
        if before.contains(other) {
            assert(left[before.index_of(other)] == other);
        }
        if list.contains(other) {
            let k = list.index_of(other);
            if k < front.len() {
                assert(front[k] == other);
            } else if other != id {
                assert(left[left.len() - 1] == other);
            }
        }
        if left.contains(other) {
            let k = left.index_of(other);
            if k < before.len() {
                assert(before[k] == other);
            } else {
                assert(list[list.len() - 1] == other);
            }
        }
    }
}

/// Of the regions under the mouse the one that was drawn last is hit, and none where there
/// is none.
pub proof fn law_the_topmost_region_is_hit(
    below: Seq<HitRegion>,
    region: HitRegion,
    above: Seq<HitRegion>,
    x: u16,
    y: u16,
)
    requires
        messages::has_cell(region.rect, x, y),
        forall|i: int|
            0 <= i < above.len() ==> !messages::has_cell((#[trigger] above[i]).rect, x, y),
    ensures
        region_at(below.push(region) + above, x, y) == Some(region),
        region_at(above, x, y) is None,
    decreases above.len(),
{
    let all = below.push(region) + above;
    if above.len() == 0 {
        assert(all =~= below.push(region));
    } else {
        let front = above.drop_last();
        assert forall|i: int| 0 <= i < front.len() implies !messages::has_cell(
            (#[trigger] front[i]).rect,
            x,
            y,
        ) by {
            assert(front[i] == above[i]);
        }
        law_the_topmost_region_is_hit(below, region, front, x, y);
        assert(all.drop_last() =~= below.push(region) + front);
        assert(!messages::has_cell(above[above.len() - 1].rect, x, y));
        assert(all.last() == above.last());
    }
}

/// What is written is run with the provider, the model and the mode that are chosen, and
/// the editor is empty then. Nothing is run without a text.
pub proof fn law_what_is_written_is_run(v: AppView, key: Key, held: Modifiers)
    ensures
        key is Enter && v.editor.text.len() > 0 ==> keyed(v, key, held).1 == OutcomeView::Run(
            v.provider_id,
            v.model,
            v.bars.mode,
            v.editor.text,
        ),
        keyed(v, key, held).1 is Run ==> key is Enter && v.editor.text.len() > 0,
        key is Enter ==> keyed(v, key, held).0.editor.text.len() == 0,
        key == Key::Char('c') && held == Modifiers::Control ==> keyed(v, key, held).1
            == OutcomeView::Quit,
        key == Key::Char('q') && held == Modifiers::Plain && v.editor.text.len() == 0 ==> keyed(
            v,
            key,
            held,
        ).1 == OutcomeView::Quit,
        keyed(v, key, held).1 is Quit ==> key == Key::Char('c') || key == Key::Char('q'),
        keyed(v, key, held).1 is Quit ==> keyed(v, key, held).0 == v,
{
}

/// What arrives is added to what has arrived, what is said apart from what is thought, and
/// both are gone once the message is stored.
pub proof fn law_what_arrives_is_gathered(v: AppView, event: RuntimeEvent)
    ensures
        ({
            let after = evented(v, event);
            &&& event matches RuntimeEvent::ProviderStreamDelta { text, reasoning } ==> {
                &&& reasoning ==> after.reasoning == v.reasoning + text@ && after.streaming
                    == v.streaming
                &&& !reasoning ==> after.streaming == v.streaming + text@ && after.reasoning
                    == v.reasoning
            }
            &&& event is AssistantMessageCommitted || event is TurnFailed
                ==> after.streaming.len() == 0 && after.reasoning.len() == 0
            &&& event matches RuntimeEvent::ProviderUsageUpdated { usage } ==> after.bars.usage
                == Some(usage)
            &&& !(event is ProviderUsageUpdated) ==> after.bars.usage == v.bars.usage
            &&& event matches RuntimeEvent::TurnFailed { error } ==> after.status == "error: "@
                + error@
            &&& event is TurnCompleted ==> after.status == "ready"@
            &&& event is TurnCancelled ==> after.status == "cancelled"@
            &&& after.bars.status == after.status
            &&& after.editor == v.editor
            &&& after.pane == v.pane
        }),
{
}

/// Scrolling goes as far as is asked for, but not past either end.
pub proof fn law_scrolling_stops_at_the_ends(p: PaneView, rows: int)
    requires
        0 <= p.scroll_offset <= p.max_scroll,
        rows >= 0,
    ensures
        p.scroll_offset + rows <= p.max_scroll ==> scrolled_up(p, rows).scroll_offset
            == p.scroll_offset + rows,
        p.scroll_offset + rows > p.max_scroll ==> scrolled_up(p, rows).scroll_offset
            == p.max_scroll,
        rows <= p.scroll_offset ==> scrolled_down(p, rows).scroll_offset == p.scroll_offset - rows,
        rows > p.scroll_offset ==> scrolled_down(p, rows).scroll_offset == 0,
{
}

/// A session shows the model that it has chosen, or else the one that is usual, everywhere.
pub proof fn law_sessions_show_their_choices(v: AppView, ui: UIState)
    ensures
        ({
            let after = hydrated(v, ui);
            &&& ui.selected_model matches Some(m) ==> after.provider_id == m.provider_id
                && after.model == m.model_id@
            &&& ui.selected_model is None ==> after.provider_id == v.default_model.0
                && after.model == v.default_model.1
            &&& after.bars.selected_model == Some((after.provider_id, after.model))
            &&& after.bars.model == after.model
            &&& ui.selected_mode matches Some(m) ==> after.bars.mode == m@
            &&& ui.selected_mode is None ==> after.bars.mode == "build"@
            &&& ui.selected_variant matches Some(s) ==> after.bars.variant == s@
            &&& ui.selected_variant is None ==> after.bars.variant == "default"@
            &&& after.default_model == v.default_model
        }),
{
}

/// The mouse acts only on the messages: it scrolls them, and it opens and closes the item
/// that it is on. What is read stays in view when its length changes.
pub proof fn law_the_mouse_acts_on_the_messages(p: PaneView, mouse: Mouse, x: u16, y: u16)
    ensures
        !messages::has_cell(p.message_area, x, y) && !(mouse is Moved) ==> moused(p, mouse, x, y)
            == p,
        !messages::has_cell(p.message_area, x, y) && mouse is Moved ==> moused(
            p,
            mouse,
            x,
            y,
        ).hovered is None,
        messages::has_cell(p.message_area, x, y) && mouse is ScrollUp ==> moused(p, mouse, x, y)
            == scrolled_up(p, 4),
        messages::has_cell(p.message_area, x, y) && mouse is ScrollDown ==> moused(p, mouse, x, y)
            == scrolled_down(p, 4),
        messages::has_cell(p.message_area, x, y) && mouse is LeftDown ==> (region_at(
            p.hit_regions,
            x,
            y,
        ) matches Some(r) ==> moused(p, mouse, x, y).expanded == toggled(p.expanded, r.id)),
        messages::has_cell(p.message_area, x, y) && mouse is Moved ==> (region_at(
            p.hit_regions,
            x,
            y,
        ) matches Some(r) ==> moused(p, mouse, x, y).hovered == Some(r.id)),
        !(mouse is LeftDown) ==> moused(p, mouse, x, y).expanded == p.expanded,
{
}

/// Where the content grows or shrinks, what is above the view stays as long as it is; a
/// page is less than the view, but at least one row.
pub proof fn law_the_view_follows_the_content(offset: int, before: int, after: int, area: Rect)
    requires
        0 <= offset <= before,
        0 <= after < u128::MAX,
    ensures
        offset + after >= before ==> after - followed(offset, before, after) == before - offset,
        offset + after < before ==> followed(offset, before, after) == 0,
        page_of(area) >= 1,
        area.height >= 2 ==> page_of(area) < area.height,
{
}

} // verus!
