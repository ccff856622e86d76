use airicode::ids::{fresh, MessageId, NoteId, ProviderId, SessionId};
use airicode::json::{object, Json};
use airicode::model::{Message, MessagePart, NoteContent, ProviderEvent, Role, Usage};
use airicode::ui::columns::{truncate_to_width, unify, wrap_text, wrapped_height};
use airicode::ui::fragments::{
    CommandDescriptor, EditBarFragment, Fragment, FragmentTone, StatusFragment,
    SuggestionFragment, TranscriptFragment,
};
use airicode::ui::host::{
    editor_height, key_action, paste_action, performed, runtime_action, HostAction, Key, KeyPress,
    Performed, RuntimeEvent,
};
use airicode::ui::state::{reduce, Action, Editor, Effect, TranscriptKind, UiState};
use airicode::ui::terminal::app::{
    margin, KeyOutcome, Modifiers, Mouse, TerminalApp, UIState,
};
use airicode::ui::terminal::editor::{Completion, EditorState};
use airicode::ui::terminal::messages::{
    item_layout, render_transcript, transcript_height, Rect,
};
use airicode::ui::terminal::statusbar::StatusBarState;
use airicode::ui::terminal::theme::{mode_color, mode_label, Color};
use airicode::ui::terminal::timeline::{
    build_transcript, timeline, Note, SessionState, StoredMessage, TimelineEntry, TranscriptItem,
    TranscriptItemId,
};
use airicode::utils::timeseq::{TimeSeq, TimeSeqGenerator};

fn state() -> UiState {
    UiState::new(
        "provider".to_string(),
        "model".to_string(),
        "mode".to_string(),
        ".".to_string(),
    )
}

#[test]
fn unicode_edits_stay_on_character_boundaries() {
    let mut editor = Editor::default();
    editor.insert_str("a界🙂");
    editor.move_left();
    editor.backspace();
    assert_eq!(editor.text(), "a🙂");
    assert_eq!(editor.cursor(), 1);
    editor.delete();
    assert_eq!(editor.text(), "a");
}

#[test]
fn vertical_movement_handles_unicode_lines() {
    let mut editor = Editor::default();
    editor.insert_str("界ab\nx\n🙂yz");
    editor.move_up();
    assert_eq!(editor.cursor(), "界ab\nx".len());
    editor.move_up();
    assert_eq!(editor.cursor(), "界".len());
}

#[test]
fn erasing_undoes_typing() {
    let mut editor = Editor::new();
    editor.insert_str("ab");
    editor.move_left();
    editor.insert('é');
    assert_eq!(editor.cursor(), 3);
    editor.backspace();
    assert_eq!(editor.text(), "ab");
    assert_eq!(editor.cursor(), 1);
    editor.move_right();
    editor.move_left();
    assert_eq!(editor.cursor(), 1);
    editor.move_home();
    assert_eq!(editor.cursor(), 0);
    editor.move_end();
    assert_eq!(editor.cursor(), 2);
}

#[test]
fn editors_know_where_the_cursor_is_shown() {
    let mut editor = Editor::new();
    editor.insert_str("abc\n界x");
    assert_eq!(editor.visual_position(10), (1, 3));
    assert_eq!(editor.visual_line_count(10), 2);
    assert_eq!(editor.visual_line_count(2), 4);
}

#[test]
fn submit_returns_effect_and_clears_editor() {
    let update = reduce(
        reduce(state(), Action::Paste("hello".to_string())).state,
        Action::Submit,
    );
    assert_eq!(update.effect, Effect::Send("hello".to_string()));
    assert!(update.state.editor.is_empty());
    assert!(update.state.active_turn);
    assert_eq!(update.state.transcript[0].kind, TranscriptKind::User);
}

#[test]
fn interrupt_cancels_then_exits_when_idle() {
    let mut active = state();
    active.active_turn = true;
    let cancelled = reduce(active, Action::Interrupt);
    assert_eq!(cancelled.effect, Effect::Cancel);
    let exited = reduce(cancelled.state, Action::TurnCancelled);
    let exited = reduce(exited.state, Action::Interrupt);
    assert_eq!(exited.effect, Effect::Exit);
}

#[test]
fn stream_chunks_are_coalesced_by_kind() {
    let state = reduce(state(), Action::TextDelta("hel".to_string())).state;
    let state = reduce(state, Action::TextDelta("lo".to_string())).state;
    assert_eq!(state.transcript[0].text, "hello");
}

#[test]
fn nothing_is_sent_during_a_turn() {
    let mut active = reduce(state(), Action::Paste("hello".to_string())).state;
    active.active_turn = true;
    let update = reduce(active, Action::Submit);
    assert_eq!(update.effect, Effect::Nothing);
    assert_eq!(update.state.editor.text(), "hello");
    assert!(!update.state.should_exit);
}

#[test]
fn errors_end_the_turn_and_are_shown() {
    let mut active = state();
    active.active_turn = true;
    let update = reduce(active, Action::Error("lost".to_string()));
    assert!(!update.state.active_turn);
    let last = update.state.transcript.last().unwrap();
    assert_eq!(last.kind, TranscriptKind::Error);
    assert!(last.text.contains("lost"));
}

fn stored(created_at: TimeSeq, message: Message, metadata: Json) -> StoredMessage {
    StoredMessage { message, created_at, metadata }
}

#[test]
fn transcript_hides_tool_parts_and_uses_stored_mode() {
    let mut message = Message::text(Role::User, "contents", "build");
    message.content.push(MessagePart::tool_call("call", "read", Json::Null));
    let metadata = object(vec![("mode".to_string(), Json::text("plan"))]);
    let state = SessionState {
        messages: vec![stored(TimeSeq::from_parts(1, 0), message, metadata)],
        notes: vec![],
    };
    let items = build_transcript(&state, None, None);
    assert!(matches!(
        &items[0],
        TranscriptItem::UserBox { mode, content, .. } if mode == "plan" && content == "contents"
    ));
}

#[test]
fn notes_are_rendered_as_their_presentation_kind() {
    let created_at = match TimeSeq::new(&mut TimeSeqGenerator::new()) {
        Some(time) => time,
        None => panic!("the first time is free"),
    };
    let note = Note {
        id: NoteId(fresh()),
        content: NoteContent::Subtle { content: "Read src/main.rs".to_string() },
        created_at,
    };
    let state = SessionState { messages: vec![], notes: vec![note] };
    assert!(matches!(
        &build_transcript(&state, None, None)[0],
        TranscriptItem::SubtleNote { content, .. } if content == "Read src/main.rs"
    ));
}

#[test]
fn timelines_are_in_the_order_of_time() {
    let note = Note {
        id: NoteId(1),
        content: NoteContent::Info { content: "between".to_string() },
        created_at: TimeSeq::from_parts(2, 0),
    };
    let late = Message::text(Role::Assistant, "late", "build");
    let early = Message::text(Role::User, "early", "build");
    let state = SessionState {
        messages: vec![
            stored(TimeSeq::from_parts(3, 0), late, object(vec![])),
            stored(TimeSeq::from_parts(1, 0), early, object(vec![])),
        ],
        notes: vec![note],
    };
    let entries = timeline(&state, Some("coming"), None);
    assert_eq!(entries.len(), 4);
    assert!(matches!(&entries[0], TimelineEntry::Message(m) if m.message.role == Role::User));
    assert!(matches!(&entries[1], TimelineEntry::Note(n) if n.id == NoteId(1)));
    assert!(matches!(&entries[2], TimelineEntry::Message(m) if m.message.role == Role::Assistant));
    assert!(matches!(
        &entries[3],
        TimelineEntry::StreamingAssistant { text, reasoning: false } if text == "coming"
    ));
}

fn long_box() -> TranscriptItem {
    TranscriptItem::InfoBox {
        id: TranscriptItemId::Note(NoteId(fresh())),
        content: (0..30).map(|_| "long line").collect::<Vec<_>>().join("\n"),
        alert: false,
    }
}

#[test]
fn long_boxes_have_a_collapsed_footer() {
    let item = long_box();
    let lines = item_layout(&item, 80, false, &[]).lines;
    assert!(lines.iter().any(|line| line.text == "Click to expand"));
    assert!(item_layout(&item, 80, true, &[]).lines.len() > lines.len());
}

#[test]
fn renderer_reports_scroll_range_and_visible_box_hit_region() {
    let item = long_box();
    let area = Rect { x: 0, y: 0, width: 40, height: 10 };
    let (rendered, lines) = render_transcript(area, std::slice::from_ref(&item), 0, &[], None);
    assert!(rendered.max_scroll > 0);
    assert_eq!(rendered.hit_regions.len(), 1);
    for line in &lines {
        assert!(line.y < 10);
    }
    let height = transcript_height(std::slice::from_ref(&item), 40, &[]);
    assert_eq!(rendered.max_scroll, height - 10);
}

#[test]
fn mode_palette_is_reserved_and_deterministic() {
    let modes = vec![
        "zeta".to_string(),
        "alpha".to_string(),
        "build".to_string(),
        "plan".to_string(),
    ];
    assert_eq!(mode_color("BUILD", &modes), Color::Blue);
    assert_eq!(mode_color("plan", &modes), Color::Yellow);
    assert_eq!(mode_color("alpha", &modes), Color::Cyan);
    assert_eq!(mode_color("zeta", &modes), Color::Magenta);
}

#[test]
fn modes_are_called_with_a_capital() {
    assert_eq!(mode_label("build"), "Build");
    assert_eq!(mode_label("ß"), "SS");
}

#[test]
fn wide_characters_take_two_columns() {
    assert_eq!(wrap_text("a界b", 3), vec!["a界", "b"]);
    assert_eq!(wrap_text("", 3), vec![""]);
    assert_eq!(wrap_text("ab\r\nc", 9), vec!["ab", "c"]);
    assert_eq!(unify("a\r\nb\rc"), "a\nb\nc");
    assert_eq!(truncate_to_width("a界b", 2), "a");
    assert_eq!(truncate_to_width("a界b", 4), "a界b");
    assert_eq!(wrapped_height("abcd\ne", 2), 3);
}

fn press(key: Key) -> KeyPress {
    KeyPress { key, control: false, shift: false, alt: false }
}

#[test]
fn keys_become_actions() {
    assert!(matches!(
        key_action(press(Key::Char('x'))),
        Some(HostAction::Act(Action::Insert('x')))
    ));
    assert!(matches!(key_action(press(Key::Enter)), Some(HostAction::Act(Action::Submit))));
    let mut newline = press(Key::Enter);
    newline.alt = true;
    assert!(matches!(key_action(newline), Some(HostAction::Act(Action::Newline))));
    let mut interrupt = press(Key::Char('c'));
    interrupt.control = true;
    assert!(matches!(key_action(interrupt), Some(HostAction::Act(Action::Interrupt))));
    assert!(key_action(press(Key::Other)).is_none());
    assert_eq!(paste_action("a\r\nb"), Action::Paste("a\nb".to_string()));
}

#[test]
fn events_of_other_sessions_are_ignored() {
    let event = |session: SessionId| RuntimeEvent::ProviderEvent {
        session_id: session,
        event: ProviderEvent::TextDelta { text: "t".to_string() },
    };
    assert!(runtime_action(SessionId(1), event(SessionId(2)), true, true).is_none());
    assert!(matches!(
        runtime_action(SessionId(1), event(SessionId(1)), true, true),
        Some(HostAction::Act(Action::TextDelta(text))) if text == "t"
    ));
    let reasoning = RuntimeEvent::ProviderEvent {
        session_id: SessionId(1),
        event: ProviderEvent::ReasoningDelta { text: "t".to_string() },
    };
    assert!(runtime_action(SessionId(1), reasoning, false, true).is_none());
}

#[test]
fn failed_sends_are_told() {
    let after = performed(state(), Performed::SendFailed("offline".to_string()));
    assert_eq!(after.transcript.last().unwrap().text, "could not start turn: offline");
    assert_eq!(after.status, "error");
    assert!(!after.active_turn && !after.should_exit);
    assert_eq!(after.provider, state().provider);
    let after = performed(state(), Performed::CancelFailed("gone".to_string()));
    assert_eq!(
        after.transcript.last().unwrap().text,
        "could not cancel active operation: gone"
    );
    assert_eq!(after.model, state().model);
    assert!(editor_height(1) >= 3);
}

#[test]
fn fragments_show_the_state() {
    let shown = reduce(state(), Action::Paste("hi".to_string())).state;
    assert!(!EditBarFragment.rows(&shown, 20).is_empty());
    let sent = reduce(shown, Action::Submit).state;
    let rows = TranscriptFragment.rows(&sent, 20);
    assert!(rows.iter().any(|row| row.text.contains("hi")));
    let status = StatusFragment { active_command: false }.rows(&sent, 80);
    assert_eq!(status.len(), 1);
    assert!(status[0].text.starts_with(&sent.status));
    assert_eq!(status[0].tone, FragmentTone::Warning);
    let suggestions = (0..20)
        .map(|n| CommandDescriptor {
            name: format!("command{n}"),
            description: String::new(),
            usage: String::new(),
        })
        .collect();
    let list = SuggestionFragment { suggestions, selected: 15 };
    let rows = list.rows(&sent, 80);
    assert!(rows.iter().any(|row| row.text.contains("command15")));
    assert!(rows.iter().any(|row| row.tone == FragmentTone::Accent));
}

fn app() -> TerminalApp {
    TerminalApp::new(
        ProviderId(1),
        "m",
        UIState { selected_model: None, selected_mode: None, selected_variant: None },
    )
}

#[test]
fn typed_text_becomes_a_turn() {
    let mut app = app();
    for c in "hey".chars() {
        let outcome = app.handle_key(airicode::ui::terminal::app::Key::Char(c), Modifiers::Plain);
        assert!(matches!(outcome, KeyOutcome::Nothing));
    }
    match app.handle_key(airicode::ui::terminal::app::Key::Enter, Modifiers::Plain) {
        KeyOutcome::Run(request) => {
            assert_eq!(request.input, "hey");
            assert_eq!(request.model, "m");
        }
        _ => panic!("the text is sent"),
    }
    assert_eq!(app.editor.text, "");
}

#[test]
fn clicks_expand_and_collapse() {
    let mut app = app();
    let state = SessionState {
        messages: vec![],
        notes: vec![Note {
            id: NoteId(1),
            content: NoteContent::Info {
                content: (0..30).map(|_| "long line").collect::<Vec<_>>().join("\n"),
            },
            created_at: TimeSeq::from_parts(1, 0),
        }],
    };
    let area = Rect { x: 0, y: 0, width: 60, height: 20 };
    app.draw(&state, area);
    assert!(app.scroll_offset <= app.max_scroll);
    assert_eq!(app.hit_regions.len(), 1);
    let region = app.hit_regions[0].rect;
    app.handle_mouse(Mouse::LeftDown, region.x, region.y);
    assert_eq!(app.expanded, vec![TranscriptItemId::Note(NoteId(1))]);
    app.handle_mouse(Mouse::LeftDown, region.x, region.y);
    assert!(app.expanded.is_empty());
    app.handle_mouse(Mouse::ScrollUp, region.x, region.y);
    assert!(app.scroll_offset <= app.max_scroll);
    let inner = margin(area);
    assert!(inner.width <= area.width);
}

#[test]
fn completions_replace_the_command() {
    let mut editor = EditorState::default();
    editor.insert("/re");
    assert_eq!(editor.command_prefix(), Some("re"));
    editor.apply_completion(&Completion { value: "revert".to_string() });
    assert!(editor.text.starts_with("/revert"));
    assert!(!editor.take().is_empty());
    assert_eq!(editor.text, "");
    assert_eq!(editor.command_prefix(), None);
}

#[test]
fn status_lines_show_usage() {
    let mut bar = StatusBarState::default();
    bar.usage = Some(Usage { input_tokens: 12, output_tokens: 3, total_tokens: 15 });
    assert!(bar.text().contains(" | tokens 15 | "));
    assert!(!bar.model_label().is_empty());
    assert_ne!(MessageId(1), MessageId(2));
}

#[test]
fn leaving_is_announced() {
    let update = reduce(state(), Action::EndOfInput);
    assert_eq!(update.effect, Effect::Exit);
    assert!(update.state.should_exit);
    let update = reduce(state(), Action::Insert('x'));
    assert_eq!(update.effect, Effect::Nothing);
    assert!(!update.state.should_exit);
}

#[test]
fn the_end_stays_visible() {
    let mut app = app();
    let area = Rect { x: 0, y: 0, width: 60, height: 10 };
    let mut state = SessionState { messages: vec![], notes: vec![] };
    for n in 0..20 {
        state.notes.push(Note {
            id: NoteId(n),
            content: NoteContent::Subtle { content: format!("note {n}") },
            created_at: TimeSeq::from_parts(n as u64, 0),
        });
        let lines = app.draw(&state, area);
        assert_eq!(app.scroll_offset, 0);
        assert!(lines.iter().any(|line| line.text.contains(&format!("note {n}"))));
    }
}
