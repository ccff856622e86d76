//! What happened in a session, in the order of time, and what of it is shown.
use crate::ids::{MessageId, NoteId};
use crate::json;
use crate::json::Json;
use crate::lists;
use crate::model;
use crate::model::{Message, MessagePartContent, NoteContent, Role};
use crate::text;
use crate::utils::timeseq;
use crate::utils::timeseq::TimeSeq;
use vstd::prelude::*;

verus! {

/// A message with what is kept beside it.
pub struct StoredMessage {
    pub message: Message,
    pub created_at: TimeSeq,
    /// An object.
    pub metadata: Json,
}

/// A note in a session.
pub struct Note {
    pub id: NoteId,
    pub content: NoteContent,
    pub created_at: TimeSeq,
}

/// What a session holds: its visible messages, and its notes.
pub struct SessionState {
    pub messages: Vec<StoredMessage>,
    pub notes: Vec<Note>,
}

/// Something that happened in a session.
pub enum TimelineEntry {
    Message(StoredMessage),
    Note(Note),
    StreamingAssistant { text: String, reasoning: bool },
    StreamingTool { name: String, input: String },
}

/// An entry in mathematical terms.
pub ghost enum EntryView {
    Message(model::MessageView, TimeSeq, json::JsonView),
    Note(NoteId, model::NoteView, TimeSeq),
    StreamingAssistant(Seq<char>, bool),
    StreamingTool(Seq<char>, Seq<char>),
}

impl View for TimelineEntry {
    type V = EntryView;

    open spec fn view(&self) -> EntryView {
        match *self {
            TimelineEntry::Message(m) => message_entry(m),
            TimelineEntry::Note(n) => note_entry(n),
            TimelineEntry::StreamingAssistant { text, reasoning } => EntryView::StreamingAssistant(
                text@,
                reasoning,
            ),
            TimelineEntry::StreamingTool { name, input } => EntryView::StreamingTool(name@, input@),
        }
    }
}

pub open spec fn message_entry(m: StoredMessage) -> EntryView {
    EntryView::Message(m.message@, m.created_at, m.metadata@)
}

pub open spec fn note_entry(n: Note) -> EntryView {
    EntryView::Note(n.id, n.content@, n.created_at)
}

pub open spec fn entry_views(list: Seq<TimelineEntry>) -> Seq<EntryView> {
    Seq::new(list.len(), |i: int| list[i]@)
}

// ---------------------------------------------------------------------------
// The order of time
// ---------------------------------------------------------------------------

/// When an entry was made; what is still coming is later than all.
pub open spec fn time_of(entry: EntryView) -> TimeSeq {
    match entry {
        EntryView::Message(m, t, d) => t,
        EntryView::Note(i, n, t) => t,
        _ => TimeSeq { timestamp: u64::MAX, sequence: u16::MAX },
    }
}

/// Entries in order with another one, behind those that are not later.
pub open spec fn placed(list: Seq<EntryView>, entry: EntryView) -> Seq<EntryView>
    decreases list.len(),
{
    if list.len() == 0 || !timeseq::before(time_of(entry), time_of(list.last())) {
        list.push(entry)
    } else {
        placed(list.drop_last(), entry).push(list.last())
    }
}

/// Entries in the order of time; those of one time keep the order that they have.
pub open spec fn ordered(list: Seq<EntryView>) -> Seq<EntryView>
    decreases list.len(),
{
    if list.len() == 0 {
        Seq::empty()
    } else {
        placed(ordered(list.drop_last()), list.last())
    }
}

/// Whether no entry was made before one that stands before it.
pub open spec fn in_time(list: Seq<EntryView>) -> bool {
    forall|i: int, j: int|
        #![trigger list[i], list[j]]
        0 <= i < j < list.len() ==> !timeseq::before(time_of(list[j]), time_of(list[i]))
}

proof fn lemma_placed(list: Seq<EntryView>, entry: EntryView)
    requires
        in_time(list),
    ensures
        in_time(placed(list, entry)),
        placed(list, entry).to_multiset() == list.to_multiset().insert(entry),
        placed(list, entry).len() == list.len() + 1,
        forall|i: int|
            0 <= i < placed(list, entry).len() ==> #[trigger] placed(list, entry)[i] == entry
                || exists|k: int|
                0 <= k < list.len() && list[k] == placed(list, entry)[i],
    decreases list.len(),
{
    let more = placed(list, entry);
    if list.len() == 0 || !timeseq::before(time_of(entry), time_of(list.last())) {
        vstd::seq_lib::to_multiset_build(list, entry);
        assert forall|i: int, j: int|
            #![trigger more[i], more[j]]
            0 <= i < j < more.len() implies !timeseq::before(time_of(more[j]), time_of(more[i])) by {
            if j == list.len() {
                assert(list[list.len() - 1] == list.last());
                assert(more[i] == list[i]);
            } else {
                assert(more[i] == list[i] && more[j] == list[j]);
            }
        }
        assert forall|i: int| 0 <= i < more.len() implies #[trigger] more[i] == entry || exists|
            k: int,
        |
            0 <= k < list.len() && list[k] == more[i] by {
            if i < list.len() {
                assert(list[i] == more[i]);
            }
        }
    } else {
        let front = list.drop_last();
        let last = list.last();
        assert(in_time(front)) by {
            assert forall|i: int, j: int|
                #![trigger front[i], front[j]]
                0 <= i < j < front.len() implies !timeseq::before(
                time_of(front[j]),
                time_of(front[i]),
            ) by {
                assert(front[i] == list[i] && front[j] == list[j]);
            }
        }
        lemma_placed(front, entry);
        let inner = placed(front, entry);
        vstd::seq_lib::to_multiset_build(inner, last);
        vstd::seq_lib::to_multiset_build(front, last);
        assert(front.push(last) =~= list);
        assert(front.to_multiset().insert(entry).insert(last) =~= front.to_multiset().insert(
            last,
        ).insert(entry));
        assert forall|i: int, j: int|
            #![trigger more[i], more[j]]
            0 <= i < j < more.len() implies !timeseq::before(time_of(more[j]), time_of(more[i])) by {
            if j == inner.len() {
                assert(more[i] == inner[i]);
                if inner[i] != entry {
                    let k = choose|k: int| 0 <= k < front.len() && front[k] == inner[i];
                    assert(list[k] == inner[i]);
                    assert(list[list.len() - 1] == last);
                }
            } else {
                assert(more[i] == inner[i] && more[j] == inner[j]);
            }
        }
        assert forall|i: int| 0 <= i < more.len() implies #[trigger] more[i] == entry || exists|
            k: int,
        |
            0 <= k < list.len() && list[k] == more[i] by {
            if i < inner.len() {
                assert(more[i] == inner[i]);
                if inner[i] != entry {
                    let k = choose|k: int| 0 <= k < front.len() && front[k] == inner[i];
                    assert(list[k] == more[i]);
                }
            } else {
                assert(list[list.len() - 1] == more[i]);
            }
        }
    }
}

/// The timeline shows each entry once, and none before one that was made earlier.
pub proof fn law_timelines_are_in_order(list: Seq<EntryView>)
    ensures
        in_time(ordered(list)),
        ordered(list).to_multiset() == list.to_multiset(),
    decreases list.len(),
{
    if list.len() > 0 {
        law_timelines_are_in_order(list.drop_last());
        lemma_placed(ordered(list.drop_last()), list.last());
        vstd::seq_lib::to_multiset_build(list.drop_last(), list.last());
        assert(list.drop_last().push(list.last()) =~= list);
    } else {
        assert(ordered(list) =~= list);
    }
}

/// The messages and then the notes of a session.
pub open spec fn stored_entries(state: SessionState) -> Seq<EntryView> {
    Seq::new(state.messages@.len(), |i: int| message_entry(state.messages@[i])) + Seq::new(
        state.notes@.len(),
        |i: int| note_entry(state.notes@[i]),
    )
}

/// The entry of a stream, where there is one.
pub open spec fn streaming_entry(s: Option<Seq<char>>, reasoning: bool) -> Seq<EntryView> {
    match s {
        Some(t) => if t.len() > 0 {
            seq![EntryView::StreamingAssistant(t, reasoning)]
        } else {
            Seq::empty()
        },
        None => Seq::empty(),
    }
}

/// The entry of a call that is still coming, where there is one.
pub open spec fn call_entry(call: Option<(Seq<char>, Seq<char>)>) -> Seq<EntryView> {
    match call {
        Some((name, input)) => if input.len() > 0 {
            seq![EntryView::StreamingTool(name, input)]
        } else {
            Seq::empty()
        },
        None => Seq::empty(),
    }
}

/// The timeline of a session.
pub open spec fn timeline_of(
    state: SessionState,
    streaming: Option<Seq<char>>,
    reasoning: Option<Seq<char>>,
    call: Option<(Seq<char>, Seq<char>)>,
) -> Seq<EntryView> {
    ordered(stored_entries(state)) + streaming_entry(reasoning, true) + streaming_entry(
        streaming,
        false,
    ) + call_entry(call)
}

pub open spec fn opt_pair(call: Option<(&str, &str)>) -> Option<(Seq<char>, Seq<char>)> {
    match call {
        Some((name, input)) => Some((name@, input@)),
        None => None,
    }
}

fn clone_note(note: &NoteContent) -> (r: NoteContent)
    ensures
        r@ == note@,
{
    match note {
        NoteContent::Info { content } => NoteContent::Info {
            content: text::owned(content.as_str()),
        },
        NoteContent::Subtle { content } => NoteContent::Subtle {
            content: text::owned(content.as_str()),
        },
        NoteContent::Alert { content } => NoteContent::Alert {
            content: text::owned(content.as_str()),
        },
        NoteContent::Diff { file, content } => NoteContent::Diff {
            file: text::owned(file.as_str()),
            content: text::owned(content.as_str()),
        },
    }
}

fn entry_time(entry: &TimelineEntry) -> (r: TimeSeq)
    ensures
        r == time_of(entry@),
{
    match entry {
        TimelineEntry::Message(m) => m.created_at,
        TimelineEntry::Note(n) => n.created_at,
        _ => TimeSeq::from_parts(u64::MAX, u16::MAX),
    }
}

fn is_before(a: TimeSeq, b: TimeSeq) -> (r: bool)
    ensures
        r == timeseq::before(a, b),
{
    a.timestamp < b.timestamp || (a.timestamp == b.timestamp && a.sequence < b.sequence)
}

fn insert_entry(list: &mut Vec<TimelineEntry>, entry: TimelineEntry)
    ensures
        entry_views(final(list)@) == placed(entry_views(old(list)@), entry@),
{
    let ghost all = entry_views(list@);
    let ghost e = entry@;
    let time = entry_time(&entry);
    let mut k: usize = list.len();
    let ghost mut tail: Seq<EntryView> = Seq::empty();
    proof {
        assert(all.take(k as int) =~= all);
        assert(placed(all, e) + tail =~= placed(all, e));
        assert(all.skip(k as int) =~= tail);
    }
    while k > 0 && is_before(time, entry_time(&list[k - 1]))
        invariant
            k <= list@.len(),
            e == entry@,
            time == time_of(e),
            all == entry_views(list@),
            tail == all.skip(k as int),
            placed(all, e) == placed(all.take(k as int), e) + tail,
        decreases k,
    {
        proof {
            let front = all.take(k as int);
            assert(front.last() == list@[k - 1]@);
            assert(front.drop_last() =~= all.take(k - 1));
            assert(placed(front, e) + tail =~= placed(all.take(k - 1), e) + (seq![front.last()]
                + tail));
            tail = seq![front.last()] + tail;
            assert(tail =~= all.skip(k - 1));
        }
        k -= 1;
    }
    proof {
        let front = all.take(k as int);
        if k > 0 {
            assert(front.last() == list@[k - 1]@);
        }
        assert(placed(front, e) == front.push(e));
        assert(front.push(e) + tail =~= all.insert(k as int, e));
    }
    list.insert(k, entry);
    proof {
        assert(entry_views(list@) =~= all.insert(k as int, e));
    }
}

fn push_entry(list: &mut Vec<TimelineEntry>, entry: TimelineEntry)
    ensures
        entry_views(final(list)@) == entry_views(old(list)@) + seq![entry@],
{
    let ghost before = entry_views(list@);
    let ghost e = entry@;
    list.push(entry);
    proof {
        assert(entry_views(list@) =~= before + seq![e]);
    }
}

fn push_streaming(list: &mut Vec<TimelineEntry>, s: Option<&str>, reasoning: bool)
    ensures
        entry_views(final(list)@) == entry_views(old(list)@) + streaming_entry(
            json::opt_str(s),
            reasoning,
        ),
{
    proof {
        assert(entry_views(list@) + Seq::<EntryView>::empty() =~= entry_views(list@));
    }
    if let Some(t) = s {
        if !t.is_empty() {
            push_entry(
                list,
                TimelineEntry::StreamingAssistant { text: text::owned(t), reasoning },
            );
        }
    }
}

/// The timeline of a session without what is being thought.
pub fn timeline(
    state: &SessionState,
    streaming: Option<&str>,
    tool_streaming: Option<(&str, &str)>,
) -> (r: Vec<TimelineEntry>)
    ensures
        entry_views(r@) == timeline_of(
            *state,
            json::opt_str(streaming),
            None,
            opt_pair(tool_streaming),
        ),
{
    timeline_with_reasoning(state, streaming, None, tool_streaming)
}

/// The timeline of a session.
pub fn timeline_with_reasoning(
    state: &SessionState,
    streaming: Option<&str>,
    reasoning: Option<&str>,
    tool_streaming: Option<(&str, &str)>,
) -> (r: Vec<TimelineEntry>)
    ensures
        entry_views(r@) == timeline_of(
            *state,
            json::opt_str(streaming),
            json::opt_str(reasoning),
            opt_pair(tool_streaming),
        ),
{
    let ghost all = stored_entries(*state);
    let mut entries: Vec<TimelineEntry> = Vec::new();
    let mut i: usize = 0;
    proof {
        assert(all.take(0) =~= Seq::empty());
        assert(entry_views(entries@) =~= Seq::empty());
    }
    while i < state.messages.len()
        invariant
            i <= state.messages@.len(),
            all == stored_entries(*state),
            entry_views(entries@) == ordered(all.take(i as int)),
        decreases state.messages@.len() - i,
    {
        let stored = &state.messages[i];
        let entry = TimelineEntry::Message(
            StoredMessage {
                message: stored.message.clone(),
                created_at: stored.created_at,
                metadata: stored.metadata.clone(),
            },
        );
        proof {
            assert(all.take(i + 1).drop_last() =~= all.take(i as int));
            assert(all.take(i + 1).last() == entry@);
        }
        insert_entry(&mut entries, entry);
        i += 1;
    }
    let first: usize = state.messages.len();
    let mut k: usize = 0;
    while k < state.notes.len()
        invariant
            k <= state.notes@.len(),
            first == state.messages@.len(),
            all == stored_entries(*state),
            entry_views(entries@) == ordered(all.take(first + k)),
        decreases state.notes@.len() - k,
    {
        let note = &state.notes[k];
        let entry = TimelineEntry::Note(
            Note {
                id: note.id,
                content: clone_note(&note.content),
                created_at: note.created_at,
            },
        );
        proof {
            assert(all.take(first + k + 1).drop_last() =~= all.take(first + k));
            assert(all.take(first + k + 1).last() == entry@);
        }
        insert_entry(&mut entries, entry);
        k += 1;
    }
    proof {
        assert(all.take(first + k) =~= all);
    }
    push_streaming(&mut entries, reasoning, true);
    push_streaming(&mut entries, streaming, false);
    proof {
        assert(entry_views(entries@) + Seq::<EntryView>::empty() =~= entry_views(entries@));
    }
    if let Some((name, input)) = tool_streaming {
        if !input.is_empty() {
            push_entry(
                &mut entries,
                TimelineEntry::StreamingTool { name: text::owned(name), input: text::owned(input) },
            );
        }
    }
    entries
}

// ---------------------------------------------------------------------------
// The transcript
// ---------------------------------------------------------------------------

#[derive(Clone, Copy, Debug, PartialEq, Eq, Hash, Structural)]
pub enum TranscriptItemId {
    Message(MessageId),
    Note(NoteId),
    StreamingReasoning,
    StreamingAssistant,
}

/// What is shown of a session.
#[derive(Clone, Debug, PartialEq, Eq)]
pub enum TranscriptItem {
    AgentText { id: TranscriptItemId, content: String, reasoning: bool },
    UserBox { id: TranscriptItemId, mode: String, content: String },
    InfoBox { id: TranscriptItemId, content: String, alert: bool },
    SubtleNote { id: TranscriptItemId, content: String },
    Diff { id: TranscriptItemId, file: String, content: String },
}

/// What is shown, in mathematical terms.
pub ghost enum ItemView {
    AgentText(TranscriptItemId, Seq<char>, bool),
    UserBox(TranscriptItemId, Seq<char>, Seq<char>),
    InfoBox(TranscriptItemId, Seq<char>, bool),
    SubtleNote(TranscriptItemId, Seq<char>),
    Diff(TranscriptItemId, Seq<char>, Seq<char>),
}

impl View for TranscriptItem {
    type V = ItemView;

    open spec fn view(&self) -> ItemView {
        match *self {
            TranscriptItem::AgentText { id, content, reasoning } => ItemView::AgentText(
                id,
                content@,
                reasoning,
            ),
            TranscriptItem::UserBox { id, mode, content } => ItemView::UserBox(
                id,
                mode@,
                content@,
            ),
            TranscriptItem::InfoBox { id, content, alert } => ItemView::InfoBox(
                id,
                content@,
                alert,
            ),
            TranscriptItem::SubtleNote { id, content } => ItemView::SubtleNote(id, content@),
            TranscriptItem::Diff { id, file, content } => ItemView::Diff(id, file@, content@),
        }
    }
}

pub open spec fn item_views(list: Seq<TranscriptItem>) -> Seq<ItemView> {
    Seq::new(list.len(), |i: int| list[i]@)
}

pub open spec fn id_of(item: ItemView) -> TranscriptItemId {
    match item {
        ItemView::AgentText(id, c, r) => id,
        ItemView::UserBox(id, m, c) => id,
        ItemView::InfoBox(id, c, a) => id,
        ItemView::SubtleNote(id, c) => id,
        ItemView::Diff(id, f, c) => id,
    }
}

/// Whether an item is shown in a box.
pub open spec fn is_boxed(item: ItemView) -> bool {
    item is UserBox || item is InfoBox || item is Diff
}

impl TranscriptItem {
    pub fn id(&self) -> (r: TranscriptItemId)
        ensures
            r == id_of(self@),
    {
        match self {
            TranscriptItem::AgentText { id, content: _, reasoning: _ } => *id,
            TranscriptItem::UserBox { id, mode: _, content: _ } => *id,
            TranscriptItem::InfoBox { id, content: _, alert: _ } => *id,
            TranscriptItem::SubtleNote { id, content: _ } => *id,
            TranscriptItem::Diff { id, file: _, content: _ } => *id,
        }
    }

    /// Whether the item is shown in a box.
    pub fn is_box(&self) -> (r: bool)
        ensures
            r == is_boxed(self@),
    {
        matches!(
            self,
            TranscriptItem::UserBox { .. } | TranscriptItem::InfoBox { .. }
            | TranscriptItem::Diff { .. }
        )
    }
}

/// What a message says in words, or in thoughts.
pub open spec fn spoken(parts: Seq<model::PartView>, reasoning: bool) -> Seq<char>
    decreases parts.len(),
{
    if parts.len() == 0 {
        Seq::empty()
    } else {
        let before = spoken(parts.drop_last(), reasoning);
        match parts.last().content {
            Some(model::ContentView::Text(t)) => if reasoning {
                before
            } else {
                before + t
            },
            Some(model::ContentView::Reasoning(t)) => if reasoning {
                before + t
            } else {
                before
            },
            _ => before,
        }
    }
}

/// The mode in which a message was written: the one that is kept beside it, where
/// there is one.
pub open spec fn mode_of(message: model::MessageView, metadata: json::JsonView) -> Seq<char> {
    match json::text_at(metadata, "mode"@) {
        Some(m) => if m.len() > 0 {
            m
        } else {
            message.mode
        },
        None => message.mode,
    }
}

/// What is shown of a message.
pub open spec fn message_items(message: model::MessageView, metadata: json::JsonView) -> Seq<
    ItemView,
> {
    let id = TranscriptItemId::Message(message.id);
    let said = spoken(message.content, false);
    let thought = spoken(message.content, true);
    if message.role == Role::Tool {
        Seq::empty()
    } else if message.role == Role::User {
        if said.len() == 0 {
            Seq::empty()
        } else {
            seq![ItemView::UserBox(id, mode_of(message, metadata), said)]
        }
    } else {
        (if thought.len() == 0 {
            Seq::empty()
        } else {
            seq![ItemView::AgentText(id, "Thought: "@ + thought, true)]
        }) + (if said.len() == 0 {
            Seq::empty()
        } else {
            seq![ItemView::AgentText(id, said, false)]
        })
    }
}

/// What is shown of a note.
pub open spec fn note_item(id: NoteId, note: model::NoteView) -> ItemView {
    let id = TranscriptItemId::Note(id);
    match note {
        model::NoteView::Info(c) => ItemView::InfoBox(id, c, false),
        model::NoteView::Alert(c) => ItemView::InfoBox(id, c, true),
        model::NoteView::Subtle(c) => ItemView::SubtleNote(id, c),
        model::NoteView::Diff(f, c) => ItemView::Diff(id, f, c),
    }
}

/// What is shown of an entry; calls of tools are not shown.
pub open spec fn entry_items(entry: EntryView) -> Seq<ItemView> {
    match entry {
        EntryView::Message(m, t, d) => message_items(m, d),
        EntryView::Note(id, n, t) => seq![note_item(id, n)],
        EntryView::StreamingAssistant(s, reasoning) => seq![
            ItemView::AgentText(
                if reasoning {
                    TranscriptItemId::StreamingReasoning
                } else {
                    TranscriptItemId::StreamingAssistant
                },
                s,
                reasoning,
            ),
        ],
        EntryView::StreamingTool(n, i) => Seq::empty(),
    }
}

/// What is shown of entries.
pub open spec fn all_items(entries: Seq<EntryView>) -> Seq<ItemView>
    decreases entries.len(),
{
    if entries.len() == 0 {
        Seq::empty()
    } else {
        all_items(entries.drop_last()) + entry_items(entries.last())
    }
}

fn collect_words(message: &Message, reasoning: bool) -> (r: String)
    ensures
        r@ == spoken(message@.content, reasoning),
{
    let ghost parts = message@.content;
    let mut words = String::new();
    let mut i: usize = 0;
    proof {
        assert(parts.take(0) =~= Seq::empty());
        assert(words@ =~= Seq::empty());
    }
    while i < message.content.len()
        invariant
            i <= message.content@.len(),
            parts == model::part_views(message.content@),
            words@ == spoken(parts.take(i as int), reasoning),
        decreases message.content@.len() - i,
    {
        proof {
            assert(parts.take(i + 1).drop_last() =~= parts.take(i as int));
            assert(parts.take(i + 1).last() == message.content@[i as int]@);
        }
        match &message.content[i].content {
            Some(MessagePartContent::Text { text: t }) => {
                if !reasoning {
                    words.push_str(t.as_str());
                }
            },
            Some(MessagePartContent::Reasoning { text: t }) => {
                if reasoning {
                    words.push_str(t.as_str());
                }
            },
            _ => {},
        }
        i += 1;
    }
    proof {
        assert(parts.take(i as int) =~= parts);
    }
    words
}

fn push_item(list: &mut Vec<TranscriptItem>, item: TranscriptItem)
    ensures
        item_views(final(list)@) == item_views(old(list)@) + seq![item@],
{
    let ghost before = item_views(list@);
    let ghost v = item@;
    list.push(item);
    proof {
        assert(item_views(list@) =~= before + seq![v]);
    }
}

fn show_message(items: &mut Vec<TranscriptItem>, stored: StoredMessage)
    ensures
        item_views(final(items)@) == item_views(old(items)@) + message_items(
            stored.message@,
            stored.metadata@,
        ),
{
    let ghost first = item_views(items@);
    proof {
        assert(first + Seq::<ItemView>::empty() =~= first);
    }
    let message = stored.message;
    if message.role == Role::Tool {
        return;
    }
    let id = TranscriptItemId::Message(message.id);
    let said = collect_words(&message, false);
    if message.role == Role::User {
        if said.as_str().is_empty() {
            return;
        }
        let mode = match stored.metadata.get_str("mode") {
            Some(m) => {
                if m.is_empty() {
                    text::owned(message.mode.as_str())
                } else {
                    text::owned(m)
                }
            },
            None => text::owned(message.mode.as_str()),
        };
        push_item(items, TranscriptItem::UserBox { id, mode, content: said });
        return;
    }
    let thought = collect_words(&message, true);
    if !thought.as_str().is_empty() {
        let content = text::cat2("Thought: ", thought.as_str());
        push_item(items, TranscriptItem::AgentText { id, content, reasoning: true });
    }
    if !said.as_str().is_empty() {
        push_item(items, TranscriptItem::AgentText { id, content: said, reasoning: false });
    }
    proof {
        assert(item_views(items@) =~= first + message_items(message@, stored.metadata@));
    }
}

fn show_entry(items: &mut Vec<TranscriptItem>, entry: TimelineEntry)
    ensures
        item_views(final(items)@) == item_views(old(items)@) + entry_items(entry@),
{
    match entry {
        TimelineEntry::Message(stored) => {
            show_message(items, stored);
        },
        TimelineEntry::Note(note) => {
            let id = TranscriptItemId::Note(note.id);
            let item = match note.content {
                NoteContent::Info { content } => TranscriptItem::InfoBox {
                    id,
                    content,
                    alert: false,
                },
                NoteContent::Alert { content } => TranscriptItem::InfoBox {
                    id,
                    content,
                    alert: true,
                },
                NoteContent::Subtle { content } => TranscriptItem::SubtleNote { id, content },
                NoteContent::Diff { file, content } => TranscriptItem::Diff { id, file, content },
            };
            push_item(items, item);
        },
        TimelineEntry::StreamingAssistant { text, reasoning } => {
            let id = if reasoning {
                TranscriptItemId::StreamingReasoning
            } else {
                TranscriptItemId::StreamingAssistant
            };
            push_item(items, TranscriptItem::AgentText { id, content: text, reasoning });
        },
        TimelineEntry::StreamingTool { name: _, input: _ } => {
            proof {
                assert(item_views(items@) + Seq::<ItemView>::empty() =~= item_views(items@));
            }
        },
    }
}

/// What is shown of a session.
pub fn build_transcript(
    state: &SessionState,
    streaming: Option<&str>,
    reasoning: Option<&str>,
) -> (r: Vec<TranscriptItem>)
    ensures
        item_views(r@) == all_items(
            timeline_of(*state, json::opt_str(streaming), json::opt_str(reasoning), None),
        ),
{
    let entries = timeline_with_reasoning(state, streaming, reasoning, None);
    let ghost list = entries@;
    let ghost all = entry_views(list);
    let count: usize = entries.len();
    let mut rest = lists::reversed(entries);
    let mut items: Vec<TranscriptItem> = Vec::new();
    let mut i: usize = 0;
    proof {
        assert(rest@ =~= list.skip(0).reverse());
        assert(all.take(0) =~= Seq::empty());
        assert(item_views(items@) =~= Seq::empty());
    }
    while i < count
        invariant
            i <= count,
            count == list.len(),
            all == entry_views(list),
            rest@ == list.skip(i as int).reverse(),
            item_views(items@) == all_items(all.take(i as int)),
        decreases count - i,
    {
        let next = rest.pop();
        proof {
            assert(next == Some(list[i as int]));
            assert(rest@ =~= list.skip(i + 1).reverse());
            assert(all.take(i + 1).drop_last() =~= all.take(i as int));
            assert(all.take(i + 1).last() == list[i as int]@);
        }
        if let Some(entry) = next {
            show_entry(&mut items, entry);
        }
        i += 1;
    }
    proof {
        assert(all.take(i as int) =~= all);
    }
    items
}

/// Calls of tools and their answers are not shown.
pub proof fn law_tools_are_not_shown(message: model::MessageView, metadata: json::JsonView)
    requires
        message.role == Role::Tool || forall|i: int|
            0 <= i < message.content.len() ==> !((#[trigger] message.content[i]).content
                matches Some(model::ContentView::Text(t))) && !(message.content[i].content
                matches Some(model::ContentView::Reasoning(t))),
    ensures
        message_items(message, metadata).len() == 0,
{
    if message.role != Role::Tool {
        lemma_nothing_spoken(message.content, false);
        lemma_nothing_spoken(message.content, true);
    }
}

proof fn lemma_nothing_spoken(parts: Seq<model::PartView>, reasoning: bool)
    requires
        forall|i: int|
            0 <= i < parts.len() ==> !((#[trigger] parts[i]).content matches Some(
                model::ContentView::Text(t),
            )) && !(parts[i].content matches Some(model::ContentView::Reasoning(t))),
    ensures
        spoken(parts, reasoning).len() == 0,
    decreases parts.len(),
{
    if parts.len() > 0 {
        let front = parts.drop_last();
        assert forall|i: int| 0 <= i < front.len() implies !((#[trigger] front[i]).content
            matches Some(model::ContentView::Text(t))) && !(front[i].content matches Some(
            model::ContentView::Reasoning(t),
        )) by {
            assert(front[i] == parts[i]);
        }
        lemma_nothing_spoken(front, reasoning);
        assert(parts[parts.len() - 1] == parts.last());
    }
}

/// What a message says is all its texts, one behind the other, and what it thinks all its
/// thoughts.
pub proof fn law_texts_and_thoughts_are_told_apart(
    a: Seq<model::PartView>,
    b: Seq<model::PartView>,
    part: model::PartView,
    t: Seq<char>,
)
    ensures
        spoken(a + b, false) == spoken(a, false) + spoken(b, false),
        spoken(a + b, true) == spoken(a, true) + spoken(b, true),
        part.content == Some(model::ContentView::Text(t)) ==> spoken(seq![part], false) == t
            && spoken(seq![part], true).len() == 0,
        part.content == Some(model::ContentView::Reasoning(t)) ==> spoken(seq![part], true) == t
            && spoken(seq![part], false).len() == 0,
    decreases b.len(),
{
    reveal_with_fuel(spoken, 2);
    assert(seq![part].drop_last() =~= Seq::empty());
    assert(Seq::<char>::empty() + t =~= t);
    if b.len() == 0 {
        assert(a + b =~= a);
        assert(spoken(a, false) + spoken(b, false) =~= spoken(a, false));
        assert(spoken(a, true) + spoken(b, true) =~= spoken(a, true));
    } else {
        law_texts_and_thoughts_are_told_apart(a, b.drop_last(), part, t);
        assert((a + b).drop_last() =~= a + b.drop_last());
        assert((a + b).last() == b.last());
        assert(spoken(a + b, false) =~= spoken(a, false) + spoken(b, false));
        assert(spoken(a + b, true) =~= spoken(a, true) + spoken(b, true));
    }
}

/// What the user says is shown in a box with its mode; what the agent thinks is shown
/// before what it says. Nothing is shown of what is not said.
pub proof fn law_messages_are_shown_by_their_role(
    message: model::MessageView,
    metadata: json::JsonView,
)
    ensures
        ({
            let id = TranscriptItemId::Message(message.id);
            let said = spoken(message.content, false);
            let thought = spoken(message.content, true);
            let items = message_items(message, metadata);
            let agent = message.role == Role::Assistant || message.role == Role::System;
            &&& message.role == Role::User && said.len() > 0 && json::text_at(
                metadata,
                "mode"@,
            ) is None ==> items == seq![ItemView::UserBox(id, message.mode, said)]
            &&& agent && said.len() > 0 && thought.len() == 0 ==> items == seq![
                ItemView::AgentText(id, said, false),
            ]
            &&& agent && said.len() == 0 && thought.len() > 0 ==> items == seq![
                ItemView::AgentText(id, "Thought: "@ + thought, true),
            ]
            &&& agent && said.len() > 0 && thought.len() > 0 ==> items == seq![
                ItemView::AgentText(id, "Thought: "@ + thought, true),
                ItemView::AgentText(id, said, false),
            ]
            &&& message.role == Role::Tool ==> items.len() == 0
        }),
{
    let id = TranscriptItemId::Message(message.id);
    let said = spoken(message.content, false);
    let thought = spoken(message.content, true);
    let items = message_items(message, metadata);
    if message.role == Role::Assistant || message.role == Role::System {
        if said.len() > 0 && thought.len() == 0 {
            assert(items =~= seq![ItemView::AgentText(id, said, false)]);
        }
        if said.len() == 0 && thought.len() > 0 {
            assert(items =~= seq![ItemView::AgentText(id, "Thought: "@ + thought, true)]);
        }
        if said.len() > 0 && thought.len() > 0 {
            assert(items =~= seq![
                ItemView::AgentText(id, "Thought: "@ + thought, true),
                ItemView::AgentText(id, said, false),
            ]);
        }
    }
}

/// Entries are shown one by one, in their order. A note is shown as what it is; what is
/// still arriving is shown too, but for calls.
pub proof fn law_entries_are_shown_in_order(
    a: Seq<EntryView>,
    b: Seq<EntryView>,
    entry: EntryView,
    id: NoteId,
    c: Seq<char>,
    file: Seq<char>,
    time: TimeSeq,
)
    ensures
        all_items(a + b) == all_items(a) + all_items(b),
        all_items(seq![entry]) == entry_items(entry),
        entry_items(EntryView::Note(id, model::NoteView::Info(c), time)) == seq![
            ItemView::InfoBox(TranscriptItemId::Note(id), c, false),
        ],
        entry_items(EntryView::Note(id, model::NoteView::Alert(c), time)) == seq![
            ItemView::InfoBox(TranscriptItemId::Note(id), c, true),
        ],
        entry_items(EntryView::Note(id, model::NoteView::Subtle(c), time)) == seq![
            ItemView::SubtleNote(TranscriptItemId::Note(id), c),
        ],
        entry_items(EntryView::Note(id, model::NoteView::Diff(file, c), time)) == seq![
            ItemView::Diff(TranscriptItemId::Note(id), file, c),
        ],
        entry_items(EntryView::StreamingAssistant(c, true)) == seq![
            ItemView::AgentText(TranscriptItemId::StreamingReasoning, c, true),
        ],
        entry_items(EntryView::StreamingAssistant(c, false)) == seq![
            ItemView::AgentText(TranscriptItemId::StreamingAssistant, c, false),
        ],
        entry_items(EntryView::StreamingTool(file, c)).len() == 0,
    decreases b.len(),
{
    reveal_with_fuel(all_items, 2);
    assert(seq![entry].drop_last() =~= Seq::empty());
    assert(all_items(seq![entry]) =~= entry_items(entry));
    if b.len() == 0 {
        assert(a + b =~= a);
        assert(all_items(a) + all_items(b) =~= all_items(a));
    } else {
        law_entries_are_shown_in_order(a, b.drop_last(), entry, id, c, file, time);
        assert((a + b).drop_last() =~= a + b.drop_last());
        assert((a + b).last() == b.last());
        assert(all_items(a + b) =~= all_items(a) + all_items(b));
    }
}

/// A timeline holds every message and every note, and behind them what is still arriving:
/// the thoughts, then the answer, then the call.
pub proof fn law_timelines_hold_everything(
    state: SessionState,
    said: Seq<char>,
    thought: Seq<char>,
    name: Seq<char>,
    input: Seq<char>,
    i: int,
)
    requires
        said.len() > 0,
        thought.len() > 0,
        input.len() > 0,
    ensures
        ({
            let stored = timeline_of(state, None, None, None);
            let all = timeline_of(state, Some(said), Some(thought), Some((name, input)));
            &&& all == stored + seq![
                EntryView::StreamingAssistant(thought, true),
                EntryView::StreamingAssistant(said, false),
                EntryView::StreamingTool(name, input),
            ]
            &&& stored.len() == state.messages@.len() + state.notes@.len()
            &&& in_time(stored)
            &&& 0 <= i < state.messages@.len() ==> stored.contains(
                EntryView::Message(
                    state.messages@[i].message@,
                    state.messages@[i].created_at,
                    state.messages@[i].metadata@,
                ),
            )
            &&& 0 <= i < state.notes@.len() ==> stored.contains(
                EntryView::Note(
                    state.notes@[i].id,
                    state.notes@[i].content@,
                    state.notes@[i].created_at,
                ),
            )
        }),
{
    broadcast use vstd::seq_lib::group_to_multiset_ensures;

    let list = stored_entries(state);
    law_timelines_are_in_order(list);
    let sorted = ordered(list);
    assert(timeline_of(state, None, None, None) =~= sorted);
    assert(timeline_of(state, Some(said), Some(thought), Some((name, input))) =~= sorted + seq![
        EntryView::StreamingAssistant(thought, true),
        EntryView::StreamingAssistant(said, false),
        EntryView::StreamingTool(name, input),
    ]);
    assert(sorted.len() == sorted.to_multiset().len());
    assert(list.len() == list.to_multiset().len());
    if 0 <= i < state.messages@.len() {
        let e = message_entry(state.messages@[i]);
        assert(list[i] == e);
        assert(list.contains(e));
        assert(list.to_multiset().count(e) > 0);
        assert(sorted.to_multiset().count(e) > 0);
        assert(sorted.contains(e));
    }
    if 0 <= i < state.notes@.len() {
        let e = note_entry(state.notes@[i]);
        assert(list[state.messages@.len() + i] == e);
        assert(list.contains(e));
        assert(list.to_multiset().count(e) > 0);
        assert(sorted.to_multiset().count(e) > 0);
        assert(sorted.contains(e));
    }
}

/// The mode that was stored with a message is the one that is shown; without one it is the
/// mode of the message.
pub proof fn law_stored_modes_are_shown(
    message: model::MessageView,
    metadata: json::JsonView,
    mode: Seq<char>,
)
    requires
        message.role == Role::User,
        spoken(message.content, false).len() > 0,
        mode.len() > 0,
    ensures
        json::text_at(metadata, "mode"@) == Some(mode) ==> message_items(message, metadata) == seq![
            ItemView::UserBox(
                TranscriptItemId::Message(message.id),
                mode,
                spoken(message.content, false),
            ),
        ],
        json::text_at(metadata, "mode"@) is None ==> message_items(message, metadata) == seq![
            ItemView::UserBox(
                TranscriptItemId::Message(message.id),
                message.mode,
                spoken(message.content, false),
            ),
        ],
{
}

} // verus!
