//! The values that plugins, tools and providers exchange.
use crate::ids::{MessageId, ProviderId};
use crate::json;
use crate::json::Json;
use crate::text;
use vstd::prelude::*;

verus! {

/// Why an operation failed.
#[derive(Clone, Debug, PartialEq, Eq)]
pub enum Error {
    Cancelled,
    Config(String),
    Command(String),
    Plugin(String),
    Tool(String),
    Provider(String),
    Workdir(String),
    Persistence(String),
    MessageNotFound(crate::ids::MessageId),
}

/// An error in mathematical terms.
pub ghost enum ErrorView {
    Cancelled,
    Config(Seq<char>),
    Command(Seq<char>),
    Plugin(Seq<char>),
    Tool(Seq<char>),
    Provider(Seq<char>),
    Workdir(Seq<char>),
    Persistence(Seq<char>),
    MessageNotFound(crate::ids::MessageId),
}

impl View for Error {
    type V = ErrorView;

    open spec fn view(&self) -> ErrorView {
        match *self {
            Error::Cancelled => ErrorView::Cancelled,
            Error::Config(m) => ErrorView::Config(m@),
            Error::Command(m) => ErrorView::Command(m@),
            Error::Plugin(m) => ErrorView::Plugin(m@),
            Error::Tool(m) => ErrorView::Tool(m@),
            Error::Provider(m) => ErrorView::Provider(m@),
            Error::Workdir(m) => ErrorView::Workdir(m@),
            Error::Persistence(m) => ErrorView::Persistence(m@),
            Error::MessageNotFound(id) => ErrorView::MessageNotFound(id),
        }
    }
}

pub type Result<T> = core::result::Result<T, Error>;

/// What a tool hands back to the model.
#[derive(Debug, PartialEq, Eq)]
pub enum ToolOutput {
    Success { content: String },
    Failure { content: String },
    /// Ends the turn without an answer.
    Stop,
}

/// A tool's output in mathematical terms.
pub ghost enum OutputView {
    Success(Seq<char>),
    Failure(Seq<char>),
    Stop,
}

impl View for ToolOutput {
    type V = OutputView;

    open spec fn view(&self) -> OutputView {
        match *self {
            ToolOutput::Success { content } => OutputView::Success(content@),
            ToolOutput::Failure { content } => OutputView::Failure(content@),
            ToolOutput::Stop => OutputView::Stop,
        }
    }
}

impl ToolOutput {
    /// The content, where there is one.
    pub open spec fn text(self) -> Option<Seq<char>> {
        match self {
            ToolOutput::Success { content } => Some(content@),
            ToolOutput::Failure { content } => Some(content@),
            ToolOutput::Stop => None,
        }
    }

    /// The content, where there is one.
    pub fn content(&self) -> (r: Option<&str>)
        ensures
            r is Some == self.text() is Some,
            r matches Some(t) ==> t@ == self.text()->0,
    {
        match self {
            ToolOutput::Success { content } => Some(content.as_str()),
            ToolOutput::Failure { content } => Some(content.as_str()),
            ToolOutput::Stop => None,
        }
    }
}

/// What a note in the transcript shows.
#[derive(Clone, Debug, PartialEq, Eq)]
pub enum NoteContent {
    Info { content: String },
    Subtle { content: String },
    Alert { content: String },
    Diff { file: String, content: String },
}

/// A note in mathematical terms.
pub ghost enum NoteView {
    Info(Seq<char>),
    Subtle(Seq<char>),
    Alert(Seq<char>),
    Diff(Seq<char>, Seq<char>),
}

impl View for NoteContent {
    type V = NoteView;

    open spec fn view(&self) -> NoteView {
        match *self {
            NoteContent::Info { content } => NoteView::Info(content@),
            NoteContent::Subtle { content } => NoteView::Subtle(content@),
            NoteContent::Alert { content } => NoteView::Alert(content@),
            NoteContent::Diff { file, content } => NoteView::Diff(file@, content@),
        }
    }
}

/// Notes in mathematical terms.
pub open spec fn note_views(notes: Seq<NoteContent>) -> Seq<NoteView> {
    notes.map_values(|n: NoteContent| n@)
}

/// A command to run in a working directory.
#[derive(Clone, Debug, PartialEq, Eq)]
pub struct CommandSpec {
    pub program: String,
    pub args: Vec<String>,
    pub cwd: Option<String>,
    /// Variables, set one after the other.
    pub env: Vec<(String, String)>,
    /// How much output is kept, where the command is limited.
    pub max_output_bytes: Option<usize>,
}

/// A command in mathematical terms.
pub ghost struct CommandView {
    pub program: Seq<char>,
    pub args: Seq<Seq<char>>,
    pub cwd: Option<Seq<char>>,
    pub env: Seq<(Seq<char>, Seq<char>)>,
    pub max_output_bytes: Option<usize>,
}

/// Variables in mathematical terms.
pub open spec fn pair_views(env: Seq<(String, String)>) -> Seq<(Seq<char>, Seq<char>)> {
    env.map_values(|p: (String, String)| (p.0@, p.1@))
}

impl View for CommandSpec {
    type V = CommandView;

    open spec fn view(&self) -> CommandView {
        CommandView {
            program: self.program@,
            args: text::texts(self.args@),
            cwd: text::opt_text(self.cwd),
            env: pair_views(self.env@),
            max_output_bytes: self.max_output_bytes,
        }
    }
}

impl CommandSpec {
    /// A command that runs where the working directory is, in its environment.
    pub fn plain(program: &str, args: Vec<String>, max_output_bytes: Option<usize>) -> (r: CommandSpec)
        ensures
            r@ == (CommandView {
                program: program@,
                args: text::texts(args@),
                cwd: None,
                env: Seq::empty(),
                max_output_bytes,
            }),
    {
        let r = CommandSpec {
            program: text::owned(program),
            args,
            cwd: None,
            env: Vec::new(),
            max_output_bytes,
        };
        proof {
            assert(r@.env =~= Seq::empty());
        }
        r
    }
}

/// What a command that ran left behind.
#[derive(Clone, Debug, PartialEq, Eq)]
pub struct CommandOutput {
    /// The exit status; none where a signal ended the command.
    pub status: Option<i32>,
    pub stdout: String,
    pub stderr: String,
    pub truncated: bool,
}

/// What speaks in a message.
#[derive(Clone, Copy, Debug, PartialEq, Eq, Structural)]
pub enum Role {
    System,
    User,
    Assistant,
    Tool,
}

// ---------------------------------------------------------------------------
// Messages
// ---------------------------------------------------------------------------

/// What a part of a message says.
pub enum MessagePartContent {
    Text { text: String },
    Reasoning { text: String },
    ToolCall { id: String, name: String, arguments: Json },
    ToolResult { call_id: String, name: String, result: ToolOutput },
}

/// What a provider keeps with a part, to get it back in later requests.
pub struct ProviderData {
    pub provider_id: ProviderId,
    pub data: Json,
}

/// A part of a message. One without content is known to its provider alone.
pub struct MessagePart {
    pub content: Option<MessagePartContent>,
    pub provider_data: Option<ProviderData>,
}

pub struct Message {
    pub id: MessageId,
    pub role: Role,
    pub content: Vec<MessagePart>,
    /// The mode in which the message was written.
    pub mode: String,
}

pub ghost enum ContentView {
    Text(Seq<char>),
    Reasoning(Seq<char>),
    ToolCall(Seq<char>, Seq<char>, json::JsonView),
    ToolResult(Seq<char>, Seq<char>, OutputView),
}

pub ghost struct PartView {
    pub content: Option<ContentView>,
    pub provider_data: Option<(ProviderId, json::JsonView)>,
}

pub ghost struct MessageView {
    pub id: MessageId,
    pub role: Role,
    pub content: Seq<PartView>,
    pub mode: Seq<char>,
}

impl View for MessagePartContent {
    type V = ContentView;

    open spec fn view(&self) -> ContentView {
        match *self {
            MessagePartContent::Text { text } => ContentView::Text(text@),
            MessagePartContent::Reasoning { text } => ContentView::Reasoning(text@),
            MessagePartContent::ToolCall { id, name, arguments } => ContentView::ToolCall(
                id@,
                name@,
                arguments@,
            ),
            MessagePartContent::ToolResult { call_id, name, result } => ContentView::ToolResult(
                call_id@,
                name@,
                result@,
            ),
        }
    }
}

impl View for MessagePart {
    type V = PartView;

    open spec fn view(&self) -> PartView {
        PartView {
            content: match self.content {
                Some(c) => Some(c@),
                None => None,
            },
            provider_data: match self.provider_data {
                Some(d) => Some((d.provider_id, d.data@)),
                None => None,
            },
        }
    }
}

pub open spec fn part_views(parts: Seq<MessagePart>) -> Seq<PartView> {
    parts.map_values(|p: MessagePart| p@)
}

impl View for Message {
    type V = MessageView;

    open spec fn view(&self) -> MessageView {
        MessageView {
            id: self.id,
            role: self.role,
            content: part_views(self.content@),
            mode: self.mode@,
        }
    }
}

pub open spec fn message_views(messages: Seq<Message>) -> Seq<MessageView> {
    messages.map_values(|m: Message| m@)
}

impl MessagePart {
    /// A part that says `text`.
    pub fn text(text: &str) -> (r: MessagePart)
        ensures
            r@ == (PartView { content: Some(ContentView::Text(text@)), provider_data: None }),
    {
        MessagePart {
            content: Some(MessagePartContent::Text { text: text::owned(text) }),
            provider_data: None,
        }
    }

    /// A part that reasons.
    pub fn reasoning(text: &str) -> (r: MessagePart)
        ensures
            r@ == (PartView { content: Some(ContentView::Reasoning(text@)), provider_data: None }),
    {
        MessagePart {
            content: Some(MessagePartContent::Reasoning { text: text::owned(text) }),
            provider_data: None,
        }
    }

    /// A part that calls a tool.
    pub fn tool_call(id: &str, name: &str, arguments: Json) -> (r: MessagePart)
        ensures
            r@ == (PartView {
                content: Some(ContentView::ToolCall(id@, name@, arguments@)),
                provider_data: None,
            }),
    {
        MessagePart {
            content: Some(
                MessagePartContent::ToolCall {
                    id: text::owned(id),
                    name: text::owned(name),
                    arguments,
                },
            ),
            provider_data: None,
        }
    }

    /// A part with the result of a tool call.
    pub fn tool_result(call_id: &str, name: &str, result: ToolOutput) -> (r: MessagePart)
        ensures
            r@ == (PartView {
                content: Some(ContentView::ToolResult(call_id@, name@, result@)),
                provider_data: None,
            }),
    {
        MessagePart {
            content: Some(
                MessagePartContent::ToolResult {
                    call_id: text::owned(call_id),
                    name: text::owned(name),
                    result,
                },
            ),
            provider_data: None,
        }
    }

    /// A part that only its provider understands.
    pub fn provider_only(provider_id: ProviderId, data: Json) -> (r: MessagePart)
        ensures
            r@ == (PartView { content: None, provider_data: Some((provider_id, data@)) }),
    {
        MessagePart { content: None, provider_data: Some(ProviderData { provider_id, data }) }
    }

    /// The part with what its provider keeps with it.
    pub fn with_provider_data(self, provider_id: ProviderId, data: Json) -> (r: MessagePart)
        ensures
            r@ == (PartView { provider_data: Some((provider_id, data@)), ..self@ }),
    {
        MessagePart {
            content: self.content,
            provider_data: Some(ProviderData { provider_id, data }),
        }
    }
}

impl Message {
    /// A message of one text, with a fresh identifier.
    pub fn text(role: Role, text: &str, mode: &str) -> (r: Message)
        ensures
            crate::ids::is_random(r.id.0),
            r@ == (MessageView {
                id: r.id,
                role,
                content: seq![
                    PartView { content: Some(ContentView::Text(text@)), provider_data: None },
                ],
                mode: mode@,
            }),
    {
        let mut content: Vec<MessagePart> = Vec::new();
        content.push(MessagePart::text(text));
        let r = Message {
            id: MessageId(crate::ids::fresh()),
            role,
            content,
            mode: text::owned(mode),
        };
        proof {
            assert(r@.content =~= seq![
                PartView { content: Some(ContentView::Text(text@)), provider_data: None },
            ]);
        }
        r
    }
}

impl Clone for ToolOutput {
    fn clone(&self) -> (r: ToolOutput)
        ensures
            r@ == self@,
    {
        match self {
            ToolOutput::Success { content } => ToolOutput::Success {
                content: text::owned(content.as_str()),
            },
            ToolOutput::Failure { content } => ToolOutput::Failure {
                content: text::owned(content.as_str()),
            },
            ToolOutput::Stop => ToolOutput::Stop,
        }
    }
}

impl Clone for MessagePartContent {
    fn clone(&self) -> (r: MessagePartContent)
        ensures
            r@ == self@,
    {
        match self {
            MessagePartContent::Text { text } => MessagePartContent::Text {
                text: text::owned(text.as_str()),
            },
            MessagePartContent::Reasoning { text } => MessagePartContent::Reasoning {
                text: text::owned(text.as_str()),
            },
            MessagePartContent::ToolCall { id, name, arguments } => MessagePartContent::ToolCall {
                id: text::owned(id.as_str()),
                name: text::owned(name.as_str()),
                arguments: arguments.clone(),
            },
            MessagePartContent::ToolResult { call_id, name, result } =>
                MessagePartContent::ToolResult {
                call_id: text::owned(call_id.as_str()),
                name: text::owned(name.as_str()),
                result: result.clone(),
            },
        }
    }
}

impl Clone for MessagePart {
    fn clone(&self) -> (r: MessagePart)
        ensures
            r@ == self@,
    {
        MessagePart {
            content: match &self.content {
                Some(c) => Some(c.clone()),
                None => None,
            },
            provider_data: match &self.provider_data {
                Some(d) => Some(ProviderData { provider_id: d.provider_id, data: d.data.clone() }),
                None => None,
            },
        }
    }
}

impl Clone for Message {
    fn clone(&self) -> (r: Message)
        ensures
            r@ == self@,
    {
        let mut content: Vec<MessagePart> = Vec::new();
        let mut i: usize = 0;
        while i < self.content.len()
            invariant
                i <= self.content@.len(),
                content@.len() == i,
                forall|j: int| 0 <= j < i ==> (#[trigger] content@[j])@ == self.content@[j]@,
            decreases self.content@.len() - i,
        {
            content.push(self.content[i].clone());
            i += 1;
        }
        proof {
            assert(part_views(content@) =~= part_views(self.content@));
        }
        Message { id: self.id, role: self.role, content, mode: text::owned(self.mode.as_str()) }
    }
}

/// Copies messages to the end of a list.
pub fn push_messages(list: &mut Vec<Message>, more: &[Message])
    ensures
        message_views(final(list)@) == message_views(old(list)@) + message_views(more@),
{
    let ghost start = message_views(list@);
    let ghost extra = message_views(more@);
    let mut i: usize = 0;
    proof {
        assert(start + extra.take(0) =~= start);
    }
    while i < more.len()
        invariant
            i <= more@.len(),
            extra == message_views(more@),
            message_views(list@) == start + extra.take(i as int),
        decreases more@.len() - i,
    {
        let ghost before = message_views(list@);
        let copy = more[i].clone();
        let ghost shown = copy@;
        list.push(copy);
        proof {
            assert(message_views(list@) =~= before.push(shown));
            assert(extra.take(i + 1) =~= extra.take(i as int).push(shown));
            assert(message_views(list@) =~= start + extra.take(i + 1));
        }
        i += 1;
    }
    proof {
        assert(extra.take(i as int) =~= extra);
    }
}

/// Appends a message to a list.
pub fn push_message(list: &mut Vec<Message>, m: Message)
    ensures
        message_views(final(list)@) == message_views(old(list)@).push(m@),
{
    let ghost before = message_views(list@);
    let ghost shown = m@;
    list.push(m);
    proof {
        assert(message_views(list@) =~= before.push(shown));
    }
}

/// A message without the identifier that it happens to have.
pub open spec fn said(m: MessageView) -> (Role, Seq<PartView>) {
    (m.role, m.content)
}

/// Messages without their identifiers.
pub open spec fn all_said(messages: Seq<MessageView>) -> Seq<(Role, Seq<PartView>)> {
    messages.map_values(|m: MessageView| said(m))
}

/// One text, spoken by `role`.
pub open spec fn one_text(role: Role, t: Seq<char>) -> (Role, Seq<PartView>) {
    (role, seq![PartView { content: Some(ContentView::Text(t)), provider_data: None }])
}

// ---------------------------------------------------------------------------
// Contributions to a conversation
// ---------------------------------------------------------------------------

/// How long a contribution stays in a conversation.
#[derive(Clone, Copy, Debug, PartialEq, Eq, Structural)]
pub enum ContextPriority {
    High,
    Persistent,
}

/// What a plugin contributes to a conversation.
pub struct ContextContribution {
    pub priority: ContextPriority,
    pub text: String,
    pub metadata: Vec<(String, Json)>,
}

/// A part of what a conversation is told, and the plugin that it comes from.
pub struct ContextPart {
    pub priority: ContextPriority,
    pub source: String,
    pub content: String,
}

// ---------------------------------------------------------------------------
// Providers
// ---------------------------------------------------------------------------

#[derive(Clone, Copy, Debug, PartialEq, Eq, Structural)]
pub struct Usage {
    pub input_tokens: u64,
    pub output_tokens: u64,
    pub total_tokens: u64,
}

#[derive(Clone, Debug, PartialEq, Eq)]
pub enum FinishReason {
    Stop,
    ToolCalls,
    Length,
    ContentFilter,
    Other(String),
}

pub ghost enum FinishView {
    Stop,
    ToolCalls,
    Length,
    ContentFilter,
    Other(Seq<char>),
}

impl View for FinishReason {
    type V = FinishView;

    open spec fn view(&self) -> FinishView {
        match *self {
            FinishReason::Stop => FinishView::Stop,
            FinishReason::ToolCalls => FinishView::ToolCalls,
            FinishReason::Length => FinishView::Length,
            FinishReason::ContentFilter => FinishView::ContentFilter,
            FinishReason::Other(s) => FinishView::Other(s@),
        }
    }
}

/// What a provider reports while it answers.
#[derive(Clone)]
pub enum ProviderEvent {
    TextDelta { text: String },
    ReasoningDelta { text: String },
    ToolCallDelta { index: u32, id: Option<String>, name: Option<String>, arguments: String },
    CustomToolCallInputDelta { index: u32, id: Option<String>, name: Option<String>, input: String },
    CustomToolCallInputDone { index: u32, input: String },
    OutputPart { index: u32, part: MessagePart },
    Usage { usage: Usage },
    Finished { reason: FinishReason },
}

pub ghost enum EventView {
    TextDelta(Seq<char>),
    ReasoningDelta(Seq<char>),
    ToolCallDelta(u32, Option<Seq<char>>, Option<Seq<char>>, Seq<char>),
    CustomToolCallInputDelta(u32, Option<Seq<char>>, Option<Seq<char>>, Seq<char>),
    CustomToolCallInputDone(u32, Seq<char>),
    OutputPart(u32, PartView),
    Usage(Usage),
    Finished(FinishView),
}

impl View for ProviderEvent {
    type V = EventView;

    open spec fn view(&self) -> EventView {
        match *self {
            ProviderEvent::TextDelta { text } => EventView::TextDelta(text@),
            ProviderEvent::ReasoningDelta { text } => EventView::ReasoningDelta(text@),
            ProviderEvent::ToolCallDelta { index, id, name, arguments } => EventView::ToolCallDelta(
                index,
                text::opt_text(id),
                text::opt_text(name),
                arguments@,
            ),
            ProviderEvent::CustomToolCallInputDelta { index, id, name, input } =>
                EventView::CustomToolCallInputDelta(
                index,
                text::opt_text(id),
                text::opt_text(name),
                input@,
            ),
            ProviderEvent::CustomToolCallInputDone { index, input } =>
                EventView::CustomToolCallInputDone(index, input@),
            ProviderEvent::OutputPart { index, part } => EventView::OutputPart(index, part@),
            ProviderEvent::Usage { usage } => EventView::Usage(usage),
            ProviderEvent::Finished { reason } => EventView::Finished(reason@),
        }
    }
}

pub open spec fn event_views(events: Seq<ProviderEvent>) -> Seq<EventView> {
    events.map_values(|e: ProviderEvent| e@)
}

/// How the text that a model writes freely becomes the input of a tool.
#[derive(Clone, Copy, Debug, PartialEq, Eq, Structural)]
pub enum FreeformParser {
    /// The whole text is the command.
    Command,
    /// The first line is a path, the rest the content of the file.
    Write,
}

/// What a provider is told of a tool.
pub struct ToolDefinition {
    pub name: String,
    pub description: String,
    pub schema: Json,
    pub freeform: Option<FreeformParser>,
}

impl ToolDefinition {
    /// A tool whose input is described by a schema.
    pub fn new(name: &str, description: &str, schema: Json) -> (r: Self)
        ensures
            r.name@ == name@,
            r.description@ == description@,
            r.schema == schema,
            r.freeform is None,
    {
        ToolDefinition {
            name: text::owned(name),
            description: text::owned(description),
            schema,
            freeform: None,
        }
    }
}

/// What a model gives a tool.
pub enum ToolInput {
    Json(Json),
    /// Text that the model wrote freely.
    Text(String),
}

impl ToolInput {
    /// The input of a tool that takes an object.
    pub fn object(&self, tool: &str) -> (r: Result<&Json>)
        ensures
            match *self {
                ToolInput::Json(value) => r is Ok && *r->Ok_0 == value,
                ToolInput::Text(_) => r is Err && r->Err_0@ == ErrorView::Tool(
                    tool@ + " input must be an object"@,
                ),
            },
    {
        match self {
            ToolInput::Json(value) => Ok(value),
            ToolInput::Text(_) => Err(Error::Tool(text::cat2(tool, " input must be an object"))),
        }
    }

    /// The input of a tool that takes text.
    pub fn text(&self, tool: &str) -> (r: Result<&str>)
        ensures
            match *self {
                ToolInput::Text(written) => r is Ok && r->Ok_0@ == written@,
                ToolInput::Json(_) => r is Err && r->Err_0@ == ErrorView::Tool(
                    tool@ + " input must be text"@,
                ),
            },
    {
        match self {
            ToolInput::Text(written) => Ok(written.as_str()),
            ToolInput::Json(_) => Err(Error::Tool(text::cat2(tool, " input must be text"))),
        }
    }
}

/// What a request is for.
#[derive(Clone, Copy, Debug, PartialEq, Eq, Structural)]
pub enum ProviderMode {
    /// A turn of the conversation.
    Normal,
    /// A summary of the conversation.
    Compaction,
    /// A question beside the conversation.
    SideQuery,
    /// A round of a subagent.
    Subagent,
}

/// What a provider is asked.
pub struct ProviderRequest {
    pub mode: ProviderMode,
    pub model: String,
    /// What is told besides the messages.
    pub context: Vec<String>,
    pub messages: Vec<Message>,
    /// The tools that the model may call.
    pub tools: Vec<ToolDefinition>,
}

/// Whether a request offers no tool and tells nothing but its messages.
pub open spec fn stands_alone(request: ProviderRequest) -> bool {
    request.tools@.len() == 0 && request.context@.len() == 0
}

impl ProviderRequest {
    /// A request without tools and without context.
    pub fn alone(mode: ProviderMode, model: &str, messages: Vec<Message>) -> (r: Self)
        ensures
            stands_alone(r),
            r.mode == mode,
            r.model@ == model@,
            r.messages == messages,
    {
        ProviderRequest {
            mode,
            model: text::owned(model),
            context: Vec::new(),
            messages,
            tools: Vec::new(),
        }
    }
}

// ---------------------------------------------------------------------------
// Exit states
// ---------------------------------------------------------------------------

/// How an exit status is shown in messages.
pub open spec fn shown_status(status: Option<i32>) -> Seq<char> {
    match status {
        Some(n) => "Some("@ + text::signed_decimal(n as int) + ")"@,
        None => "None"@,
    }
}

/// Shows an exit status.
pub fn show_status(status: Option<i32>) -> (r: String)
    ensures
        r@ == shown_status(status),
{
    match status {
        Some(n) => text::cat3("Some(", text::signed_text(n as i64).as_str(), ")"),
        None => text::owned("None"),
    }
}

} // verus!
