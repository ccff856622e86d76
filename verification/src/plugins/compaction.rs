//! Keeping a conversation within its token budget: the older part is replaced
//! by a summary.
use crate::bounded;
use crate::ids;
use crate::json;
use crate::json::{Json, ObjectBuilder};
use crate::model;
use crate::model::{
    Error, FinishReason, Message, MessagePart, MessagePartContent, ProviderEvent, ProviderMode,
    ProviderRequest, Role,
};
use crate::plugins::registration;
use crate::plugins::registration::{Registration, RegistrationKind, RegistrationView};
use crate::text;
use vstd::prelude::*;

verus! {

pub const PLUGIN_ID: &'static str = "builtin.compaction";

pub const HOOK_ID: &'static str = "builtin.compaction.before-provider-request";

pub const MESSAGE_OVERHEAD_TOKENS: usize = 4;

pub const CONTEXT_OVERHEAD_TOKENS: usize = 2;

pub const SUMMARY_PROMPT: &'static str = "Summarize the messages above following the instruction";

pub const DEFAULT_INSTRUCTION: &'static str = "Preserve decisions, requirements, unresolved questions, and details needed to continue the work. Omit repetition and incidental conversation.";

#[derive(Clone, Debug, PartialEq, Eq)]
pub struct CompactionPluginConfig {
    pub max_input_tokens: usize,
    pub reserved_output_tokens: usize,
    pub preserve_recent_messages: usize,
    pub max_summary_tokens: usize,
    pub instruction: String,
}

impl Default for CompactionPluginConfig {
    fn default() -> (r: Self)
        ensures
            r.max_input_tokens == 128_000,
            r.reserved_output_tokens == 8_192,
            r.preserve_recent_messages == 8,
            r.max_summary_tokens == 1_024,
            r.instruction@ == DEFAULT_INSTRUCTION@,
    {
        CompactionPluginConfig {
            max_input_tokens: 128_000,
            reserved_output_tokens: 8_192,
            preserve_recent_messages: 8,
            max_summary_tokens: 1_024,
            instruction: text::owned(DEFAULT_INSTRUCTION),
        }
    }
}

/// The budgets make sense and there is an instruction.
pub open spec fn is_valid(config: CompactionPluginConfig) -> bool {
    &&& config.max_input_tokens > 0
    &&& config.reserved_output_tokens < config.max_input_tokens
    &&& config.max_summary_tokens > 0
    &&& !text::is_blank(config.instruction@)
}

/// The plugin at work.
pub struct CompactionPlugin {
    pub config: CompactionPluginConfig,
}

/// Makes the plugin, where its configuration is usable.
pub fn compaction_plugin(config: CompactionPluginConfig) -> (r: model::Result<CompactionPlugin>)
    ensures
        r is Ok == is_valid(config),
        r matches Ok(p) ==> p.config == config,
        r matches Err(e) ==> e@ == model::ErrorView::Plugin(
            "compaction requires non-zero input and summary budgets and an instruction"@,
        ),
{
    if config.max_input_tokens == 0 || config.reserved_output_tokens >= config.max_input_tokens
        || config.max_summary_tokens == 0 || text::blank(config.instruction.as_str()) {
        return Err(
            Error::Plugin(
                text::owned(
                    "compaction requires non-zero input and summary budgets and an instruction",
                ),
            ),
        );
    }
    Ok(CompactionPlugin { config })
}

// ---------------------------------------------------------------------------
// Estimates
// ---------------------------------------------------------------------------

/// About how many tokens a text takes: one for four bytes.
pub open spec fn token_estimate(s: Seq<char>) -> nat {
    (text::utf8_len(s) + 3) / 4
}

pub open spec fn content_estimate(content: Option<model::ContentView>) -> nat {
    match content {
        None => 0,
        Some(model::ContentView::Text(t)) => token_estimate(t),
        Some(model::ContentView::Reasoning(t)) => token_estimate(t),
        Some(model::ContentView::ToolCall(id, name, arguments)) => token_estimate(id)
            + token_estimate(name) + token_estimate(json::json_spelling(arguments)),
        Some(model::ContentView::ToolResult(call_id, _, result)) => token_estimate(call_id)
            + token_estimate(
            match result {
                model::OutputView::Success(c) => c,
                model::OutputView::Failure(c) => c,
                model::OutputView::Stop => Seq::empty(),
            },
        ),
    }
}

pub open spec fn parts_estimate(parts: Seq<model::PartView>) -> nat
    decreases parts.len(),
{
    if parts.len() == 0 {
        0
    } else {
        parts_estimate(parts.drop_last()) + content_estimate(parts.last().content)
    }
}

pub open spec fn message_estimate(m: model::MessageView) -> nat {
    MESSAGE_OVERHEAD_TOKENS as nat + parts_estimate(m.content)
}

pub open spec fn messages_estimate(messages: Seq<model::MessageView>) -> nat
    decreases messages.len(),
{
    if messages.len() == 0 {
        0
    } else {
        messages_estimate(messages.drop_last()) + message_estimate(messages.last())
    }
}

/// The estimates of texts, each with an overhead.
pub open spec fn texts_estimate(list: Seq<Seq<char>>, overhead: nat) -> nat
    decreases list.len(),
{
    if list.len() == 0 {
        0
    } else {
        texts_estimate(list.drop_last(), overhead) + overhead + token_estimate(list.last())
    }
}

/// About how many tokens a request takes: its messages, what is added to its
/// context and the descriptions of its tools.
pub open spec fn request_estimate(
    messages: Seq<model::MessageView>,
    context: Seq<Seq<char>>,
    tools: Seq<Seq<char>>,
) -> nat {
    messages_estimate(messages) + texts_estimate(context, CONTEXT_OVERHEAD_TOKENS as nat)
        + texts_estimate(tools, 0)
}

/// About how many tokens a text takes.
pub fn estimate_tokens(s: &str) -> (n: usize)
    ensures
        n == token_estimate(s@),
{
    let bytes: usize = text::byte_len(s);
    if bytes % 4 == 0 {
        bytes / 4
    } else {
        bytes / 4 + 1
    }
}

/// A budget of which parts are spent; none once it is overdrawn.
fn spend(left: Option<usize>, cost: usize) -> (r: Option<usize>)
    ensures
        r == (match left {
            Some(n) => if cost <= n {
                Some((n - cost) as usize)
            } else {
                None
            },
            None => None,
        }),
{
    match left {
        Some(n) => if cost <= n {
            Some(n - cost)
        } else {
            None
        },
        None => None,
    }
}

/// `left` is what `budget` has left after `spent`.
pub open spec fn has_left(left: Option<usize>, budget: nat, spent: nat) -> bool {
    match left {
        Some(n) => spent + n == budget,
        None => spent > budget,
    }
}

fn spend_part(left: Option<usize>, part: &MessagePart, budget: Ghost<nat>, spent: Ghost<nat>) -> (r:
    Option<usize>)
    requires
        has_left(left, budget@, spent@),
    ensures
        has_left(r, budget@, spent@ + content_estimate(part@.content)),
{
    match &part.content {
        None => left,
        Some(MessagePartContent::Text { text }) => spend(left, estimate_tokens(text.as_str())),
        Some(MessagePartContent::Reasoning { text }) => spend(left, estimate_tokens(text.as_str())),
        Some(MessagePartContent::ToolCall { id, name, arguments }) => {
            let a = spend(left, estimate_tokens(id.as_str()));
            let b = spend(a, estimate_tokens(name.as_str()));
            spend(b, estimate_tokens(json::spell_json(arguments).as_str()))
        },
        Some(MessagePartContent::ToolResult { call_id, name, result }) => {
            let a = spend(left, estimate_tokens(call_id.as_str()));
            proof {
                reveal_strlit("");
                assert(""@ =~= Seq::<char>::empty());
            }
            let shown = match result.content() {
                Some(c) => c,
                None => "",
            };
            proof {
                assert(shown@ =~= (match result@ {
                    model::OutputView::Success(c) => c,
                    model::OutputView::Failure(c) => c,
                    model::OutputView::Stop => Seq::empty(),
                }));
            }
            spend(a, estimate_tokens(shown))
        },
    }
}

fn spend_message(left: Option<usize>, message: &Message, budget: Ghost<nat>, spent: Ghost<nat>) -> (r:
    Option<usize>)
    requires
        has_left(left, budget@, spent@),
    ensures
        has_left(r, budget@, spent@ + message_estimate(message@)),
{
    let mut now = spend(left, MESSAGE_OVERHEAD_TOKENS);
    let ghost parts = model::part_views(message.content@);
    let mut i: usize = 0;
    proof {
        assert(parts.take(0) =~= Seq::empty());
    }
    while i < message.content.len()
        invariant
            i <= message.content@.len(),
            parts == model::part_views(message.content@),
            has_left(
                now,
                budget@,
                spent@ + MESSAGE_OVERHEAD_TOKENS as nat + parts_estimate(parts.take(i as int)),
            ),
        decreases message.content@.len() - i,
    {
        proof {
            assert(parts.take(i + 1).drop_last() =~= parts.take(i as int));
            assert(parts.take(i + 1).last() == message.content@[i as int]@);
        }
        now = spend_part(
            now,
            &message.content[i],
            budget,
            Ghost(spent@ + MESSAGE_OVERHEAD_TOKENS as nat + parts_estimate(parts.take(i as int))),
        );
        i += 1;
    }
    proof {
        assert(parts.take(i as int) =~= parts);
    }
    now
}

fn spend_texts(
    left: Option<usize>,
    list: &[String],
    overhead: usize,
    budget: Ghost<nat>,
    spent: Ghost<nat>,
) -> (r: Option<usize>)
    requires
        has_left(left, budget@, spent@),
    ensures
        has_left(r, budget@, spent@ + texts_estimate(text::texts(list@), overhead as nat)),
{
    let mut now = left;
    let ghost all = text::texts(list@);
    let mut i: usize = 0;
    proof {
        assert(all.take(0) =~= Seq::empty());
    }
    while i < list.len()
        invariant
            i <= list@.len(),
            all == text::texts(list@),
            has_left(now, budget@, spent@ + texts_estimate(all.take(i as int), overhead as nat)),
        decreases list@.len() - i,
    {
        proof {
            assert(all.take(i + 1).drop_last() =~= all.take(i as int));
            assert(all.take(i + 1).last() == list@[i as int]@);
        }
        now = spend(spend(now, overhead), estimate_tokens(list[i].as_str()));
        i += 1;
    }
    proof {
        assert(all.take(i as int) =~= all);
    }
    now
}

/// Whether a request keeps to a budget.
pub fn fits_budget(messages: &[Message], context: &[String], tools: &[String], budget: usize) -> (r:
    bool)
    ensures
        r == (request_estimate(
            model::message_views(messages@),
            text::texts(context@),
            text::texts(tools@),
        ) <= budget),
{
    let ghost all = model::message_views(messages@);
    let mut left: Option<usize> = Some(budget);
    let mut i: usize = 0;
    proof {
        assert(all.take(0) =~= Seq::empty());
    }
    while i < messages.len()
        invariant
            i <= messages@.len(),
            all == model::message_views(messages@),
            has_left(left, budget as nat, messages_estimate(all.take(i as int))),
        decreases messages@.len() - i,
    {
        proof {
            assert(all.take(i + 1).drop_last() =~= all.take(i as int));
            assert(all.take(i + 1).last() == messages@[i as int]@);
        }
        left = spend_message(
            left,
            &messages[i],
            Ghost(budget as nat),
            Ghost(messages_estimate(all.take(i as int))),
        );
        i += 1;
    }
    proof {
        assert(all.take(i as int) =~= all);
    }
    let ghost first = messages_estimate(all);
    let after = spend_texts(
        left,
        context,
        CONTEXT_OVERHEAD_TOKENS,
        Ghost(budget as nat),
        Ghost(first),
    );
    let last = spend_texts(
        after,
        tools,
        0,
        Ghost(budget as nat),
        Ghost(first + texts_estimate(text::texts(context@), CONTEXT_OVERHEAD_TOKENS as nat)),
    );
    last.is_some()
}

// ---------------------------------------------------------------------------
// What is summarized
// ---------------------------------------------------------------------------

/// A message of the assistant that calls a tool.
pub open spec fn calls_tool(m: model::MessageView) -> bool {
    m.role == Role::Assistant && exists|i: int|
        0 <= i < m.content.len() && (#[trigger] m.content[i]).content matches Some(
            model::ContentView::ToolCall(_, _, _),
        )
}

/// The last message of the user, or the last message where there is none.
pub open spec fn current_user(messages: Seq<model::MessageView>, upto: int) -> Option<int>
    decreases upto,
{
    if upto <= 0 {
        None
    } else if messages[upto - 1].role == Role::User {
        Some(upto - 1)
    } else {
        current_user(messages, upto - 1)
    }
}

/// The first message that is kept.
pub open spec fn kept_from(messages: Seq<model::MessageView>, preserve: nat) -> int {
    let n = messages.len() as int;
    let user = match current_user(messages, n) {
        Some(i) => i,
        None => n - 1,
    };
    let recent = if preserve >= n {
        0
    } else {
        n - preserve
    };
    if recent < user {
        recent
    } else {
        user
    }
}

/// The last message at or before `i` that is no result of a tool, or the first.
pub open spec fn before_results(messages: Seq<model::MessageView>, i: int) -> int
    decreases i,
{
    if i > 0 && messages[i].role == Role::Tool {
        before_results(messages, i - 1)
    } else {
        i
    }
}

/// The last message that is summarized.
pub open spec fn summary_end(messages: Seq<model::MessageView>, preserve: nat) -> Option<int> {
    if messages.len() <= 1 {
        None
    } else {
        let from = kept_from(messages, preserve);
        if from == 0 {
            None
        } else {
            let end = if messages[from].role == Role::Tool {
                before_results(messages, from - 1)
            } else {
                from - 1
            };
            if calls_tool(messages[end]) {
                if end == 0 {
                    None
                } else {
                    Some(end - 1)
                }
            } else {
                Some(end)
            }
        }
    }
}

proof fn lemma_current_user(messages: Seq<model::MessageView>, upto: int)
    requires
        0 <= upto <= messages.len(),
    ensures
        match current_user(messages, upto) {
            Some(i) => 0 <= i < upto && messages[i].role == Role::User && forall|j: int|
                i < j < upto ==> (#[trigger] messages[j]).role != Role::User,
            None => forall|j: int| 0 <= j < upto ==> (#[trigger] messages[j]).role != Role::User,
        },
    decreases upto,
{
    if upto > 0 {
        lemma_current_user(messages, upto - 1);
    }
}

proof fn lemma_before_results(messages: Seq<model::MessageView>, i: int)
    requires
        0 <= i < messages.len(),
    ensures
        0 <= before_results(messages, i) <= i,
        before_results(messages, i) > 0 ==> messages[before_results(messages, i)].role
            != Role::Tool,
        forall|j: int|
            before_results(messages, i) < j <= i ==> (#[trigger] messages[j]).role == Role::Tool,
    decreases i,
{
    if i > 0 && messages[i].role == Role::Tool {
        lemma_before_results(messages, i - 1);
    }
}

/// A summary never splits a tool call from its results: the first message that
/// is kept is a result only where neither a result nor the call stands right
/// before it. The current request of the user is always kept, and so are as many
/// of the last messages as are to be preserved.
pub proof fn law_tool_call_groups_stay_together(messages: Seq<model::MessageView>, preserve: nat)
    requires
        messages.len() > 0,
        messages[0].role != Role::Tool,
    ensures
        summary_end(messages, preserve) matches Some(end) ==> {
            &&& 0 <= end && end + 1 < messages.len()
            &&& messages[end + 1].role == Role::Tool ==> messages[end].role != Role::Tool
                && !calls_tool(messages[end])
            &&& end < kept_from(messages, preserve)
            &&& (preserve <= messages.len() ==> end + 1 <= messages.len() - preserve)
            &&& forall|j: int|
                0 <= j <= end && (#[trigger] messages[j]).role == Role::User ==> exists|k: int|
                    end < k < messages.len() && (#[trigger] messages[k]).role == Role::User
        },
{
    lemma_current_user(messages, messages.len() as int);
    let from = kept_from(messages, preserve);
    if messages.len() > 1 && from > 0 {
        lemma_before_results(messages, from - 1);
        if let Some(end) = summary_end(messages, preserve) {
            assert forall|j: int|
                0 <= j <= end && (#[trigger] messages[j]).role == Role::User implies exists|k: int|
                end < k < messages.len() && (#[trigger] messages[k]).role == Role::User by {
                let user = current_user(messages, messages.len() as int)->0;
                assert(messages[user].role == Role::User);
            }
        }
    }
}

fn is_call(message: &Message) -> (r: bool)
    ensures
        r == calls_tool(message@),
{
    if message.role != Role::Assistant {
        return false;
    }
    let ghost parts = message@.content;
    let mut i: usize = 0;
    while i < message.content.len()
        invariant
            i <= message.content@.len(),
            parts == message@.content,
            message.role == Role::Assistant,
            forall|j: int|
                0 <= j < i ==> !((#[trigger] parts[j]).content matches Some(
                    model::ContentView::ToolCall(_, _, _),
                )),
        decreases message.content@.len() - i,
    {
        proof {
            assert(parts[i as int] == message.content@[i as int]@);
        }
        if let Some(MessagePartContent::ToolCall { .. }) = &message.content[i].content {
            return true;
        }
        i += 1;
    }
    false
}

/// The last message that a summary covers.
pub fn compaction_end(messages: &[Message], preserve_recent_messages: usize) -> (r: Option<usize>)
    ensures
        match r {
            Some(end) => summary_end(
                model::message_views(messages@),
                preserve_recent_messages as nat,
            ) == Some(end as int) && end < messages@.len(),
            None => summary_end(
                model::message_views(messages@),
                preserve_recent_messages as nat,
            ) is None,
        },
{
    let ghost all = model::message_views(messages@);
    let n: usize = messages.len();
    if n <= 1 {
        return None;
    }
    let mut user: usize = n;
    while user > 0 && messages[user - 1].role != Role::User
        invariant
            user <= n,
            n == messages@.len(),
            all == model::message_views(messages@),
            current_user(all, n as int) == current_user(all, user as int),
        decreases user,
    {
        proof {
            assert(all[user - 1] == messages@[user - 1]@);
        }
        user -= 1;
    }
    proof {
        if user > 0 {
            assert(all[user - 1] == messages@[user - 1]@);
        }
    }
    let current: usize = if user > 0 {
        user - 1
    } else {
        n - 1
    };
    let recent: usize = if preserve_recent_messages >= n {
        0
    } else {
        n - preserve_recent_messages
    };
    let from: usize = if recent < current {
        recent
    } else {
        current
    };
    if from == 0 {
        return None;
    }
    let mut end: usize = from - 1;
    proof {
        assert(all[from as int] == messages@[from as int]@);
    }
    if messages[from].role == Role::Tool {
        while end > 0 && messages[end].role == Role::Tool
            invariant
                end < from < n,
                n == messages@.len(),
                all == model::message_views(messages@),
                before_results(all, from - 1) == before_results(all, end as int),
            decreases end,
        {
            proof {
                assert(all[end as int] == messages@[end as int]@);
            }
            end -= 1;
        }
        proof {
            assert(all[end as int] == messages@[end as int]@);
        }
    }
    proof {
        assert(all[end as int] == messages@[end as int]@);
    }
    if is_call(&messages[end]) {
        if end == 0 {
            return None;
        }
        return Some(end - 1);
    }
    Some(end)
}

// ---------------------------------------------------------------------------
// The summary
// ---------------------------------------------------------------------------

/// Appends as much of `text` as keeps `output` within `max_bytes`, in whole
/// characters.
pub fn append_bounded(output: &mut String, text: &str, max_bytes: usize)
    ensures
        final(output)@ == bounded::extended(old(output)@, text@, max_bytes as nat),
{
    let mut truncated = false;
    bounded::append_bounded(output, text, max_bytes, &mut truncated);
}

/// A summary on its way.
pub struct Summary {
    pub text: String,
    pub rejected_tool_call: bool,
}

/// The most bytes that a summary may take.
pub open spec fn summary_limit(config: CompactionPluginConfig) -> nat {
    if config.max_summary_tokens * 4 > usize::MAX {
        usize::MAX as nat
    } else {
        (config.max_summary_tokens * 4) as nat
    }
}

/// The event asks for a tool.
pub open spec fn asks_for_tool(event: model::EventView) -> bool {
    event is ToolCallDelta || event == model::EventView::Finished(model::FinishView::ToolCalls)
}

/// Whether a request of so many tokens has to be shortened.
pub open spec fn is_too_long(config: CompactionPluginConfig, mode: ProviderMode, tokens: nat) -> bool {
    mode == ProviderMode::Normal && tokens + config.reserved_output_tokens
        > config.max_input_tokens && tokens > 0
}

impl CompactionPlugin {
    /// How many tokens a request may take.
    pub fn input_budget(&self) -> (r: usize)
        ensures
            r == (if self.config.reserved_output_tokens >= self.config.max_input_tokens {
                0
            } else {
                self.config.max_input_tokens - self.config.reserved_output_tokens
            }),
    {
        if self.config.reserved_output_tokens >= self.config.max_input_tokens {
            0
        } else {
            self.config.max_input_tokens - self.config.reserved_output_tokens
        }
    }

    /// Whether a request has to be shortened: only requests of a turn are, and
    /// only those beyond the budget.
    pub fn needs_compaction(
        &self,
        mode: ProviderMode,
        messages: &[Message],
        context: &[String],
        tools: &[String],
    ) -> (r: bool)
        ensures
            ({
                let budget = if self.config.reserved_output_tokens >= self.config.max_input_tokens {
                    0
                } else {
                    self.config.max_input_tokens - self.config.reserved_output_tokens
                };
                r == (mode == ProviderMode::Normal && request_estimate(
                    model::message_views(messages@),
                    text::texts(context@),
                    text::texts(tools@),
                ) > budget)
            }),
            r == is_too_long(
                self.config,
                mode,
                request_estimate(
                    model::message_views(messages@),
                    text::texts(context@),
                    text::texts(tools@),
                ),
            ),
    {
        mode == ProviderMode::Normal && !fits_budget(
            messages,
            context,
            tools,
            self.input_budget(),
        )
    }

    /// The messages with which a summary is asked for.
    pub fn summary_messages(&self, covered: &[Message]) -> (r: Vec<Message>)
        ensures
            model::all_said(model::message_views(r@)) == seq![
                model::one_text(Role::System, self.config.instruction@),
            ] + model::all_said(model::message_views(covered@)) + seq![
                model::one_text(Role::User, SUMMARY_PROMPT@),
            ],
            model::message_views(r@).subrange(1, r@.len() - 1) == model::message_views(covered@),
    {
        let mut list: Vec<Message> = Vec::new();
        let first = Message::text(Role::System, self.config.instruction.as_str(), "");
        let last = Message::text(Role::User, SUMMARY_PROMPT, "");
        let ghost a = first@;
        let ghost b = last@;
        proof {
            assert(model::message_views(list@) =~= Seq::empty());
        }
        model::push_message(&mut list, first);
        model::push_messages(&mut list, covered);
        model::push_message(&mut list, last);
        proof {
            let all = model::message_views(list@);
            let mid = model::message_views(covered@);
            assert(all =~= seq![a] + mid + seq![b]);
            assert(all.len() == list@.len());
            assert(all.subrange(1, list@.len() - 1) =~= mid);
            assert(model::all_said(all) =~= seq![model::said(a)] + model::all_said(mid) + seq![
                model::said(b),
            ]);
        }
        list
    }

    /// The request for a summary.
    pub fn summary_request(&self, model_name: &str, covered: &[Message]) -> (r: ProviderRequest)
        ensures
            r.mode == ProviderMode::Compaction,
            r.model@ == model_name@,
            model::stands_alone(r),
            model::all_said(model::message_views(r.messages@)) == seq![
                model::one_text(Role::System, self.config.instruction@),
            ] + model::all_said(model::message_views(covered@)) + seq![
                model::one_text(Role::User, SUMMARY_PROMPT@),
            ],
            model::message_views(r.messages@).subrange(1, r.messages@.len() - 1)
                == model::message_views(covered@),
    {
        ProviderRequest::alone(
            ProviderMode::Compaction,
            model_name,
            self.summary_messages(covered),
        )
    }

    /// Takes one event of the provider into a summary.
    pub fn take_event(&self, summary: &mut Summary, event: &ProviderEvent)
        ensures
            final(summary).text@ == (match event@ {
                model::EventView::TextDelta(t) => bounded::extended(
                    old(summary).text@,
                    t,
                    summary_limit(self.config),
                ),
                _ => old(summary).text@,
            }),
            final(summary).rejected_tool_call == (old(summary).rejected_tool_call || asks_for_tool(
                event@,
            )),
    {
        let tokens: usize = self.config.max_summary_tokens;
        let limit: usize = if tokens > usize::MAX / 4 {
            usize::MAX
        } else {
            tokens * 4
        };
        match event {
            ProviderEvent::TextDelta { text } => append_bounded(
                &mut summary.text,
                text.as_str(),
                limit,
            ),
            ProviderEvent::ToolCallDelta { .. } => {
                summary.rejected_tool_call = true;
            },
            ProviderEvent::Finished { reason: FinishReason::ToolCalls } => {
                summary.rejected_tool_call = true;
            },
            _ => {},
        }
    }

    /// The text of a summary that is complete.
    pub fn finish(&self, summary: Summary) -> (r: model::Result<String>)
        ensures
            if summary.rejected_tool_call {
                r is Err && r->Err_0@ == model::ErrorView::Provider(
                    "compaction provider returned a tool call"@,
                )
            } else if text::is_blank(summary.text@) {
                r is Err && r->Err_0@ == model::ErrorView::Provider(
                    "compaction provider returned an empty summary"@,
                )
            } else {
                r is Ok && r->Ok_0 == summary.text
            },
    {
        if summary.rejected_tool_call {
            return Err(
                Error::Provider(text::owned("compaction provider returned a tool call")),
            );
        }
        if text::blank(summary.text.as_str()) {
            return Err(
                Error::Provider(text::owned("compaction provider returned an empty summary")),
            );
        }
        Ok(summary.text)
    }
}

/// What is kept with a summary: that it is one, and the messages that it stands for.
pub open spec fn summary_metadata(covered: Seq<model::MessageView>) -> json::JsonView {
    json::JsonView::Object(
        seq![
            ("compaction"@, json::JsonView::Bool(true)),
            ("covered_message_ids"@, json::texts_view(spelled_ids(covered))),
        ],
    )
}

/// The identifiers of messages, spelled.
pub open spec fn spelled_ids(messages: Seq<model::MessageView>) -> Seq<Seq<char>> {
    messages.map_values(|m: model::MessageView| ids::uuid_spelling(m.id.0))
}

impl CompactionPlugin {
    /// The message that takes the place of those that it summarizes, and what is
    /// kept with it.
    pub fn replacement(&self, covered: &[Message], summary: &str) -> (r: (Message, Json))
        ensures
            model::said(r.0@) == model::one_text(Role::System, summary@),
            r.1@ == summary_metadata(model::message_views(covered@)),
    {
        let ghost views = model::message_views(covered@);
        let ghost all = json::texts_view(spelled_ids(views))->Array_0;
        let mut out: Vec<Json> = Vec::new();
        let mut i: usize = 0;
        proof {
            assert(json::json_views(out@) =~= all.take(0));
        }
        while i < covered.len()
            invariant
                i <= covered@.len(),
                views == model::message_views(covered@),
                all == json::texts_view(spelled_ids(views))->Array_0,
                json::json_views(out@) == all.take(i as int),
            decreases covered@.len() - i,
        {
            let ghost before = json::json_views(out@);
            let value = Json::text(covered[i].id.spelled().as_str());
            let ghost shown = value@;
            out.push(value);
            proof {
                assert(views[i as int].id == covered@[i as int].id);
                assert(json::json_views(out@) =~= before.push(shown));
                assert(all.take(i + 1) =~= all.take(i as int).push(shown));
            }
            i += 1;
        }
        proof {
            assert(all.take(i as int) =~= all);
        }
        let fields = ObjectBuilder::new().with("compaction", Json::Bool(true)).with(
            "covered_message_ids",
            json::array(out),
        );
        proof {
            assert(fields@ =~= seq![
                ("compaction"@, json::JsonView::Bool(true)),
                ("covered_message_ids"@, json::texts_view(spelled_ids(views))),
            ]);
        }
        (Message::text(Role::System, summary, ""), fields.done())
    }
}

/// What the plugin registers, in this order.
pub open spec fn registered() -> Seq<RegistrationView> {
    seq![(RegistrationKind::BeforeProviderRequest, HOOK_ID@, 0int)]
}

impl CompactionPlugin {
    /// What the plugin registers, in this order.
    pub fn registrations(&self) -> (r: Vec<Registration>)
        ensures
            registration::registration_views(r@) == registered(),
    {
        let mut list: Vec<Registration> = Vec::new();
        proof {
            assert(registration::registration_views(list@) =~= Seq::empty());
        }
        registration::register(&mut list, RegistrationKind::BeforeProviderRequest, HOOK_ID, 0);
        proof {
            assert(registration::registration_views(list@) =~= registered());
        }
        list
    }
}

// ---------------------------------------------------------------------------
// Laws
// ---------------------------------------------------------------------------

/// The parts of a message cost as much together as one by one.
pub proof fn law_parts_add_up(a: Seq<model::PartView>, b: Seq<model::PartView>)
    ensures
        parts_estimate(a + b) == parts_estimate(a) + parts_estimate(b),
    decreases b.len(),
{
    if b.len() == 0 {
        assert(a + b =~= a);
    } else {
        law_parts_add_up(a, b.drop_last());
        assert((a + b).drop_last() =~= a + b.drop_last());
        assert((a + b).last() == b.last());
    }
}

/// Whether a number of tokens is a quarter of so many bytes, rounded up.
pub open spec fn is_quarter(tokens: nat, bytes: nat) -> bool {
    bytes <= 4 * tokens < bytes + 4
}

/// A part costs a quarter of the bytes of every text in it: of what is said or thought,
/// of the identifier, the name and the arguments of a call, and of the identifier of a
/// call and all that the tool gave back.
pub proof fn law_every_text_is_counted(part: model::PartView)
    ensures
        ({
            let cost = parts_estimate(seq![part]);
            match part.content {
                None => cost == 0,
                Some(model::ContentView::Text(t)) => is_quarter(cost, text::utf8_len(t)),
                Some(model::ContentView::Reasoning(t)) => is_quarter(cost, text::utf8_len(t)),
                Some(model::ContentView::ToolCall(id, name, arguments)) => exists|
                    a: nat,
                    b: nat,
                    c: nat,
                |
                    #![trigger is_quarter(a, text::utf8_len(id)), is_quarter(b, text::utf8_len(name)), is_quarter(c, text::utf8_len(json::json_spelling(arguments)))]
                    {
                        &&& is_quarter(a, text::utf8_len(id))
                        &&& is_quarter(b, text::utf8_len(name))
                        &&& is_quarter(c, text::utf8_len(json::json_spelling(arguments)))
                        &&& cost == a + b + c
                    },
                Some(model::ContentView::ToolResult(call_id, _, model::OutputView::Success(out))) =>
                exists|a: nat, b: nat|
                    #![trigger is_quarter(a, text::utf8_len(call_id)), is_quarter(b, text::utf8_len(out))]
                    {
                        &&& is_quarter(a, text::utf8_len(call_id))
                        &&& is_quarter(b, text::utf8_len(out))
                        &&& cost == a + b
                    },
                Some(model::ContentView::ToolResult(call_id, _, model::OutputView::Failure(out))) =>
                exists|a: nat, b: nat|
                    #![trigger is_quarter(a, text::utf8_len(call_id)), is_quarter(b, text::utf8_len(out))]
                    {
                        &&& is_quarter(a, text::utf8_len(call_id))
                        &&& is_quarter(b, text::utf8_len(out))
                        &&& cost == a + b
                    },
                Some(model::ContentView::ToolResult(call_id, _, model::OutputView::Stop)) =>
                is_quarter(cost, text::utf8_len(call_id)),
            }
        }),
{
    assert(seq![part].drop_last() =~= Seq::empty());
    assert(parts_estimate(seq![part].drop_last()) == 0);
    assert(text::utf8_len(Seq::<char>::empty()) == 0);
    let cost = parts_estimate(seq![part]);
    match part.content {
        Some(model::ContentView::ToolCall(id, name, arguments)) => {
            assert(is_quarter(token_estimate(id), text::utf8_len(id)));
            assert(is_quarter(token_estimate(name), text::utf8_len(name)));
            let spelled = json::json_spelling(arguments);
            assert(is_quarter(token_estimate(spelled), text::utf8_len(spelled)));
        },
        Some(model::ContentView::ToolResult(call_id, _, model::OutputView::Success(out))) => {
            assert(is_quarter(token_estimate(call_id), text::utf8_len(call_id)));
            assert(is_quarter(token_estimate(out), text::utf8_len(out)));
        },
        Some(model::ContentView::ToolResult(call_id, _, model::OutputView::Failure(out))) => {
            assert(is_quarter(token_estimate(call_id), text::utf8_len(call_id)));
            assert(is_quarter(token_estimate(out), text::utf8_len(out)));
        },
        _ => {},
    }
}

/// One more message costs four tokens and what its parts cost, one more addition to the
/// context two tokens and a quarter of its bytes, and one more tool a quarter of the
/// bytes of its description. An empty request costs nothing.
pub proof fn law_requests_add_up(
    messages: Seq<model::MessageView>,
    context: Seq<Seq<char>>,
    tools: Seq<Seq<char>>,
    message: model::MessageView,
    part: Seq<char>,
    tool: Seq<char>,
)
    ensures
        request_estimate(Seq::empty(), Seq::empty(), Seq::empty()) == 0,
        request_estimate(messages.push(message), context, tools) == request_estimate(
            messages,
            context,
            tools,
        ) + 4 + parts_estimate(message.content),
        is_quarter(
            (request_estimate(messages, context.push(part), tools) - request_estimate(
                messages,
                context,
                tools,
            ) - 2) as nat,
            text::utf8_len(part),
        ),
        request_estimate(messages, context.push(part), tools) >= request_estimate(
            messages,
            context,
            tools,
        ) + 2,
        is_quarter(
            (request_estimate(messages, context, tools.push(tool)) - request_estimate(
                messages,
                context,
                tools,
            )) as nat,
            text::utf8_len(tool),
        ),
        request_estimate(messages, context, tools.push(tool)) >= request_estimate(
            messages,
            context,
            tools,
        ),
{
    assert(messages.push(message).drop_last() =~= messages);
    assert(context.push(part).drop_last() =~= context);
    assert(tools.push(tool).drop_last() =~= tools);
}

/// A text that a part of a message carries, and that costs tokens.
pub open spec fn carries(part: model::PartView, t: Seq<char>) -> bool {
    match part.content {
        None => false,
        Some(model::ContentView::Text(s)) => t == s,
        Some(model::ContentView::Reasoning(s)) => t == s,
        Some(model::ContentView::ToolCall(id, name, arguments)) => t == id || t == name || t
            == json::json_spelling(arguments),
        Some(model::ContentView::ToolResult(call_id, _, model::OutputView::Success(out))) => t
            == call_id || t == out,
        Some(model::ContentView::ToolResult(call_id, _, model::OutputView::Failure(out))) => t
            == call_id || t == out,
        Some(model::ContentView::ToolResult(call_id, _, model::OutputView::Stop)) => t == call_id,
    }
}

proof fn lemma_part_counts(parts: Seq<model::PartView>, k: int)
    requires
        0 <= k < parts.len(),
    ensures
        parts_estimate(parts) >= content_estimate(parts[k].content),
    decreases parts.len(),
{
    if k < parts.len() - 1 {
        lemma_part_counts(parts.drop_last(), k);
    }
}

proof fn lemma_message_counts(messages: Seq<model::MessageView>, k: int)
    requires
        0 <= k < messages.len(),
    ensures
        messages_estimate(messages) >= message_estimate(messages[k]),
    decreases messages.len(),
{
    if k < messages.len() - 1 {
        lemma_message_counts(messages.drop_last(), k);
    }
}

/// A conversation that carries a text longer than four times a budget, be it said,
/// thought, asked of a tool or given back by one, is beyond that budget.
pub proof fn law_long_texts_exceed_the_budget(
    messages: Seq<model::MessageView>,
    context: Seq<Seq<char>>,
    tools: Seq<Seq<char>>,
    i: int,
    k: int,
    t: Seq<char>,
    budget: nat,
)
    requires
        0 <= i < messages.len(),
        0 <= k < messages[i].content.len(),
        carries(messages[i].content[k], t),
    ensures
        4 * message_estimate(messages[i]) >= text::utf8_len(t) + 16,
        text::utf8_len(t) > 4 * budget ==> request_estimate(messages, context, tools) > budget,
{
    lemma_message_counts(messages, i);
    lemma_part_counts(messages[i].content, k);
}

proof fn lemma_later_user(messages: Seq<model::MessageView>, upto: int, k: int)
    requires
        0 <= k < upto <= messages.len(),
        messages[k].role == Role::User,
    ensures
        current_user(messages, upto) matches Some(u) && k <= u < upto,
    decreases upto,
{
    if messages[upto - 1].role != Role::User {
        lemma_later_user(messages, upto - 1, k);
    }
}

/// The older part of a conversation is summarized as far as that is allowed. Where the
/// first `k` messages are neither among those that are to be preserved nor hold the
/// current request of the user, and no tool call stands at that place, they are covered.
pub proof fn law_older_messages_are_summarized(
    messages: Seq<model::MessageView>,
    preserve: nat,
    k: int,
    u: int,
)
    requires
        0 < k <= u < messages.len(),
        k + preserve <= messages.len(),
        messages[u].role == Role::User,
        forall|j: int|
            k - 1 <= j < messages.len() ==> (#[trigger] messages[j]).role != Role::Tool
                && !calls_tool(messages[j]),
    ensures
        summary_end(messages, preserve) matches Some(end) && end >= k - 1,
{
    lemma_later_user(messages, messages.len() as int, u);
    let from = kept_from(messages, preserve);
    assert(k <= from < messages.len());
    assert(messages[from].role != Role::Tool);
    assert(!calls_tool(messages[from - 1]));
}

/// A summary may not ask for tools; it keeps the identifiers of the messages that it
/// stands for, in their order, and four bytes to a token.
pub proof fn law_summaries_tell_what_they_cover(
    covered: Seq<model::MessageView>,
    i: int,
    event: model::EventView,
    config: CompactionPluginConfig,
)
    requires
        0 <= i < covered.len(),
    ensures
        json::field(summary_metadata(covered), "compaction"@) == Some(json::JsonView::Bool(true)),
        json::field(summary_metadata(covered), "covered_message_ids"@) matches Some(
            json::JsonView::Array(list),
        ) && list.len() == covered.len() && list[i] == json::JsonView::Text(
            ids::uuid_spelling(covered[i].id.0),
        ),
        event is ToolCallDelta ==> asks_for_tool(event),
        event == model::EventView::Finished(model::FinishView::ToolCalls) ==> asks_for_tool(event),
        event is TextDelta || event == model::EventView::Finished(model::FinishView::Stop)
            ==> !asks_for_tool(event),
        config.max_summary_tokens * 4 <= usize::MAX ==> summary_limit(config) == 4
            * config.max_summary_tokens,
{
    reveal_strlit("compaction");
    reveal_strlit("covered_message_ids");
    assert("compaction"@.len() == 10 && "covered_message_ids"@.len() == 19);
    reveal_with_fuel(json::field_from, 3);
}

} // verus!
