//! A tool that asks a second agent, which works on its own and without tools,
//! within bounds on depth, rounds, output and tool calls.
use crate::bounded;
use crate::json;
use crate::json::{Json, ObjectBuilder};
use crate::model;
use crate::model::{
    Error, Message, MessagePart, ProviderEvent, ProviderMode, ProviderRequest, Role,
    ToolDefinition, ToolOutput,
};
use crate::plugins::registration;
use crate::plugins::registration::{Registration, RegistrationKind, RegistrationView};
use crate::text;
use vstd::prelude::*;

verus! {

pub const PLUGIN_ID: &'static str = "builtin.subagents";

pub const TOOL_ID: &'static str = "builtin.subagents.subagent";

pub const TOOL_NAME: &'static str = "subagent";

pub const DESCRIPTION: &'static str = "Run an isolated read-only subagent with bounded depth, rounds, output, and tool-call handling. Registered core tools are unavailable to subagents because ToolContext does not expose the ToolRegistry.";

#[derive(Clone, Debug, PartialEq, Eq)]
pub struct SubagentConfig {
    /// Uses the current turn's model when unset.
    pub model: Option<String>,
    pub max_depth: usize,
    pub max_rounds: usize,
    pub max_output_bytes: usize,
    pub max_tool_calls: usize,
    /// Names that are reserved for later: no tool can run in a subagent.
    pub tool_allowlist: Vec<String>,
}

impl SubagentConfig {
    pub fn new(model: String) -> (r: Self)
        ensures
            r.model == Some(model),
            r.max_depth == 2,
            r.max_rounds == 8,
            r.max_output_bytes == 256 * 1024,
            r.max_tool_calls == 32,
            r.tool_allowlist@.len() == 0,
    {
        SubagentConfig {
            model: Some(model),
            max_depth: 2,
            max_rounds: 8,
            max_output_bytes: 256 * 1024,
            max_tool_calls: 32,
            tool_allowlist: Vec::new(),
        }
    }
}

pub open spec fn is_valid(config: SubagentConfig) -> bool {
    &&& config.model matches Some(m) ==> !text::is_blank(m@)
    &&& config.max_depth > 0
    &&& config.max_rounds > 0
    &&& config.max_output_bytes > 0
    &&& config.max_tool_calls > 0
    &&& forall|i: int|
        0 <= i < config.tool_allowlist@.len() ==> !text::is_blank(
            (#[trigger] config.tool_allowlist@[i])@,
        )
}

fn any_blank(list: &Vec<String>) -> (r: bool)
    ensures
        r == exists|i: int| 0 <= i < list@.len() && text::is_blank((#[trigger] list@[i])@),
{
    let mut i: usize = 0;
    while i < list.len()
        invariant
            i <= list@.len(),
            forall|j: int| 0 <= j < i ==> !text::is_blank((#[trigger] list@[j])@),
        decreases list@.len() - i,
    {
        if text::blank(list[i].as_str()) {
            return true;
        }
        i += 1;
    }
    false
}

/// Checks a configuration.
pub fn validate_config(config: &SubagentConfig) -> (r: model::Result<()>)
    ensures
        r is Ok == is_valid(*config),
        r matches Err(e) ==> e@ == model::ErrorView::Plugin("invalid subagent configuration"@),
{
    let blank_model = match &config.model {
        Some(m) => text::blank(m.as_str()),
        None => false,
    };
    if blank_model || config.max_depth == 0 || config.max_rounds == 0 || config.max_output_bytes
        == 0 || config.max_tool_calls == 0 || any_blank(&config.tool_allowlist) {
        return Err(Error::Plugin(text::owned("invalid subagent configuration")));
    }
    Ok(())
}

#[derive(Clone, Debug)]
pub struct SubagentInput {
    pub prompt: String,
    pub system: Option<String>,
    pub depth: usize,
}

#[derive(Clone, Debug, PartialEq, Eq)]
pub struct SubagentOutput {
    pub text: String,
    pub rounds: usize,
    pub tool_calls: usize,
    pub truncated: bool,
}

// ---------------------------------------------------------------------------
// One answer of the provider
// ---------------------------------------------------------------------------

/// A tool call on its way.
pub struct PendingCall {
    pub index: u32,
    pub id: Option<String>,
    pub name: Option<String>,
    pub arguments: String,
}

pub ghost struct CallView {
    pub index: u32,
    pub id: Option<Seq<char>>,
    pub name: Option<Seq<char>>,
    pub arguments: Seq<char>,
}

impl View for PendingCall {
    type V = CallView;

    open spec fn view(&self) -> CallView {
        CallView {
            index: self.index,
            id: text::opt_text(self.id),
            name: text::opt_text(self.name),
            arguments: self.arguments@,
        }
    }
}

pub open spec fn call_views(calls: Seq<PendingCall>) -> Seq<CallView> {
    calls.map_values(|c: PendingCall| c@)
}

/// An answer on its way. The calls are in the order of their indexes.
pub struct AssistantBuffer {
    pub text: String,
    pub reasoning: String,
    pub calls: Vec<PendingCall>,
    pub truncated: bool,
}

pub ghost struct BufferView {
    pub text: Seq<char>,
    pub reasoning: Seq<char>,
    pub calls: Seq<CallView>,
    pub truncated: bool,
}

impl View for AssistantBuffer {
    type V = BufferView;

    open spec fn view(&self) -> BufferView {
        BufferView {
            text: self.text@,
            reasoning: self.reasoning@,
            calls: call_views(self.calls@),
            truncated: self.truncated,
        }
    }
}

/// Where the call with `index` stands or would stand.
pub open spec fn call_slot(calls: Seq<CallView>, index: u32) -> int
    decreases calls.len(),
{
    if calls.len() == 0 || calls[0].index >= index {
        0
    } else {
        1 + call_slot(calls.drop_first(), index)
    }
}

/// The calls with an empty one at `index`, where there was none.
pub open spec fn with_call(calls: Seq<CallView>, index: u32) -> Seq<CallView> {
    let k = call_slot(calls, index);
    if k < calls.len() && calls[k].index == index {
        calls
    } else {
        calls.insert(
            k,
            CallView { index, id: None, name: None, arguments: Seq::empty() },
        )
    }
}

/// The later of two optional texts that is there.
pub open spec fn latest(new: Option<Seq<char>>, old: Option<Seq<char>>) -> Option<Seq<char>> {
    match new {
        Some(_) => new,
        None => old,
    }
}

/// The calls after a piece of the call at `index`: its name and identifier are
/// updated, and its arguments extended, where they stay within `limit`.
pub open spec fn call_extended(
    calls: Seq<CallView>,
    index: u32,
    id: Option<Seq<char>>,
    name: Option<Seq<char>>,
    arguments: Seq<char>,
    limit: nat,
) -> (Seq<CallView>, bool) {
    let all = with_call(calls, index);
    let k = call_slot(calls, index);
    let old = all[k];
    let fits = text::utf8_len(old.arguments) + text::utf8_len(arguments) <= limit;
    (
        all.update(
            k,
            CallView {
                index: old.index,
                id: latest(id, old.id),
                name: latest(name, old.name),
                arguments: if fits {
                    old.arguments + arguments
                } else {
                    old.arguments
                },
            },
        ),
        fits,
    )
}

/// What an event adds to an answer, and whether it keeps to the budget.
pub open spec fn buffered(b: BufferView, event: model::EventView, limit: nat) -> (BufferView, bool) {
    match event {
        model::EventView::TextDelta(t) => (
            BufferView {
                text: bounded::extended(b.text, t, limit),
                truncated: b.truncated || bounded::overflows(b.text, t, limit),
                ..b
            },
            true,
        ),
        model::EventView::ReasoningDelta(t) => (
            BufferView {
                reasoning: bounded::extended(b.reasoning, t, limit),
                truncated: b.truncated || bounded::overflows(b.reasoning, t, limit),
                ..b
            },
            true,
        ),
        model::EventView::ToolCallDelta(index, id, name, arguments) => {
            let (calls, fits) = call_extended(b.calls, index, id, name, arguments, limit);
            (BufferView { calls, ..b }, fits)
        },
        _ => (b, true),
    }
}

proof fn lemma_call_slot(calls: Seq<CallView>, index: u32)
    ensures
        0 <= call_slot(calls, index) <= calls.len(),
        forall|j: int| 0 <= j < call_slot(calls, index) ==> (#[trigger] calls[j]).index < index,
        call_slot(calls, index) < calls.len() ==> calls[call_slot(calls, index)].index >= index,
    decreases calls.len(),
{
    if calls.len() > 0 && calls[0].index < index {
        let rest = calls.drop_first();
        lemma_call_slot(rest, index);
        assert forall|j: int| 0 <= j < call_slot(calls, index) implies (
        #[trigger] calls[j]).index < index by {
            if j > 0 {
                assert(rest[j - 1] == calls[j]);
            }
        }
    }
}

fn find_slot(calls: &Vec<PendingCall>, index: u32) -> (k: usize)
    ensures
        k == call_slot(call_views(calls@), index),
        k <= calls@.len(),
{
    let ghost all = call_views(calls@);
    let mut k: usize = 0;
    proof {
        assert(all.skip(0) =~= all);
    }
    while k < calls.len() && calls[k].index < index
        invariant
            k <= calls@.len(),
            all == call_views(calls@),
            call_slot(all, index) == k + call_slot(all.skip(k as int), index),
        decreases calls@.len() - k,
    {
        proof {
            assert(all.skip(k as int)[0] == calls@[k as int]@);
            assert(all.skip(k as int).drop_first() =~= all.skip(k + 1));
        }
        k += 1;
    }
    proof {
        if k < calls@.len() {
            assert(all.skip(k as int)[0] == calls@[k as int]@);
        }
    }
    k
}

/// The parts of a finished answer that call tools, or what is wrong with the
/// first bad call.
pub open spec fn call_parts(calls: Seq<CallView>) -> Result<Seq<model::PartView>, Seq<char>>
    decreases calls.len(),
{
    if calls.len() == 0 {
        Ok(Seq::empty())
    } else {
        match call_parts(calls.drop_last()) {
            Err(m) => Err(m),
            Ok(earlier) => {
                let c = calls.last();
                match (c.id, c.name) {
                    (None, _) => Err("subagent tool call has no id"@),
                    (Some(_), None) => Err("subagent tool call has no name"@),
                    (Some(id), Some(name)) => match json::json_parse(
                        if c.arguments.len() == 0 {
                            "{}"@
                        } else {
                            c.arguments
                        },
                    ) {
                        Err(m) => Err(
                            "invalid arguments for subagent tool "@ + name + ": "@ + m,
                        ),
                        Ok(arguments) => Ok(
                            earlier.push(
                                model::PartView {
                                    content: Some(model::ContentView::ToolCall(id, name, arguments)),
                                    provider_data: None,
                                },
                            ),
                        ),
                    },
                }
            },
        }
    }
}

/// The parts of a finished answer.
pub open spec fn answer_parts(b: BufferView) -> Result<Seq<model::PartView>, Seq<char>> {
    let reasoning = if b.reasoning.len() == 0 {
        Seq::empty()
    } else {
        seq![
            model::PartView {
                content: Some(model::ContentView::Reasoning(b.reasoning)),
                provider_data: None,
            },
        ]
    };
    let spoken = if b.text.len() == 0 {
        Seq::empty()
    } else {
        seq![
            model::PartView {
                content: Some(model::ContentView::Text(b.text)),
                provider_data: None,
            },
        ]
    };
    match call_parts(b.calls) {
        Err(m) => Err(m),
        Ok(calls) => Ok(reasoning + spoken + calls),
    }
}

/// An answer that is complete.
pub struct FinishedAnswer {
    pub parts: Vec<MessagePart>,
    /// The identifiers and names of the calls.
    pub calls: Vec<(String, String)>,
    pub text: String,
    pub truncated: bool,
}

/// The identifiers and names of calls.
pub open spec fn call_names(calls: Seq<CallView>) -> Seq<(Seq<char>, Seq<char>)> {
    calls.map_values(|c: CallView| (c.id->0, c.name->0))
}

proof fn lemma_call_parts_err(calls: Seq<CallView>, n: int)
    requires
        0 <= n <= calls.len(),
        call_parts(calls.take(n)) is Err,
    ensures
        call_parts(calls) == call_parts(calls.take(n)),
    decreases calls.len() - n,
{
    if n < calls.len() {
        assert(calls.take(n + 1).drop_last() =~= calls.take(n));
        lemma_call_parts_err(calls, n + 1);
    } else {
        assert(calls.take(n) =~= calls);
    }
}

impl AssistantBuffer {
    pub fn new() -> (r: Self)
        ensures
            r@ == (BufferView {
                text: Seq::empty(),
                reasoning: Seq::empty(),
                calls: Seq::empty(),
                truncated: false,
            }),
    {
        let r = AssistantBuffer {
            text: String::new(),
            reasoning: String::new(),
            calls: Vec::new(),
            truncated: false,
        };
        proof {
            assert(r@.calls =~= Seq::empty());
        }
        r
    }

    fn push_call(
        &mut self,
        index: u32,
        id: Option<String>,
        name: Option<String>,
        arguments: &str,
        limit: usize,
    ) -> (fits: bool)
        ensures
            ({
                let wanted = call_extended(
                    old(self)@.calls,
                    index,
                    text::opt_text(id),
                    text::opt_text(name),
                    arguments@,
                    limit as nat,
                );
                &&& final(self)@ == (BufferView { calls: wanted.0, ..old(self)@ })
                &&& fits == wanted.1
            }),
    {
        let ghost start = call_views(self.calls@);
        let k: usize = find_slot(&self.calls, index);
        let found = k < self.calls.len() && self.calls[k].index == index;
        proof {
            if k < self.calls@.len() {
                assert(start[k as int] == self.calls@[k as int]@);
            }
        }
        if !found {
            self.calls.insert(
                k,
                PendingCall { index, id: None, name: None, arguments: String::new() },
            );
        }
        let ghost all = with_call(start, index);
        proof {
            assert(call_views(self.calls@) =~= all);
            assert(all[k as int] == self.calls@[k as int]@);
        }
        let ghost slot = self.calls@[k as int]@;
        if id.is_some() {
            self.calls[k].id = id;
        }
        if name.is_some() {
            self.calls[k].name = name;
        }
        let used: usize = text::byte_len(self.calls[k].arguments.as_str());
        let more: usize = text::byte_len(arguments);
        let fits = used <= limit && more <= limit - used;
        if fits {
            self.calls[k].arguments.push_str(arguments);
        }
        proof {
            let wanted = call_extended(
                start,
                index,
                text::opt_text(id),
                text::opt_text(name),
                arguments@,
                limit as nat,
            );
            assert(call_views(self.calls@) =~= wanted.0);
        }
        fits
    }

    /// Takes in one event of the provider.
    pub fn push(&mut self, event: ProviderEvent, limit: usize) -> (r: model::Result<()>)
        ensures
            final(self)@ == buffered(old(self)@, event@, limit as nat).0,
            r is Ok == buffered(old(self)@, event@, limit as nat).1,
            r matches Err(e) ==> e@ == model::ErrorView::Provider(
                "subagent tool arguments exceed output budget"@,
            ),
    {
        match event {
            ProviderEvent::TextDelta { text } => bounded::append_bounded(
                &mut self.text,
                text.as_str(),
                limit,
                &mut self.truncated,
            ),
            ProviderEvent::ReasoningDelta { text } => bounded::append_bounded(
                &mut self.reasoning,
                text.as_str(),
                limit,
                &mut self.truncated,
            ),
            ProviderEvent::ToolCallDelta { index, id, name, arguments } => {
                if !self.push_call(index, id, name, arguments.as_str(), limit) {
                    return Err(
                        Error::Provider(
                            text::owned("subagent tool arguments exceed output budget"),
                        ),
                    );
                }
            },
            _ => {},
        }
        Ok(())
    }

    /// Completes the answer: its parts and the tools that it calls.
    pub fn finish(self) -> (r: model::Result<FinishedAnswer>)
        ensures
            match answer_parts(self@) {
                Err(m) => r is Err && r->Err_0@ == model::ErrorView::Provider(m),
                Ok(parts) => {
                    &&& r is Ok
                    &&& model::part_views(r->Ok_0.parts@) == parts
                    &&& model::pair_views(r->Ok_0.calls@) == call_names(self@.calls)
                    &&& r->Ok_0.text == self.text
                    &&& r->Ok_0.truncated == self.truncated
                },
            },
    {
        let ghost all = self@.calls;
        let mut parts: Vec<MessagePart> = Vec::new();
        let mut calls: Vec<(String, String)> = Vec::new();
        proof {
            assert(model::part_views(parts@) =~= Seq::empty());
        }
        if !self.reasoning.as_str().is_empty() {
            parts.push(MessagePart::reasoning(self.reasoning.as_str()));
        }
        if !self.text.as_str().is_empty() {
            parts.push(MessagePart::text(self.text.as_str()));
        }
        let ghost head = model::part_views(parts@);
        let ghost reasoning = if self@.reasoning.len() == 0 {
            Seq::empty()
        } else {
            seq![
                model::PartView {
                    content: Some(model::ContentView::Reasoning(self@.reasoning)),
                    provider_data: None,
                },
            ]
        };
        let ghost spoken = if self@.text.len() == 0 {
            Seq::empty()
        } else {
            seq![
                model::PartView {
                    content: Some(model::ContentView::Text(self@.text)),
                    provider_data: None,
                },
            ]
        };
        proof {
            assert(head =~= reasoning + spoken);
            assert(all.take(0) =~= Seq::empty());
            assert(head + Seq::<model::PartView>::empty() =~= head);
            assert(model::pair_views(calls@) =~= call_names(all.take(0)));
        }
        let mut i: usize = 0;
        while i < self.calls.len()
            invariant
                i <= self.calls@.len(),
                all == call_views(self.calls@),
                head == reasoning + spoken,
                call_parts(all.take(i as int)) is Ok,
                model::part_views(parts@) == head + call_parts(all.take(i as int))->Ok_0,
                model::pair_views(calls@) == call_names(all.take(i as int)),
                answer_parts(self@) == (match call_parts(all) {
                    Err(m) => Err::<Seq<model::PartView>, Seq<char>>(m),
                    Ok(c) => Ok::<Seq<model::PartView>, Seq<char>>(reasoning + spoken + c),
                }),
            decreases self.calls@.len() - i,
        {
            let call = &self.calls[i];
            let ghost before = model::part_views(parts@);
            let ghost named = model::pair_views(calls@);
            proof {
                assert(all.take(i + 1).drop_last() =~= all.take(i as int));
                assert(all.take(i + 1).last() == call@);
                if call_parts(all.take(i + 1)) is Err {
                    lemma_call_parts_err(all, i + 1);
                }
            }
            let id = match &call.id {
                Some(id) => id,
                None => return Err(Error::Provider(text::owned("subagent tool call has no id"))),
            };
            let name = match &call.name {
                Some(name) => name,
                None => return Err(Error::Provider(text::owned("subagent tool call has no name"))),
            };
            let source = if call.arguments.as_str().is_empty() {
                "{}"
            } else {
                call.arguments.as_str()
            };
            let arguments = match json::parse_json(source) {
                Ok(v) => v,
                Err(m) => return Err(
                    Error::Provider(
                        text::cat4(
                            "invalid arguments for subagent tool ",
                            name.as_str(),
                            ": ",
                            m.as_str(),
                        ),
                    ),
                ),
            };
            let part = MessagePart::tool_call(id.as_str(), name.as_str(), arguments);
            let ghost shown = part@;
            parts.push(part);
            calls.push((text::owned(id.as_str()), text::owned(name.as_str())));
            proof {
                assert(model::part_views(parts@) =~= before.push(shown));
                assert(model::part_views(parts@) =~= head + call_parts(all.take(i + 1))->Ok_0);
                assert(model::pair_views(calls@) =~= named.push((id@, name@)));
                assert(call_names(all.take(i + 1)) =~= call_names(all.take(i as int)).push(
                    (id@, name@),
                ));
            }
            i += 1;
        }
        proof {
            assert(all.take(i as int) =~= all);
        }
        Ok(
            FinishedAnswer {
                parts,
                calls,
                text: self.text,
                truncated: self.truncated,
            },
        )
    }
}

// ---------------------------------------------------------------------------
// The run of a subagent
// ---------------------------------------------------------------------------

/// The tool of the plugin.
pub struct SubagentTool {
    pub config: SubagentConfig,
}

/// Makes the plugin, where its configuration is usable.
pub fn subagents_plugin(config: SubagentConfig) -> (r: model::Result<SubagentTool>)
    ensures
        r is Ok == is_valid(config),
        r matches Ok(t) ==> t.config == config,
        r matches Err(e) ==> e@ == model::ErrorView::Plugin("invalid subagent configuration"@),
{
    match validate_config(&config) {
        Ok(()) => Ok(SubagentTool { config }),
        Err(e) => Err(e),
    }
}

/// How the input of the tool is described.
pub open spec fn input_schema() -> json::JsonView {
    json::JsonView::Object(
        seq![
            ("type"@, json::JsonView::Text("object"@)),
            ("additionalProperties"@, json::JsonView::Bool(false)),
            (
                "properties"@,
                json::JsonView::Object(
                    seq![
                        (
                            "prompt"@,
                            json::JsonView::Object(
                                seq![
                                    ("type"@, json::JsonView::Text("string"@)),
                                    ("minLength"@, json::JsonView::Number(json::NumberView::Unsigned(1))),
                                ],
                            ),
                        ),
                        (
                            "system"@,
                            json::JsonView::Object(
                                seq![("type"@, json::JsonView::Text("string"@))],
                            ),
                        ),
                        (
                            "depth"@,
                            json::JsonView::Object(
                                seq![
                                    ("type"@, json::JsonView::Text("integer"@)),
                                    ("minimum"@, json::JsonView::Number(json::NumberView::Unsigned(0))),
                                    (
                                        "description"@,
                                        json::JsonView::Text(
                                            "Nesting depth; direct children use zero."@,
                                        ),
                                    ),
                                ],
                            ),
                        ),
                    ],
                ),
            ),
            ("required"@, json::JsonView::Array(seq![json::JsonView::Text("prompt"@)])),
        ],
    )
}

/// The first message of a subagent in `root`.
pub open spec fn introduction(root: Seq<char>) -> Seq<char> {
    "You are an isolated read-only subagent. Working directory: "@ + root
        + ". No tools are available."@
}

/// What a subagent knows of the conversation: all of it but the answer that is
/// calling the subagent.
pub open spec fn inherited(history: Seq<model::MessageView>) -> Seq<model::MessageView> {
    if history.len() > 0 && history.last().role == Role::Assistant {
        history.drop_last()
    } else {
        history
    }
}

/// The conversation with which a subagent starts.
pub open spec fn opening(
    root: Seq<char>,
    system: Option<Seq<char>>,
    history: Seq<model::MessageView>,
    prompt: Seq<char>,
) -> Seq<(Role, Seq<model::PartView>)> {
    let extra = match system {
        Some(s) => if s.len() == 0 {
            Seq::empty()
        } else {
            seq![model::one_text(Role::System, s)]
        },
        None => Seq::empty(),
    };
    seq![model::one_text(Role::System, introduction(root))] + extra + model::all_said(
        inherited(history),
    ) + seq![model::one_text(Role::User, prompt)]
}

/// Why a subagent may not run the tool `name`.
pub open spec fn denial(allowlist: Seq<Seq<char>>, name: Seq<char>) -> Seq<char> {
    if allowlist.contains(name) {
        "tool "@ + name + " cannot run: core ToolRegistry is unavailable to subagents"@
    } else {
        "tool "@ + name + " is not allowed for this subagent"@
    }
}

/// The message that turns down a call.
pub open spec fn refusal(allowlist: Seq<Seq<char>>, call: (Seq<char>, Seq<char>)) -> (
    Role,
    Seq<model::PartView>,
) {
    (
        Role::Tool,
        seq![
            model::PartView {
                content: Some(
                    model::ContentView::ToolResult(
                        call.0,
                        call.1,
                        model::OutputView::Failure(denial(allowlist, call.1)),
                    ),
                ),
                provider_data: None,
            },
        ],
    )
}

/// The messages that turn down `calls`.
pub open spec fn refusals(
    allowlist: Seq<Seq<char>>,
    calls: Seq<(Seq<char>, Seq<char>)>,
) -> Seq<(Role, Seq<model::PartView>)> {
    calls.map_values(|c: (Seq<char>, Seq<char>)| refusal(allowlist, c))
}

/// A subagent at work.
pub struct SubagentRun {
    pub messages: Vec<Message>,
    pub output: SubagentOutput,
}

/// How a round ends, by the tools that it calls: `Again` tells how many calls there
/// have been by then.
pub ghost enum RoundEnd {
    Done,
    TooManyCalls,
    Again(nat),
}

/// How a round with so many calls ends, where `used` calls came before it.
pub open spec fn round_end(max_calls: nat, used: nat, calls: nat) -> RoundEnd {
    if calls == 0 {
        RoundEnd::Done
    } else if used + calls > max_calls {
        RoundEnd::TooManyCalls
    } else {
        RoundEnd::Again(used + calls)
    }
}

/// How a run ends.
pub ghost enum RunEnd {
    /// It goes on.
    Running,
    Done,
    TooManyCalls,
    TooManyRounds,
}

/// How a run ends, by the number of calls in each of its answers.
pub open spec fn run_end(
    max_rounds: nat,
    max_calls: nat,
    rounds: nat,
    used: nat,
    answers: Seq<nat>,
) -> RunEnd
    decreases answers.len(),
{
    if rounds >= max_rounds {
        RunEnd::TooManyRounds
    } else if answers.len() == 0 {
        RunEnd::Running
    } else {
        match round_end(max_calls, used, answers[0]) {
            RoundEnd::Done => RunEnd::Done,
            RoundEnd::TooManyCalls => RunEnd::TooManyCalls,
            RoundEnd::Again(more) => run_end(
                max_rounds,
                max_calls,
                rounds + 1,
                more,
                answers.drop_first(),
            ),
        }
    }
}

/// How many calls there are in all answers.
pub open spec fn total_calls(answers: Seq<nat>) -> nat
    decreases answers.len(),
{
    if answers.len() == 0 {
        0
    } else {
        answers[0] + total_calls(answers.drop_first())
    }
}

/// A run whose answers all call tools never succeeds: it ends in an error once there
/// are more calls than it may have, or as many rounds.
pub proof fn law_endless_calls_are_an_error(
    max_rounds: nat,
    max_calls: nat,
    rounds: nat,
    used: nat,
    answers: Seq<nat>,
)
    requires
        rounds <= max_rounds,
        used <= max_calls,
        forall|i: int| 0 <= i < answers.len() ==> #[trigger] answers[i] > 0,
    ensures
        !(run_end(max_rounds, max_calls, rounds, used, answers) is Done),
        rounds + answers.len() >= max_rounds ==> !(run_end(
            max_rounds,
            max_calls,
            rounds,
            used,
            answers,
        ) is Running),
        used + total_calls(answers) > max_calls && rounds + answers.len() <= max_rounds ==> run_end(
            max_rounds,
            max_calls,
            rounds,
            used,
            answers,
        ) is TooManyCalls,
        used + total_calls(answers) <= max_calls && rounds + answers.len() >= max_rounds
            ==> run_end(max_rounds, max_calls, rounds, used, answers) is TooManyRounds,
    decreases answers.len(),
{
    if answers.len() > 0 {
        let rest = answers.drop_first();
        assert forall|i: int| 0 <= i < rest.len() implies #[trigger] rest[i] > 0 by {
            assert(rest[i] == answers[i + 1]);
        }
        assert(answers[0] > 0);
        if rounds < max_rounds && used + answers[0] <= max_calls {
            law_endless_calls_are_an_error(
                max_rounds,
                max_calls,
                rounds + 1,
                used + answers[0],
                rest,
            );
        }
    }
}

/// Whether a run keeps to its bounds on output, rounds and tool calls.
pub open spec fn within_bounds(config: SubagentConfig, output: SubagentOutput) -> bool {
    &&& text::utf8_len(output.text@) <= config.max_output_bytes
    &&& output.rounds <= config.max_rounds
    &&& output.tool_calls <= config.max_tool_calls
}

/// What follows a round.
#[derive(Clone, Copy, Debug, PartialEq, Eq, Structural)]
pub enum Round {
    /// The provider called tools, and is asked again.
    Again,
    /// The answer is complete.
    Done,
}

fn refuse(messages: &mut Vec<Message>, allowlist: &Vec<String>, calls: &Vec<(String, String)>)
    ensures
        model::all_said(model::message_views(final(messages)@)) == model::all_said(
            model::message_views(old(messages)@),
        ) + refusals(text::texts(allowlist@), model::pair_views(calls@)),
{
    let ghost start = model::all_said(model::message_views(messages@));
    let ghost all = refusals(text::texts(allowlist@), model::pair_views(calls@));
    let mut i: usize = 0;
    proof {
        assert(start + all.take(0) =~= start);
    }
    while i < calls.len()
        invariant
            i <= calls@.len(),
            all == refusals(text::texts(allowlist@), model::pair_views(calls@)),
            model::all_said(model::message_views(messages@)) == start + all.take(i as int),
        decreases calls@.len() - i,
    {
        let id = calls[i].0.as_str();
        let name = calls[i].1.as_str();
        let ghost before = model::message_views(messages@);
        let reason = if text::contains_text(allowlist.as_slice(), name) {
            text::cat3(
                "tool ",
                name,
                " cannot run: core ToolRegistry is unavailable to subagents",
            )
        } else {
            text::cat3("tool ", name, " is not allowed for this subagent")
        };
        let mut content: Vec<MessagePart> = Vec::new();
        content.push(MessagePart::tool_result(id, name, ToolOutput::Failure { content: reason }));
        let m = Message {
            id: crate::ids::MessageId(crate::ids::fresh()),
            role: Role::Tool,
            content,
            mode: String::new(),
        };
        let ghost shown = m@;
        proof {
            let wanted = refusal(text::texts(allowlist@), (id@, name@));
            assert(shown.content =~= wanted.1);
            assert(all[i as int] == wanted);
        }
        model::push_message(messages, m);
        proof {
            assert(model::all_said(before.push(shown)) =~= model::all_said(before).push(
                model::said(shown),
            ));
            assert(start + all.take(i + 1) =~= (start + all.take(i as int)).push(all[i as int]));
        }
        i += 1;
    }
    proof {
        assert(all.take(i as int) =~= all);
    }
}

impl SubagentTool {
    /// What a provider is told of the tool.
    pub fn definition(&self) -> (r: ToolDefinition)
        ensures
            r.name@ == TOOL_NAME@,
            r.description@ == DESCRIPTION@,
            r.schema@ == input_schema(),
            r.freeform is None,
    {
        let prompt = ObjectBuilder::new().with("type", Json::text("string")).with(
            "minLength",
            Json::Number(json::JsonNumber::Unsigned(1)),
        );
        assert(prompt@ =~= seq![
            ("type"@, json::JsonView::Text("string"@)),
            ("minLength"@, json::JsonView::Number(json::NumberView::Unsigned(1))),
        ]);
        let system = ObjectBuilder::new().with("type", Json::text("string"));
        assert(system@ =~= seq![("type"@, json::JsonView::Text("string"@))]);
        let depth = ObjectBuilder::new().with("type", Json::text("integer")).with(
            "minimum",
            Json::Number(json::JsonNumber::Unsigned(0)),
        ).with("description", Json::text("Nesting depth; direct children use zero."));
        assert(depth@ =~= seq![
            ("type"@, json::JsonView::Text("integer"@)),
            ("minimum"@, json::JsonView::Number(json::NumberView::Unsigned(0))),
            ("description"@, json::JsonView::Text("Nesting depth; direct children use zero."@)),
        ]);
        let properties = ObjectBuilder::new().with("prompt", prompt.done()).with(
            "system",
            system.done(),
        ).with("depth", depth.done());
        let ghost shown = properties@;
        let required = json::text_array(&["prompt"]);
        let schema = ObjectBuilder::new().with("type", Json::text("object")).with(
            "additionalProperties",
            Json::Bool(false),
        ).with("properties", properties.done()).with("required", required);
        proof {
            let wanted = input_schema()->Object_0;
            assert(shown =~= wanted[2].1->Object_0);
            assert(required@->Array_0 =~= seq![json::JsonView::Text("prompt"@)]);
            assert(schema@ =~= wanted);
        }
        ToolDefinition {
            name: text::owned(TOOL_NAME),
            description: text::owned(DESCRIPTION),
            schema: schema.done(),
            freeform: None,
        }
    }

    /// Checks a request for a subagent.
    pub fn check(&self, input: &SubagentInput) -> (r: model::Result<()>)
        ensures
            if input.prompt@.len() == 0 {
                r is Err && r->Err_0@ == model::ErrorView::Tool("subagent prompt may not be empty"@)
            } else if input.depth >= self.config.max_depth {
                r is Err && r->Err_0@ == model::ErrorView::Tool(
                    "subagent depth "@ + text::decimal(input.depth as nat)
                        + " reaches configured maximum "@ + text::decimal(
                        self.config.max_depth as nat,
                    ),
                )
            } else {
                r is Ok
            },
    {
        if input.prompt.as_str().is_empty() {
            return Err(Error::Tool(text::owned("subagent prompt may not be empty")));
        }
        if input.depth >= self.config.max_depth {
            return Err(
                Error::Tool(
                    text::cat4(
                        "subagent depth ",
                        text::usize_text(input.depth).as_str(),
                        " reaches configured maximum ",
                        text::usize_text(self.config.max_depth).as_str(),
                    ),
                ),
            );
        }
        Ok(())
    }

    /// The model that answers: the configured one, or that of the current turn.
    /// The provider of the turn has to be there.
    pub fn choose_model(&self, provider: &str, registered: bool, current: &str) -> (r: model::Result<
        String,
    >)
        ensures
            ({
                let chosen = match text::opt_text(self.config.model) {
                    Some(m) => m,
                    None => current@,
                };
                if !registered {
                    r is Err && r->Err_0@ == model::ErrorView::Provider(
                        "current provider "@ + provider@ + " is not registered"@,
                    )
                } else if text::is_blank(chosen) {
                    r is Err && r->Err_0@ == model::ErrorView::Provider(
                        "subagent model may not be empty"@,
                    )
                } else {
                    r is Ok && r->Ok_0@ == chosen
                }
            }),
    {
        if !registered {
            return Err(
                Error::Provider(text::cat3("current provider ", provider, " is not registered")),
            );
        }
        let chosen = match &self.config.model {
            Some(m) => text::owned(m.as_str()),
            None => text::owned(current),
        };
        if text::blank(chosen.as_str()) {
            return Err(Error::Provider(text::owned("subagent model may not be empty")));
        }
        Ok(chosen)
    }

    /// Sets up the conversation of a subagent.
    pub fn begin(&self, root: &str, input: &SubagentInput, history: &[Message]) -> (r: SubagentRun)
        ensures
            model::all_said(model::message_views(r.messages@)) == opening(
                root@,
                text::opt_text(input.system),
                model::message_views(history@),
                input.prompt@,
            ),
            r.output.text@.len() == 0,
            r.output.rounds == 0,
            r.output.tool_calls == 0,
            !r.output.truncated,
            within_bounds(self.config, r.output),
    {
        let ghost known = inherited(model::message_views(history@));
        let ghost extra = match text::opt_text(input.system) {
            Some(s) => if s.len() == 0 {
                Seq::empty()
            } else {
                seq![model::one_text(Role::System, s)]
            },
            None => Seq::empty(),
        };
        let mut messages: Vec<Message> = Vec::new();
        proof {
            assert(model::message_views(messages@) =~= Seq::empty());
        }
        let intro = text::cat3(
            "You are an isolated read-only subagent. Working directory: ",
            root,
            ". No tools are available.",
        );
        model::push_message(&mut messages, Message::text(Role::System, intro.as_str(), ""));
        if let Some(system) = &input.system {
            if !system.as_str().is_empty() {
                model::push_message(&mut messages, Message::text(Role::System, system.as_str(), ""));
            }
        }
        let ghost head = model::message_views(messages@);
        proof {
            assert(model::all_said(head) =~= seq![
                model::one_text(Role::System, introduction(root@)),
            ] + extra);
        }
        let mut kept: usize = history.len();
        if kept > 0 {
            proof {
                assert(model::message_views(history@).last() == history@[kept - 1]@);
            }
            if matches!(history[kept - 1].role, Role::Assistant) {
                kept = kept - 1;
            }
        }
        model::push_messages(&mut messages, vstd::slice::slice_subrange(history, 0, kept));
        proof {
            assert(model::message_views(history@.subrange(0, kept as int)) =~= known);
        }
        let ghost middle = model::message_views(messages@);
        let last = Message::text(Role::User, input.prompt.as_str(), "");
        let ghost shown = last@;
        model::push_message(&mut messages, last);
        proof {
            assert(model::all_said(middle) =~= model::all_said(head) + model::all_said(known));
            assert(model::all_said(middle.push(shown)) =~= model::all_said(middle) + seq![
                model::one_text(Role::User, input.prompt@),
            ]);
        }
        SubagentRun {
            messages,
            output: SubagentOutput {
                text: String::new(),
                rounds: 0,
                tool_calls: 0,
                truncated: false,
            },
        }
    }

    /// Starts another round, where there is one left.
    pub fn next_round(&self, run: &mut SubagentRun) -> (r: model::Result<()>)
        ensures
            final(run).messages == old(run).messages,
            final(run).output.text == old(run).output.text,
            final(run).output.tool_calls == old(run).output.tool_calls,
            final(run).output.truncated == old(run).output.truncated,
            if old(run).output.rounds < self.config.max_rounds {
                r is Ok && final(run).output.rounds == old(run).output.rounds + 1
            } else {
                &&& r is Err
                &&& r->Err_0@ == model::ErrorView::Provider(
                    "subagent tool loop exceeded "@ + text::decimal(self.config.max_rounds as nat)
                        + " provider rounds"@,
                )
                &&& final(run).output.rounds == old(run).output.rounds
            },
            within_bounds(self.config, old(run).output) ==> within_bounds(
                self.config,
                final(run).output,
            ),
    {
        if run.output.rounds < self.config.max_rounds {
            run.output.rounds = run.output.rounds + 1;
            return Ok(());
        }
        Err(
            Error::Provider(
                text::cat3(
                    "subagent tool loop exceeded ",
                    text::usize_text(self.config.max_rounds).as_str(),
                    " provider rounds",
                ),
            ),
        )
    }

    /// The request of a round: the conversation of the subagent, and no tools.
    pub fn request(&self, run: &SubagentRun, model_name: &str) -> (r: ProviderRequest)
        ensures
            r.mode == ProviderMode::Subagent,
            r.model@ == model_name@,
            model::stands_alone(r),
            model::message_views(r.messages@) == model::message_views(run.messages@),
    {
        let mut messages: Vec<Message> = Vec::new();
        proof {
            assert(model::message_views(messages@) =~= Seq::empty());
        }
        model::push_messages(&mut messages, run.messages.as_slice());
        proof {
            assert(model::message_views(messages@) =~= model::message_views(run.messages@));
        }
        ProviderRequest::alone(ProviderMode::Subagent, model_name, messages)
    }

    /// Takes in the answer of a round. Without calls the run is done; otherwise
    /// each call is turned down, and the provider asked again, as long as the
    /// run keeps to its number of calls.
    pub fn complete_round(&self, run: &mut SubagentRun, answer: FinishedAnswer) -> (r: model::Result<
        Round,
    >)
        ensures
            ({
                let limit = self.config.max_output_bytes as nat;
                let calls = model::pair_views(answer.calls@);
                let before = model::all_said(model::message_views(old(run).messages@));
                let after = model::all_said(model::message_views(final(run).messages@));
                let answered = before.push((Role::Assistant, model::part_views(answer.parts@)));
                &&& final(run).output.text@ == bounded::extended(
                    old(run).output.text@,
                    answer.text@,
                    limit,
                )
                &&& final(run).output.truncated == (old(run).output.truncated || bounded::overflows(
                    old(run).output.text@,
                    answer.text@,
                    limit,
                ) || answer.truncated)
                &&& final(run).output.rounds == old(run).output.rounds
                &&& match round_end(
                    self.config.max_tool_calls as nat,
                    old(run).output.tool_calls as nat,
                    calls.len(),
                ) {
                    RoundEnd::Done => {
                        &&& r == Ok::<Round, Error>(Round::Done)
                        &&& after == answered
                        &&& final(run).output.tool_calls == old(run).output.tool_calls
                    },
                    RoundEnd::TooManyCalls => {
                        &&& r is Err
                        &&& r->Err_0@ == model::ErrorView::Provider(
                            "subagent exceeded "@ + text::decimal(
                                self.config.max_tool_calls as nat,
                            ) + " tool calls"@,
                        )
                        &&& after == answered
                        &&& final(run).output.tool_calls == old(run).output.tool_calls
                    },
                    RoundEnd::Again(used) => {
                        &&& r == Ok::<Round, Error>(Round::Again)
                        &&& after == answered + refusals(
                            text::texts(self.config.tool_allowlist@),
                            calls,
                        )
                        &&& final(run).output.tool_calls == used
                    },
                }
            }),
            within_bounds(self.config, old(run).output) ==> within_bounds(
                self.config,
                final(run).output,
            ),
    {
        proof {
            if within_bounds(self.config, run.output) {
                bounded::law_bounded_text_keeps_its_limit(
                    run.output.text@,
                    answer.text@,
                    self.config.max_output_bytes as nat,
                );
            }
        }
        bounded::append_bounded(
            &mut run.output.text,
            answer.text.as_str(),
            self.config.max_output_bytes,
            &mut run.output.truncated,
        );
        if answer.truncated {
            run.output.truncated = true;
        }
        let ghost before = model::message_views(run.messages@);
        let m = Message {
            id: crate::ids::MessageId(crate::ids::fresh()),
            role: Role::Assistant,
            content: answer.parts,
            mode: String::new(),
        };
        let ghost shown = m@;
        model::push_message(&mut run.messages, m);
        proof {
            assert(model::all_said(before.push(shown)) =~= model::all_said(before).push(
                (Role::Assistant, model::part_views(answer.parts@)),
            ));
        }
        let count: usize = answer.calls.len();
        if count == 0 {
            return Ok(Round::Done);
        }
        let used = run.output.tool_calls;
        if used > self.config.max_tool_calls || count > self.config.max_tool_calls - used {
            return Err(
                Error::Provider(
                    text::cat3(
                        "subagent exceeded ",
                        text::usize_text(self.config.max_tool_calls).as_str(),
                        " tool calls",
                    ),
                ),
            );
        }
        run.output.tool_calls = used + count;
        refuse(&mut run.messages, &self.config.tool_allowlist, &answer.calls);
        Ok(Round::Again)
    }
}

/// No call of a subagent is ever answered by anything but a refusal.
pub proof fn law_every_call_is_refused(
    allowlist: Seq<Seq<char>>,
    calls: Seq<(Seq<char>, Seq<char>)>,
    i: int,
)
    requires
        0 <= i < calls.len(),
    ensures
        refusals(allowlist, calls).len() == calls.len(),
        refusals(allowlist, calls)[i].0 == Role::Tool,
        refusals(allowlist, calls)[i].1[0].content == Some(
            model::ContentView::ToolResult(
                calls[i].0,
                calls[i].1,
                model::OutputView::Failure(denial(allowlist, calls[i].1)),
            ),
        ),
{
}

/// What the plugin registers, in this order.
pub open spec fn registered() -> Seq<RegistrationView> {
    seq![(RegistrationKind::Tool, TOOL_ID@, 0int)]
}

impl SubagentTool {
    /// What the plugin registers, in this order.
    pub fn registrations(&self) -> (r: Vec<Registration>)
        ensures
            registration::registration_views(r@) == registered(),
    {
        let mut list: Vec<Registration> = Vec::new();
        proof {
            assert(registration::registration_views(list@) =~= Seq::empty());
        }
        registration::register(&mut list, RegistrationKind::Tool, TOOL_ID, 0);
        proof {
            assert(registration::registration_views(list@) =~= registered());
        }
        list
    }
}

/// Pieces of a call are put together under its place, in the order in which they arrive;
/// the other calls stay as they are. Where the pieces grow too long, what was there stays.
pub proof fn law_pieces_of_calls_are_put_together(
    before: Seq<CallView>,
    call: CallView,
    after: Seq<CallView>,
    id: Option<Seq<char>>,
    name: Option<Seq<char>>,
    piece: Seq<char>,
    limit: nat,
)
    requires
        forall|i: int| 0 <= i < before.len() ==> (#[trigger] before[i]).index < call.index,
        forall|i: int| 0 <= i < after.len() ==> (#[trigger] after[i]).index > call.index,
    ensures
        ({
            let told = CallView {
                index: call.index,
                id: if id is Some {
                    id
                } else {
                    call.id
                },
                name: if name is Some {
                    name
                } else {
                    call.name
                },
                arguments: call.arguments,
            };
            let fits = text::utf8_len(call.arguments + piece) <= limit;
            &&& call_extended(before.push(call) + after, call.index, id, name, piece, limit) == (
                before.push(
                    if fits {
                        CallView { arguments: call.arguments + piece, ..told }
                    } else {
                        told
                    },
                ) + after,
                fits,
            )
            &&& text::utf8_len(piece) <= limit ==> call_extended(
                before + after,
                call.index,
                id,
                name,
                piece,
                limit,
            ) == (
                before.push(CallView { index: call.index, id, name, arguments: piece }) + after,
                true,
            )
        }),
{
    let all = before.push(call) + after;
    let k = before.len() as int;
    lemma_slot_is(all, call.index, k);
    lemma_slot_is(before + after, call.index, k);
    text::lemma_utf8_len_concat(call.arguments, piece);
    assert(all[k] == call);
    let first = call_extended(all, call.index, id, name, piece, limit).0;
    let told = CallView { id: latest(id, call.id), name: latest(name, call.name), ..call };
    let fits = text::utf8_len(call.arguments + piece) <= limit;
    assert(first =~= before.push(
        if fits {
            CallView { arguments: call.arguments + piece, ..told }
        } else {
            told
        },
    ) + after);
    let fresh = CallView {
        index: call.index,
        id: None,
        name: None,
        arguments: Seq::<char>::empty(),
    };
    if k < (before + after).len() {
        assert((before + after)[k] == after[0]);
    }
    assert(with_call(before + after, call.index) =~= before.push(fresh) + after);
    assert((before.push(fresh) + after)[k] == fresh);
    assert(Seq::<char>::empty() + piece =~= piece);
    assert(text::utf8_len(Seq::<char>::empty()) == 0);
    let second = call_extended(before + after, call.index, id, name, piece, limit).0;
    if text::utf8_len(piece) <= limit {
        assert(second =~= before.push(
            CallView { index: call.index, id, name, arguments: piece },
        ) + after);
    }
}

proof fn lemma_slot_is(calls: Seq<CallView>, index: u32, k: int)
    requires
        0 <= k <= calls.len(),
        forall|i: int| 0 <= i < k ==> (#[trigger] calls[i]).index < index,
        k < calls.len() ==> calls[k].index >= index,
    ensures
        call_slot(calls, index) == k,
{
    lemma_call_slot(calls, index);
    let s = call_slot(calls, index);
    if s < k {
        assert(calls[s].index < index);
    }
    if s > k {
        assert(calls[k].index < index);
    }
}

/// What is said and what is thought are kept apart, each as it arrives, as far as there is
/// room; that something was left out is remembered.
pub proof fn law_texts_are_kept_apart(b: BufferView, t: Seq<char>, limit: nat)
    requires
        text::utf8_len(b.text) <= limit,
        text::utf8_len(b.reasoning) <= limit,
    ensures
        text::utf8_len(b.text + t) <= limit ==> buffered(b, model::EventView::TextDelta(t), limit)
            == (BufferView { text: b.text + t, ..b }, true),
        text::utf8_len(b.reasoning + t) <= limit ==> buffered(
            b,
            model::EventView::ReasoningDelta(t),
            limit,
        ) == (BufferView { reasoning: b.reasoning + t, ..b }, true),
        text::utf8_len(b.text + t) > limit ==> buffered(
            b,
            model::EventView::TextDelta(t),
            limit,
        ).0.truncated,
        text::utf8_len(b.reasoning + t) > limit ==> buffered(
            b,
            model::EventView::ReasoningDelta(t),
            limit,
        ).0.truncated,
{
    bounded::law_bounded_text_keeps_its_limit(b.text, t, limit);
    bounded::law_bounded_text_keeps_its_limit(b.reasoning, t, limit);
    text::lemma_utf8_len_concat(b.text, t);
    text::lemma_utf8_len_concat(b.reasoning, t);
}

/// An answer holds the thoughts, then what is said, then the calls in their order, each
/// with its identifier, its name and its arguments.
pub proof fn law_answers_hold_all_parts(b: BufferView, i: int)
    ensures
        answer_parts(b) matches Ok(parts) ==> {
            let thought: int = if b.reasoning.len() > 0 {
                1
            } else {
                0
            };
            let said: int = if b.text.len() > 0 {
                1
            } else {
                0
            };
            &&& parts.len() == thought + said + b.calls.len()
            &&& b.reasoning.len() > 0 ==> parts[0].content == Some(
                model::ContentView::Reasoning(b.reasoning),
            )
            &&& b.text.len() > 0 ==> parts[thought].content == Some(
                model::ContentView::Text(b.text),
            )
            &&& 0 <= i < b.calls.len() ==> {
                &&& parts[thought + said + i].content matches Some(
                    model::ContentView::ToolCall(id, name, arguments),
                )
                &&& b.calls[i].id == Some(id)
                &&& b.calls[i].name == Some(name)
                &&& b.calls[i].arguments.len() > 0 ==> json::json_parse(b.calls[i].arguments)
                    == Ok::<json::JsonView, Seq<char>>(arguments)
                &&& b.calls[i].arguments.len() == 0 ==> json::json_parse("{}"@) == Ok::<
                    json::JsonView,
                    Seq<char>,
                >(arguments)
            }
        },
{
    lemma_call_parts(b.calls, i);
}

proof fn lemma_call_parts(calls: Seq<CallView>, i: int)
    ensures
        call_parts(calls) matches Ok(parts) ==> {
            &&& parts.len() == calls.len()
            &&& 0 <= i < calls.len() ==> {
                &&& parts[i].content matches Some(model::ContentView::ToolCall(id, name, arguments))
                &&& calls[i].id == Some(id)
                &&& calls[i].name == Some(name)
                &&& json::json_parse(
                    if calls[i].arguments.len() == 0 {
                        "{}"@
                    } else {
                        calls[i].arguments
                    },
                ) == Ok::<json::JsonView, Seq<char>>(arguments)
            }
        },
    decreases calls.len(),
{
    if calls.len() > 0 {
        lemma_call_parts(calls.drop_last(), i);
    }
}

/// A subagent begins with its instructions, knows what was said before, without an answer
/// that is not finished, and is asked its question last.
pub proof fn law_subagents_begin_with_the_history(
    root: Seq<char>,
    history: Seq<model::MessageView>,
    answer: model::MessageView,
    prompt: Seq<char>,
    i: int,
)
    requires
        history.len() == 0 || history.last().role != Role::Assistant,
        answer.role == Role::Assistant,
    ensures
        ({
            let all = opening(root, None, history, prompt);
            &&& all.len() == history.len() + 2
            &&& all[0].0 == Role::System
            &&& 0 <= i < history.len() ==> all[i + 1] == (history[i].role, history[i].content)
            &&& all.last().0 == Role::User
            &&& all.last().1.len() == 1
            &&& all.last().1[0].content == Some(model::ContentView::Text(prompt))
        }),
        opening(root, None, history.push(answer), prompt) == opening(root, None, history, prompt),
{
    assert(history.push(answer).drop_last() =~= history);
}

/// A tool that is not on the list is not allowed, and one that is on it cannot run either.
pub proof fn law_tools_are_denied_with_a_reason(allowlist: Seq<Seq<char>>, name: Seq<char>)
    ensures
        !allowlist.contains(name) ==> denial(allowlist, name) == "tool "@ + name
            + " is not allowed for this subagent"@,
        allowlist.contains(name) ==> denial(allowlist, name) == "tool "@ + name
            + " cannot run: core ToolRegistry is unavailable to subagents"@,
{
}

/// A round without calls is the last; one with more calls than are left is too many, and
/// otherwise the calls are counted and another round follows.
pub proof fn law_rounds_go_on_while_calls_are_left(max_calls: nat, used: nat, calls: nat)
    requires
        used <= max_calls,
    ensures
        round_end(max_calls, used, 0) is Done,
        calls > 0 && calls <= max_calls - used ==> round_end(max_calls, used, calls)
            == RoundEnd::Again(used + calls),
        calls > 0 && calls > max_calls - used ==> round_end(max_calls, used, calls) is TooManyCalls,
{
}

} // verus!
