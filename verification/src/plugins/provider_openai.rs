//! The OpenAI Responses protocol: requests that replay a conversation, and the
//! events of a streamed answer.
use crate::bytes;
use crate::ids;
use crate::ids::{PluginId, ProviderId};
use crate::json;
use crate::json::{Json, ObjectBuilder};
use crate::model;
use crate::model::{
    Error, FinishReason, FreeformParser, Message, MessagePart, MessagePartContent, ProviderEvent, Role,
    ToolDefinition, Usage,
};
use crate::plugins::tool_write;
use crate::text;
use std::collections::BTreeMap;
use vstd::prelude::*;

verus! {

broadcast use vstd::std_specs::btree::group_btree_axioms;

// ---------------------------------------------------------------------------
// Fields of events
// ---------------------------------------------------------------------------

pub open spec fn missing_field(name: Seq<char>) -> Seq<char> {
    "OpenAI Responses event has no valid "@ + name
}

/// The number in field `name` of an event.
pub open spec fn needed_u32(event: json::JsonView, name: Seq<char>) -> Result<u32, Seq<char>> {
    match json::number_of(json::field(event, name)) {
        Some(n) => if n <= u32::MAX {
            Ok(n as u32)
        } else {
            Err(missing_field(name))
        },
        None => Err(missing_field(name)),
    }
}

/// The text in field `name` of an event.
pub open spec fn needed_text(event: json::JsonView, name: Seq<char>) -> Result<
    Seq<char>,
    Seq<char>,
> {
    match json::text_at(event, name) {
        Some(s) => Ok(s),
        None => Err(missing_field(name)),
    }
}

fn missing(name: &str) -> (r: String)
    ensures
        r@ == missing_field(name@),
{
    text::cat2("OpenAI Responses event has no valid ", name)
}

pub fn required_u32(event: &Json, name: &str) -> (r: Result<u32, String>)
    ensures
        match r {
            Ok(n) => needed_u32(event@, name@) == Ok::<u32, Seq<char>>(n),
            Err(m) => needed_u32(event@, name@) == Err::<u32, Seq<char>>(m@),
        },
{
    match event.get_u64(name) {
        Some(n) => if n <= u32::MAX as u64 {
            Ok(n as u32)
        } else {
            Err(missing(name))
        },
        None => Err(missing(name)),
    }
}

pub fn required_string(event: &Json, name: &str) -> (r: Result<String, String>)
    ensures
        match r {
            Ok(s) => needed_text(event@, name@) == Ok::<Seq<char>, Seq<char>>(s@),
            Err(m) => needed_text(event@, name@) == Err::<Seq<char>, Seq<char>>(m@),
        },
{
    match event.get_str(name) {
        Some(s) => Ok(text::owned(s)),
        None => Err(missing(name)),
    }
}

// ---------------------------------------------------------------------------
// Finished items
// ---------------------------------------------------------------------------

/// The input of a tool that is called with free text.
pub open spec fn freeform_input(parser: Option<FreeformParser>, input: Seq<char>) -> Result<
    json::JsonView,
    Seq<char>,
> {
    match parser {
        None => Ok(json::JsonView::Text(input)),
        Some(FreeformParser::Command) => Ok(
            json::JsonView::Object(seq![("command"@, json::JsonView::Text(input))]),
        ),
        Some(FreeformParser::Write) => match tool_write::read_freeform(input) {
            Ok((path, content)) => Ok(tool_write::write_input(path, content)),
            Err(m) => Err(m),
        },
    }
}

fn parse_freeform(parser: Option<FreeformParser>, input: &str) -> (r: Result<Json, String>)
    ensures
        match r {
            Ok(v) => freeform_input(parser, input@) == Ok::<json::JsonView, Seq<char>>(v@),
            Err(m) => freeform_input(parser, input@) == Err::<json::JsonView, Seq<char>>(m@),
        },
{
    match parser {
        None => Ok(Json::text(input)),
        Some(FreeformParser::Command) => Ok(
            ObjectBuilder::new().with("command", Json::text(input)).done(),
        ),
        Some(FreeformParser::Write) => match tool_write::parse_write_freeform(input) {
            Ok(v) => Ok(v),
            Err(Error::Tool(m)) => Err(m),
            Err(_) => {
                proof {
                    assert(false);
                }
                Err(String::new())
            },
        },
    }
}

/// The first tool named `name`, from position `from` on.
pub open spec fn tool_from(tools: Seq<ToolDefinition>, name: Seq<char>, from: int) -> Option<int>
    decreases tools.len() - from,
{
    if from < 0 || from >= tools.len() {
        None
    } else if tools[from].name@ == name {
        Some(from)
    } else {
        tool_from(tools, name, from + 1)
    }
}

fn find_tool(tools: &[ToolDefinition], name: &str) -> (r: Option<usize>)
    ensures
        match r {
            Some(i) => tool_from(tools@, name@, 0) == Some(i as int) && i < tools@.len(),
            None => tool_from(tools@, name@, 0) is None,
        },
{
    let mut i: usize = 0;
    while i < tools.len()
        invariant
            i <= tools@.len(),
            tool_from(tools@, name@, 0) == tool_from(tools@, name@, i as int),
        decreases tools@.len() - i,
    {
        if text::same_text(tools[i].name.as_str(), name) {
            return Some(i);
        }
        i += 1;
    }
    None
}

/// The texts of the entries of a message that are output.
pub open spec fn output_texts(entries: Seq<json::JsonView>) -> Seq<Seq<char>>
    decreases entries.len(),
{
    if entries.len() == 0 {
        Seq::empty()
    } else {
        let earlier = output_texts(entries.drop_last());
        let e = entries.last();
        match json::text_at(e, "text"@) {
            Some(t) => if json::text_at(e, "type"@) == Some("output_text"@) {
                earlier.push(t)
            } else {
                earlier
            },
            None => earlier,
        }
    }
}

/// The texts of the entries of a summary.
pub open spec fn summary_texts(entries: Seq<json::JsonView>) -> Seq<Seq<char>>
    decreases entries.len(),
{
    if entries.len() == 0 {
        Seq::empty()
    } else {
        let earlier = summary_texts(entries.drop_last());
        match json::text_at(entries.last(), "text"@) {
            Some(t) => earlier.push(t),
            None => earlier,
        }
    }
}

/// The entries in field `name`; none where it is no array.
pub open spec fn entries_at(item: json::JsonView, name: Seq<char>) -> Seq<json::JsonView> {
    match json::items_of(json::field(item, name)) {
        Some(list) => list,
        None => Seq::empty(),
    }
}

/// The arguments of a function call: read as JSON, or kept as text where they
/// are none, or null where there are none.
pub open spec fn call_arguments(item: json::JsonView) -> json::JsonView {
    match json::text_at(item, "arguments"@) {
        Some(t) => match json::json_parse(t) {
            Ok(v) => v,
            Err(_) => json::JsonView::Text(t),
        },
        None => json::JsonView::Null,
    }
}

/// A part that says `content` and keeps `item` for its provider.
pub open spec fn kept_part(
    content: Option<model::ContentView>,
    provider_id: ProviderId,
    item: json::JsonView,
) -> model::PartView {
    model::PartView { content, provider_data: Some((provider_id, item)) }
}

/// The part of the answer that a finished item is.
pub open spec fn item_part(
    provider_id: ProviderId,
    item: json::JsonView,
    tools: Seq<ToolDefinition>,
) -> Result<model::PartView, Seq<char>> {
    let kind = json::text_at(item, "type"@);
    let call_id = json::text_at(item, "call_id"@);
    let name = json::text_at(item, "name"@);
    if kind == Some("message"@) {
        let said = text::concat_all(output_texts(entries_at(item, "content"@)));
        Ok(
            if said.len() == 0 {
                kept_part(None, provider_id, item)
            } else {
                kept_part(Some(model::ContentView::Text(said)), provider_id, item)
            },
        )
    } else if kind == Some("reasoning"@) {
        let said = text::joined(summary_texts(entries_at(item, "summary"@)), "\n"@);
        Ok(
            if said.len() == 0 {
                kept_part(None, provider_id, item)
            } else {
                kept_part(Some(model::ContentView::Reasoning(said)), provider_id, item)
            },
        )
    } else if kind == Some("function_call"@) {
        Ok(
            match (call_id, name) {
                (Some(id), Some(n)) => kept_part(
                    Some(model::ContentView::ToolCall(id, n, call_arguments(item))),
                    provider_id,
                    item,
                ),
                _ => kept_part(None, provider_id, item),
            },
        )
    } else if kind == Some("custom_tool_call"@) {
        match (call_id, name, json::text_at(item, "input"@)) {
            (Some(id), Some(n), Some(input)) => {
                let parser = match tool_from(tools, n, 0) {
                    Some(i) => tools[i].freeform,
                    None => None,
                };
                match freeform_input(parser, input) {
                    Ok(arguments) => Ok(
                        kept_part(
                            Some(model::ContentView::ToolCall(id, n, arguments)),
                            provider_id,
                            item,
                        ),
                    ),
                    Err(m) => Err("invalid freeform input for "@ + n + ": "@ + m),
                }
            },
            _ => Ok(kept_part(None, provider_id, item)),
        }
    } else {
        Ok(kept_part(None, provider_id, item))
    }
}

fn collect_output_texts(entries: &Vec<Json>) -> (r: Vec<String>)
    ensures
        text::texts(r@) == output_texts(json::json_views(entries@)),
{
    let ghost all = json::json_views(entries@);
    let mut out: Vec<String> = Vec::new();
    let mut i: usize = 0;
    proof {
        assert(all.take(0) =~= Seq::empty());
        assert(text::texts(out@) =~= Seq::empty());
    }
    while i < entries.len()
        invariant
            i <= entries@.len(),
            all == json::json_views(entries@),
            text::texts(out@) == output_texts(all.take(i as int)),
        decreases entries@.len() - i,
    {
        let ghost before = text::texts(out@);
        proof {
            assert(all.take(i + 1).drop_last() =~= all.take(i as int));
            assert(all.take(i + 1).last() == entries@[i as int]@);
        }
        if let (Some(kind), Some(t)) = (entries[i].get_str("type"), entries[i].get_str("text")) {
            if text::same_text(kind, "output_text") {
                out.push(text::owned(t));
                proof {
                    assert(text::texts(out@) =~= before.push(t@));
                }
            }
        }
        i += 1;
    }
    proof {
        assert(all.take(i as int) =~= all);
    }
    out
}

fn collect_summary_texts(entries: &Vec<Json>) -> (r: Vec<String>)
    ensures
        text::texts(r@) == summary_texts(json::json_views(entries@)),
{
    let ghost all = json::json_views(entries@);
    let mut out: Vec<String> = Vec::new();
    let mut i: usize = 0;
    proof {
        assert(all.take(0) =~= Seq::empty());
        assert(text::texts(out@) =~= Seq::empty());
    }
    while i < entries.len()
        invariant
            i <= entries@.len(),
            all == json::json_views(entries@),
            text::texts(out@) == summary_texts(all.take(i as int)),
        decreases entries@.len() - i,
    {
        let ghost before = text::texts(out@);
        proof {
            assert(all.take(i + 1).drop_last() =~= all.take(i as int));
            assert(all.take(i + 1).last() == entries@[i as int]@);
        }
        if let Some(t) = entries[i].get_str("text") {
            out.push(text::owned(t));
            proof {
                assert(text::texts(out@) =~= before.push(t@));
            }
        }
        i += 1;
    }
    proof {
        assert(all.take(i as int) =~= all);
    }
    out
}

fn message_part(provider_id: ProviderId, item: Json) -> (r: MessagePart)
    requires
        json::text_at(item@, "type"@) == Some("message"@),
    ensures
        item_part(provider_id, item@, Seq::empty()) == Ok::<model::PartView, Seq<char>>(r@),
{
    let said = match item.get_array("content") {
        Some(entries) => text::concat_texts(collect_output_texts(entries).as_slice()),
        None => String::new(),
    };
    if said.as_str().is_empty() {
        MessagePart::provider_only(provider_id, item)
    } else {
        MessagePart::text(said.as_str()).with_provider_data(provider_id, item)
    }
}

fn reasoning_part(provider_id: ProviderId, item: Json) -> (r: MessagePart)
    ensures
        ({
            let said = text::joined(summary_texts(entries_at(item@, "summary"@)), "\n"@);
            r@ == (if said.len() == 0 {
                kept_part(None, provider_id, item@)
            } else {
                kept_part(Some(model::ContentView::Reasoning(said)), provider_id, item@)
            })
        }),
{
    let said = match item.get_array("summary") {
        Some(entries) => text::join(collect_summary_texts(entries).as_slice(), "\n"),
        None => String::new(),
    };
    if said.as_str().is_empty() {
        MessagePart::provider_only(provider_id, item)
    } else {
        MessagePart::reasoning(said.as_str()).with_provider_data(provider_id, item)
    }
}

fn read_arguments(item: &Json) -> (r: Json)
    ensures
        r@ == call_arguments(item@),
{
    match item.get_str("arguments") {
        Some(t) => match json::parse_json(t) {
            Ok(v) => v,
            Err(_) => Json::text(t),
        },
        None => Json::Null,
    }
}

/// Turns a finished item into a part of the answer.
pub fn output_item_part(provider_id: ProviderId, item: Json, tools: &[ToolDefinition]) -> (r:
    Result<MessagePart, String>)
    ensures
        match r {
            Ok(p) => item_part(provider_id, item@, tools@) == Ok::<model::PartView, Seq<char>>(p@),
            Err(m) => item_part(provider_id, item@, tools@) == Err::<model::PartView, Seq<char>>(
                m@,
            ),
        },
{
    let kind = match item.get_str("type") {
        Some(k) => text::owned(k),
        None => return Ok(MessagePart::provider_only(provider_id, item)),
    };
    if text::same_text(kind.as_str(), "message") {
        return Ok(message_part(provider_id, item));
    }
    if text::same_text(kind.as_str(), "reasoning") {
        return Ok(reasoning_part(provider_id, item));
    }
    if text::same_text(kind.as_str(), "function_call") {
        let part = match (item.get_str("call_id"), item.get_str("name")) {
            (Some(id), Some(name)) => Some(MessagePart::tool_call(id, name, read_arguments(&item))),
            _ => None,
        };
        return Ok(
            match part {
                Some(p) => p.with_provider_data(provider_id, item),
                None => MessagePart::provider_only(provider_id, item),
            },
        );
    }
    if text::same_text(kind.as_str(), "custom_tool_call") {
        let part = match (item.get_str("call_id"), item.get_str("name"), item.get_str("input")) {
            (Some(id), Some(name), Some(input)) => {
                let parser = match find_tool(tools, name) {
                    Some(i) => tools[i].freeform,
                    None => None,
                };
                match parse_freeform(parser, input) {
                    Ok(arguments) => Some(MessagePart::tool_call(id, name, arguments)),
                    Err(m) => return Err(
                        text::cat4("invalid freeform input for ", name, ": ", m.as_str()),
                    ),
                }
            },
            _ => None,
        };
        return Ok(
            match part {
                Some(p) => p.with_provider_data(provider_id, item),
                None => MessagePart::provider_only(provider_id, item),
            },
        );
    }
    Ok(MessagePart::provider_only(provider_id, item))
}

// ---------------------------------------------------------------------------
// Events
// ---------------------------------------------------------------------------

/// What is known of an answer on its way: the items seen so far, by index, and
/// whether one of them called a tool.
pub ghost struct Answer {
    pub items: Map<u32, json::JsonView>,
    pub saw_tool_call: bool,
}

/// Stored items in mathematical terms.
pub open spec fn item_views(items: Map<u32, Json>) -> Map<u32, json::JsonView> {
    items.map_values(|v: Json| v@)
}

pub open spec fn calls_tool(item: json::JsonView) -> bool {
    let kind = json::text_at(item, "type"@);
    kind == Some("function_call"@) || kind == Some("custom_tool_call"@)
}

/// The item at `index`, where there is one.
pub open spec fn item_at(items: Map<u32, json::JsonView>, index: u32) -> Option<json::JsonView> {
    if items.contains_key(index) {
        Some(items[index])
    } else {
        None
    }
}

/// The tokens that a response reports, or what is missing.
pub open spec fn reported_usage(response: Option<json::JsonView>) -> Result<
    Seq<model::EventView>,
    Seq<char>,
> {
    match json::opt_field(response, "usage"@) {
        None => Ok(Seq::empty()),
        Some(usage) => match json::number_of(json::field(usage, "input_tokens"@)) {
            None => Err("OpenAI Responses usage has no input_tokens"@),
            Some(input_tokens) => match json::number_of(json::field(usage, "output_tokens"@)) {
                None => Err("OpenAI Responses usage has no output_tokens"@),
                Some(output_tokens) => match json::number_of(json::field(usage, "total_tokens"@)) {
                    None => Err("OpenAI Responses usage has no total_tokens"@),
                    Some(total_tokens) => Ok(
                        seq![
                            model::EventView::Usage(
                                Usage { input_tokens, output_tokens, total_tokens },
                            ),
                        ],
                    ),
                },
            },
        },
    }
}

/// Why an answer that is not complete ended.
pub open spec fn cut_short(event: json::JsonView) -> model::FinishView {
    let reason = match json::text_of(
        json::opt_field(
            json::opt_field(json::field(event, "response"@), "incomplete_details"@),
            "reason"@,
        ),
    ) {
        Some(r) => r,
        None => "incomplete"@,
    };
    if reason == "max_output_tokens"@ {
        model::FinishView::Length
    } else if reason == "content_filter"@ {
        model::FinishView::ContentFilter
    } else {
        model::FinishView::Other(reason)
    }
}

/// What an event that reports a failure says.
pub open spec fn failure_message(event: json::JsonView) -> Seq<char> {
    let inner = json::text_of(
        json::opt_field(json::opt_field(json::field(event, "response"@), "error"@), "message"@),
    );
    let outer = json::text_of(json::opt_field(json::field(event, "error"@), "message"@));
    match inner {
        Some(m) => m,
        None => match outer {
            Some(m) => m,
            None => match json::text_at(event, "message"@) {
                Some(m) => m,
                None => "OpenAI Responses request failed"@,
            },
        },
    }
}

/// `item` with its input set. Only objects and null take a field.
pub open spec fn with_input(item: json::JsonView, input: Seq<char>) -> json::JsonView {
    match item {
        json::JsonView::Object(fields) => json::JsonView::Object(
            json::with_field(fields, "input"@, json::JsonView::Text(input)),
        ),
        _ => json::JsonView::Object(seq![("input"@, json::JsonView::Text(input))]),
    }
}

/// What an event adds to an answer: the answer after it, and the events that it
/// stands for or what is wrong with it.
pub open spec fn responded(
    event: json::JsonView,
    provider_id: ProviderId,
    tools: Seq<ToolDefinition>,
    answer: Answer,
) -> (Answer, Result<Seq<model::EventView>, Seq<char>>) {
    match json::text_at(event, "type"@) {
        None => (answer, Err("OpenAI Responses event has no type"@)),
        Some(kind) => if kind == "response.output_item.added"@ || kind
            == "response.output_item.done"@ {
            match needed_u32(event, "output_index"@) {
                Err(m) => (answer, Err(m)),
                Ok(index) => match json::field(event, "item"@) {
                    None => (answer, Err("output item event has no item"@)),
                    Some(item) => {
                        let after = Answer {
                            items: answer.items.insert(index, item),
                            saw_tool_call: answer.saw_tool_call || calls_tool(item),
                        };
                        if kind == "response.output_item.added"@ {
                            (after, Ok(Seq::empty()))
                        } else {
                            (
                                after,
                                match item_part(provider_id, item, tools) {
                                    Err(m) => Err(m),
                                    Ok(part) => Ok(seq![model::EventView::OutputPart(index, part)]),
                                },
                            )
                        }
                    },
                },
            }
        } else if kind == "response.output_text.delta"@ {
            match needed_text(event, "delta"@) {
                Err(m) => (answer, Err(m)),
                Ok(delta) => (
                    answer,
                    Ok(
                        if delta.len() == 0 {
                            Seq::empty()
                        } else {
                            seq![model::EventView::TextDelta(delta)]
                        },
                    ),
                ),
            }
        } else if kind == "response.reasoning_summary_text.delta"@ {
            match needed_text(event, "delta"@) {
                Err(m) => (answer, Err(m)),
                Ok(delta) => (
                    answer,
                    Ok(
                        if delta.len() == 0 {
                            Seq::empty()
                        } else {
                            seq![model::EventView::ReasoningDelta(delta)]
                        },
                    ),
                ),
            }
        } else if kind == "response.function_call_arguments.delta"@ || kind
            == "response.custom_tool_call_input.delta"@ {
            match needed_u32(event, "output_index"@) {
                Err(m) => (answer, Err(m)),
                Ok(index) => match needed_text(event, "delta"@) {
                    Err(m) => (answer, Err(m)),
                    Ok(delta) => {
                        let item = item_at(answer.items, index);
                        let id = json::text_of(json::opt_field(item, "call_id"@));
                        let name = json::text_of(json::opt_field(item, "name"@));
                        (
                            answer,
                            Ok(
                                seq![
                                    if kind == "response.function_call_arguments.delta"@ {
                                        model::EventView::ToolCallDelta(index, id, name, delta)
                                    } else {
                                        model::EventView::CustomToolCallInputDelta(
                                            index,
                                            id,
                                            name,
                                            delta,
                                        )
                                    },
                                ],
                            ),
                        )
                    },
                },
            }
        } else if kind == "response.custom_tool_call_input.done"@ {
            match needed_u32(event, "output_index"@) {
                Err(m) => (answer, Err(m)),
                Ok(index) => match needed_text(event, "input"@) {
                    Err(m) => (answer, Err(m)),
                    Ok(input) => (
                        Answer {
                            items: match item_at(answer.items, index) {
                                Some(item) => answer.items.insert(index, with_input(item, input)),
                                None => answer.items,
                            },
                            ..answer
                        },
                        Ok(seq![model::EventView::CustomToolCallInputDone(index, input)]),
                    ),
                },
            }
        } else if kind == "response.completed"@ {
            match reported_usage(json::field(event, "response"@)) {
                Err(m) => (answer, Err(m)),
                Ok(usage) => (
                    answer,
                    Ok(
                        usage.push(
                            model::EventView::Finished(
                                if answer.saw_tool_call {
                                    model::FinishView::ToolCalls
                                } else {
                                    model::FinishView::Stop
                                },
                            ),
                        ),
                    ),
                ),
            }
        } else if kind == "response.incomplete"@ {
            match reported_usage(json::field(event, "response"@)) {
                Err(m) => (answer, Err(m)),
                Ok(usage) => (
                    answer,
                    Ok(usage.push(model::EventView::Finished(cut_short(event)))),
                ),
            }
        } else if kind == "response.failed"@ || kind == "error"@ {
            (answer, Err(failure_message(event)))
        } else {
            (answer, Ok(Seq::empty()))
        },
    }
}

/// The item whose input an event sets can take a field.
pub open spec fn can_respond(event: json::JsonView, items: Map<u32, json::JsonView>) -> bool {
    json::text_at(event, "type"@) == Some("response.custom_tool_call_input.done"@) && needed_text(
        event,
        "input"@,
    ) is Ok ==> (needed_u32(event, "output_index"@) matches Ok(index) ==> (item_at(
        items,
        index,
    ) matches Some(item) ==> item is Object || item is Null))
}

fn calls(item: &Json) -> (r: bool)
    ensures
        r == calls_tool(item@),
{
    match item.get_str("type") {
        Some(kind) => text::same_text(kind, "function_call") || text::same_text(
            kind,
            "custom_tool_call",
        ),
        None => false,
    }
}

fn opt_get<'a>(value: Option<&'a Json>, key: &str) -> (r: Option<&'a Json>)
    ensures
        json::opt_view(r) == json::opt_field(json::opt_view(value), key@),
{
    match value {
        Some(v) => v.get(key),
        None => None,
    }
}

fn opt_owned(value: Option<&Json>) -> (r: Option<String>)
    ensures
        text::opt_text(r) == json::text_of(json::opt_view(value)),
{
    match value {
        Some(v) => match v.as_str() {
            Some(s) => Some(text::owned(s)),
            None => None,
        },
        None => None,
    }
}

/// The tokens that a response reports.
pub fn append_usage(events: &mut Vec<ProviderEvent>, response: Option<&Json>) -> (r: Result<
    (),
    String,
>)
    ensures
        match reported_usage(json::opt_view(response)) {
            Ok(usage) => r is Ok && model::event_views(final(events)@) == model::event_views(
                old(events)@,
            ) + usage,
            Err(m) => r is Err && r->Err_0@ == m && final(events)@ == old(events)@,
        },
{
    let ghost before = model::event_views(events@);
    let usage = match opt_get(response, "usage") {
        Some(u) => u,
        None => {
            proof {
                assert(before + Seq::<model::EventView>::empty() =~= before);
            }
            return Ok(());
        },
    };
    let input_tokens: u64 = match usage.get_u64("input_tokens") {
        Some(n) => n,
        None => return Err(text::owned("OpenAI Responses usage has no input_tokens")),
    };
    let output_tokens: u64 = match usage.get_u64("output_tokens") {
        Some(n) => n,
        None => return Err(text::owned("OpenAI Responses usage has no output_tokens")),
    };
    let total_tokens: u64 = match usage.get_u64("total_tokens") {
        Some(n) => n,
        None => return Err(text::owned("OpenAI Responses usage has no total_tokens")),
    };
    let usage = Usage { input_tokens, output_tokens, total_tokens };
    events.push(ProviderEvent::Usage { usage });
    proof {
        assert(model::event_views(events@) =~= before + seq![model::EventView::Usage(usage)]);
    }
    Ok(())
}

fn finish_reason(event: &Json) -> (r: FinishReason)
    ensures
        r@ == cut_short(event@),
{
    let found = opt_owned(
        opt_get(opt_get(event.get("response"), "incomplete_details"), "reason"),
    );
    let reason = match found {
        Some(s) => s,
        None => text::owned("incomplete"),
    };
    if text::same_text(reason.as_str(), "max_output_tokens") {
        FinishReason::Length
    } else if text::same_text(reason.as_str(), "content_filter") {
        FinishReason::ContentFilter
    } else {
        FinishReason::Other(reason)
    }
}

fn failure_text(event: &Json) -> (r: String)
    ensures
        r@ == failure_message(event@),
{
    if let Some(m) = opt_owned(opt_get(opt_get(event.get("response"), "error"), "message")) {
        return m;
    }
    if let Some(m) = opt_owned(opt_get(event.get("error"), "message")) {
        return m;
    }
    match event.get_str("message") {
        Some(m) => text::owned(m),
        None => text::owned("OpenAI Responses request failed"),
    }
}

fn one(event: ProviderEvent) -> (r: Vec<ProviderEvent>)
    ensures
        model::event_views(r@) == seq![event@],
{
    let ghost shown = event@;
    let mut out: Vec<ProviderEvent> = Vec::new();
    out.push(event);
    proof {
        assert(model::event_views(out@) =~= seq![shown]);
    }
    out
}

fn no_events() -> (r: Vec<ProviderEvent>)
    ensures
        model::event_views(r@) == Seq::<model::EventView>::empty(),
{
    let out: Vec<ProviderEvent> = Vec::new();
    proof {
        assert(model::event_views(out@) =~= Seq::empty());
    }
    out
}

fn set_input(item: Json, input: &str) -> (r: Json)
    requires
        item@ is Object || item@ is Null,
    ensures
        r@ == with_input(item@, input@),
{
    match item {
        Json::Object(fields) => {
            let ghost view = json::field_views(fields@);
            proof {
                assert(item@->Object_0 =~= view);
            }
            let mut fields = fields;
            json::set_field(&mut fields, "input", Json::text(input));
            json::object(fields)
        },
        _ => {
            let fields = ObjectBuilder::new().with("input", Json::text(input));
            assert(fields@ =~= seq![("input"@, json::JsonView::Text(input@))]);
            fields.done()
        },
    }
}

/// Whether the item whose input `event` sets can take a field.
pub fn accepts_event(event: &Json, items: &BTreeMap<u32, Json>) -> (r: bool)
    ensures
        r == can_respond(event@, item_views(items@)),
{
    match event.get_str("type") {
        Some(kind) => if !text::same_text(kind, "response.custom_tool_call_input.done") {
            return true;
        },
        None => return true,
    }
    let index: u32 = match required_u32(event, "output_index") {
        Ok(n) => n,
        Err(_) => return true,
    };
    if required_string(event, "input").is_err() {
        return true;
    }
    match items.get(&index) {
        Some(Json::Object(_)) => true,
        Some(Json::Null) => true,
        Some(_) => false,
        None => true,
    }
}

/// What a call of `response_events_with_tools` leaves behind.
pub open spec fn answers(
    r: model::Result<Vec<ProviderEvent>>,
    items: Map<u32, json::JsonView>,
    saw_tool_call: bool,
    wanted: (Answer, Result<Seq<model::EventView>, Seq<char>>),
) -> bool {
    &&& items == wanted.0.items
    &&& saw_tool_call == wanted.0.saw_tool_call
    &&& match wanted.1 {
        Ok(events) => r is Ok && model::event_views(r->Ok_0@) == events,
        Err(m) => r is Err && r->Err_0@ == model::ErrorView::Provider(m),
    }
}

fn item_event(
    event: &Json,
    finished: bool,
    provider_id: ProviderId,
    tools: &[ToolDefinition],
    items: &mut BTreeMap<u32, Json>,
    saw_tool_call: &mut bool,
) -> (r: model::Result<Vec<ProviderEvent>>)
    requires
        json::text_at(event@, "type"@) == Some(
            if finished {
                "response.output_item.done"@
            } else {
                "response.output_item.added"@
            },
        ),
        finished ==> json::text_at(event@, "type"@) != Some("response.output_item.added"@),
    ensures
        answers(
            r,
            item_views(final(items)@),
            *final(saw_tool_call),
            responded(
                event@,
                provider_id,
                tools@,
                Answer { items: item_views(old(items)@), saw_tool_call: *old(saw_tool_call) },
            ),
        ),
{
    let index: u32 = match required_u32(event, "output_index") {
        Ok(n) => n,
        Err(m) => return Err(Error::Provider(m)),
    };
    let item = match event.get("item") {
        Some(v) => v.clone(),
        None => return Err(Error::Provider(text::owned("output item event has no item"))),
    };
    let ghost shown = item@;
    let ghost before = item_views(items@);
    if calls(&item) {
        *saw_tool_call = true;
    }
    let stored = item.clone();
    items.insert(index, stored);
    proof {
        assert(item_views(items@) =~= before.insert(index, shown));
    }
    if !finished {
        return Ok(no_events());
    }
    match output_item_part(provider_id, item, tools) {
        Ok(part) => Ok(one(ProviderEvent::OutputPart { index, part })),
        Err(m) => Err(Error::Provider(m)),
    }
}

fn delta_event(
    event: &Json,
    custom: bool,
    provider_id: Ghost<ProviderId>,
    tools: Ghost<Seq<ToolDefinition>>,
    items: &BTreeMap<u32, Json>,
    saw_tool_call: Ghost<bool>,
) -> (r: model::Result<Vec<ProviderEvent>>)
    requires
        json::text_at(event@, "type"@) == Some(
            if custom {
                "response.custom_tool_call_input.delta"@
            } else {
                "response.function_call_arguments.delta"@
            },
        ),
        json::text_at(event@, "type"@) != Some("response.output_item.added"@),
        json::text_at(event@, "type"@) != Some("response.output_item.done"@),
        json::text_at(event@, "type"@) != Some("response.output_text.delta"@),
        json::text_at(event@, "type"@) != Some("response.reasoning_summary_text.delta"@),
        custom ==> json::text_at(event@, "type"@) != Some(
            "response.function_call_arguments.delta"@,
        ),
    ensures
        answers(
            r,
            item_views(items@),
            saw_tool_call@,
            responded(
                event@,
                provider_id@,
                tools@,
                Answer { items: item_views(items@), saw_tool_call: saw_tool_call@ },
            ),
        ),
{
    let index: u32 = match required_u32(event, "output_index") {
        Ok(n) => n,
        Err(m) => return Err(Error::Provider(m)),
    };
    let delta = match required_string(event, "delta") {
        Ok(s) => s,
        Err(m) => return Err(Error::Provider(m)),
    };
    let item = items.get(&index);
    proof {
        assert(json::opt_view(item) == item_at(item_views(items@), index));
    }
    let id = opt_owned(opt_get(item, "call_id"));
    let name = opt_owned(opt_get(item, "name"));
    if custom {
        Ok(one(ProviderEvent::CustomToolCallInputDelta { index, id, name, input: delta }))
    } else {
        Ok(one(ProviderEvent::ToolCallDelta { index, id, name, arguments: delta }))
    }
}

fn input_done_event(event: &Json, items: &mut BTreeMap<u32, Json>) -> (r: model::Result<
    Vec<ProviderEvent>,
>)
    requires
        json::text_at(event@, "type"@) == Some("response.custom_tool_call_input.done"@),
        can_respond(event@, item_views(old(items)@)),
    ensures
        ({
            let before = item_views(old(items)@);
            let after = item_views(final(items)@);
            match needed_u32(event@, "output_index"@) {
                Err(m) => r is Err && r->Err_0@ == model::ErrorView::Provider(m) && after == before,
                Ok(index) => match needed_text(event@, "input"@) {
                    Err(m) => r is Err && r->Err_0@ == model::ErrorView::Provider(m) && after
                        == before,
                    Ok(input) => {
                        &&& r is Ok && model::event_views(r->Ok_0@) == seq![
                            model::EventView::CustomToolCallInputDone(index, input),
                        ]
                        &&& after == (match item_at(before, index) {
                            Some(item) => before.insert(index, with_input(item, input)),
                            None => before,
                        })
                    },
                },
            }
        }),
{
    let index: u32 = match required_u32(event, "output_index") {
        Ok(n) => n,
        Err(m) => return Err(Error::Provider(m)),
    };
    let input = match required_string(event, "input") {
        Ok(s) => s,
        Err(m) => return Err(Error::Provider(m)),
    };
    let ghost before = item_views(items@);
    let found = match items.get(&index) {
        Some(item) => Some(item.clone()),
        None => None,
    };
    if let Some(item) = found {
        let ghost shown = item@;
        proof {
            assert(item_at(before, index) == Some(shown));
        }
        let changed = set_input(item, input.as_str());
        items.insert(index, changed);
        proof {
            assert(item_views(items@) =~= before.insert(index, with_input(shown, input@)));
        }
    }
    Ok(one(ProviderEvent::CustomToolCallInputDone { index, input }))
}

fn text_event(event: &Json, reasoning: bool) -> (r: model::Result<Vec<ProviderEvent>>)
    ensures
        match needed_text(event@, "delta"@) {
            Err(m) => r is Err && r->Err_0@ == model::ErrorView::Provider(m),
            Ok(delta) => r is Ok && model::event_views(r->Ok_0@) == (if delta.len() == 0 {
                Seq::<model::EventView>::empty()
            } else if reasoning {
                seq![model::EventView::ReasoningDelta(delta)]
            } else {
                seq![model::EventView::TextDelta(delta)]
            }),
        },
{
    match required_string(event, "delta") {
        Err(m) => Err(Error::Provider(m)),
        Ok(delta) => if delta.as_str().is_empty() {
            Ok(no_events())
        } else if reasoning {
            Ok(one(ProviderEvent::ReasoningDelta { text: delta }))
        } else {
            Ok(one(ProviderEvent::TextDelta { text: delta }))
        },
    }
}

fn last_event(event: &Json, reason: FinishReason) -> (r: model::Result<Vec<ProviderEvent>>)
    ensures
        match reported_usage(json::field(event@, "response"@)) {
            Err(m) => r is Err && r->Err_0@ == model::ErrorView::Provider(m),
            Ok(usage) => r is Ok && model::event_views(r->Ok_0@) == usage.push(
                model::EventView::Finished(reason@),
            ),
        },
{
    let mut events = no_events();
    if let Err(m) = append_usage(&mut events, event.get("response")) {
        return Err(Error::Provider(m));
    }
    let ghost before = model::event_views(events@);
    let ghost shown = reason@;
    proof {
        let usage = reported_usage(json::field(event@, "response"@))->Ok_0;
        assert(Seq::<model::EventView>::empty() + usage =~= usage);
    }
    events.push(ProviderEvent::Finished { reason });
    proof {
        assert(model::event_views(events@) =~= before.push(model::EventView::Finished(shown)));
    }
    Ok(events)
}

/// Takes in one event of a streamed answer: the items seen so far are brought up
/// to date, and the events that it stands for come back.
pub fn response_events_with_tools(
    event: Json,
    provider_id: ProviderId,
    tools: &[ToolDefinition],
    output_items: &mut BTreeMap<u32, Json>,
    saw_tool_call: &mut bool,
) -> (r: model::Result<Vec<ProviderEvent>>)
    requires
        can_respond(event@, item_views(old(output_items)@)),
    ensures
        answers(
            r,
            item_views(final(output_items)@),
            *final(saw_tool_call),
            responded(
                event@,
                provider_id,
                tools@,
                Answer {
                    items: item_views(old(output_items)@),
                    saw_tool_call: *old(saw_tool_call),
                },
            ),
        ),
{
    let kind = match event.get_str("type") {
        Some(k) => text::owned(k),
        None => return Err(Error::Provider(text::owned("OpenAI Responses event has no type"))),
    };
    let k = kind.as_str();
    if text::same_text(k, "response.output_item.added") {
        return item_event(&event, false, provider_id, tools, output_items, saw_tool_call);
    }
    if text::same_text(k, "response.output_item.done") {
        return item_event(&event, true, provider_id, tools, output_items, saw_tool_call);
    }
    if text::same_text(k, "response.output_text.delta") {
        return text_event(&event, false);
    }
    if text::same_text(k, "response.reasoning_summary_text.delta") {
        return text_event(&event, true);
    }
    if text::same_text(k, "response.function_call_arguments.delta") {
        return delta_event(
            &event,
            false,
            Ghost(provider_id),
            Ghost(tools@),
            &*output_items,
            Ghost(*saw_tool_call),
        );
    }
    if text::same_text(k, "response.custom_tool_call_input.delta") {
        return delta_event(
            &event,
            true,
            Ghost(provider_id),
            Ghost(tools@),
            &*output_items,
            Ghost(*saw_tool_call),
        );
    }
    if text::same_text(k, "response.custom_tool_call_input.done") {
        return input_done_event(&event, output_items);
    }
    if text::same_text(k, "response.completed") {
        let reason = if *saw_tool_call {
            FinishReason::ToolCalls
        } else {
            FinishReason::Stop
        };
        return last_event(&event, reason);
    }
    if text::same_text(k, "response.incomplete") {
        return last_event(&event, finish_reason(&event));
    }
    if text::same_text(k, "response.failed") || text::same_text(k, "error") {
        return Err(Error::Provider(failure_text(&event)));
    }
    Ok(no_events())
}

/// Takes in one event where no tool is known.
pub fn response_events(
    event: Json,
    provider_id: ProviderId,
    output_items: &mut BTreeMap<u32, Json>,
    saw_tool_call: &mut bool,
) -> (r: model::Result<Vec<ProviderEvent>>)
    requires
        can_respond(event@, item_views(old(output_items)@)),
    ensures
        answers(
            r,
            item_views(final(output_items)@),
            *final(saw_tool_call),
            responded(
                event@,
                provider_id,
                Seq::empty(),
                Answer {
                    items: item_views(old(output_items)@),
                    saw_tool_call: *old(saw_tool_call),
                },
            ),
        ),
{
    let none: Vec<ToolDefinition> = Vec::new();
    proof {
        assert(none@ =~= Seq::empty());
    }
    response_events_with_tools(event, provider_id, none.as_slice(), output_items, saw_tool_call)
}

/// Once an item of an answer has called a tool, the answer never forgets it:
/// a completed answer with a tool call finishes for that call.
pub proof fn law_tool_calls_are_remembered(
    event: json::JsonView,
    provider_id: ProviderId,
    tools: Seq<ToolDefinition>,
    answer: Answer,
)
    requires
        answer.saw_tool_call,
    ensures
        responded(event, provider_id, tools, answer).0.saw_tool_call,
        json::text_at(event, "type"@) == Some("response.completed"@) ==> (responded(
            event,
            provider_id,
            tools,
            answer,
        ).1 matches Ok(events) ==> events.len() > 0 && events.last()
            == model::EventView::Finished(model::FinishView::ToolCalls)),
{
    reveal_strlit("response.completed");
    reveal_strlit("response.output_item.added");
    reveal_strlit("response.output_item.done");
    reveal_strlit("response.output_text.delta");
    reveal_strlit("response.reasoning_summary_text.delta");
    reveal_strlit("response.function_call_arguments.delta");
    reveal_strlit("response.custom_tool_call_input.delta");
    reveal_strlit("response.custom_tool_call_input.done");
    assert("response.completed"@.len() == 18);
    assert("response.output_item.added"@.len() == 26);
    assert("response.output_item.done"@.len() == 25);
    assert("response.output_text.delta"@.len() == 26);
    assert("response.reasoning_summary_text.delta"@.len() == 37);
    assert("response.function_call_arguments.delta"@.len() == 38);
    assert("response.custom_tool_call_input.delta"@.len() == 37);
    assert("response.custom_tool_call_input.done"@.len() == 36);
}

/// Every part that a finished item becomes keeps the item for its provider, so
/// that it can be sent back as it came.
pub proof fn law_finished_items_are_kept(
    provider_id: ProviderId,
    item: json::JsonView,
    tools: Seq<ToolDefinition>,
)
    ensures
        item_part(provider_id, item, tools) matches Ok(part) ==> part.provider_data == Some(
            (provider_id, item),
        ),
{
}

// ---------------------------------------------------------------------------
// Requests
// ---------------------------------------------------------------------------

/// A tool is offered for free text.
pub open spec fn is_freeform(tool: ToolDefinition, freeform: bool) -> bool {
    freeform && tool.freeform is Some
}

/// How a tool is described in a request.
pub open spec fn tool_entry(tool: ToolDefinition, freeform: bool) -> json::JsonView {
    if is_freeform(tool, freeform) {
        json::JsonView::Object(
            seq![
                ("type"@, json::JsonView::Text("custom"@)),
                ("name"@, json::JsonView::Text(tool.name@)),
                ("description"@, json::JsonView::Text(tool.description@)),
            ],
        )
    } else {
        json::JsonView::Object(
            seq![
                ("type"@, json::JsonView::Text("function"@)),
                ("name"@, json::JsonView::Text(tool.name@)),
                ("description"@, json::JsonView::Text(tool.description@)),
                ("parameters"@, tool.schema@),
            ],
        )
    }
}

pub open spec fn role_name(role: Role) -> Seq<char> {
    match role {
        Role::System => "system"@,
        Role::User => "user"@,
        Role::Assistant => "assistant"@,
        Role::Tool => "user"@,
    }
}

/// The free text of a call.
pub open spec fn call_text(arguments: json::JsonView) -> Seq<char> {
    match arguments {
        json::JsonView::Text(s) => s,
        _ => json::json_spelling(arguments),
    }
}

/// A tool named `name` is offered for free text.
pub open spec fn named_freeform(tools: Seq<ToolDefinition>, name: Seq<char>, freeform: bool) -> bool {
    exists|i: int|
        0 <= i < tools.len() && (#[trigger] tools[i]).name@ == name && is_freeform(
            tools[i],
            freeform,
        )
}

/// What a provider is told of a tool's output.
pub open spec fn output_text(result: model::OutputView) -> Seq<char> {
    match result {
        model::OutputView::Success(c) => c,
        model::OutputView::Failure(c) => c,
        model::OutputView::Stop => Seq::empty(),
    }
}

/// The entry that a content becomes in a request, where it becomes one.
pub open spec fn content_entry(
    content: Option<model::ContentView>,
    role: Role,
    tools: Seq<ToolDefinition>,
    freeform: bool,
) -> Option<json::JsonView> {
    match content {
            None => None,
            Some(model::ContentView::Reasoning(_)) => None,
            Some(model::ContentView::Text(t)) => Some(
                json::JsonView::Object(
                    seq![
                        ("type"@, json::JsonView::Text("message"@)),
                        ("role"@, json::JsonView::Text(role_name(role))),
                        (
                            "content"@,
                            json::JsonView::Array(
                                seq![
                                    json::JsonView::Object(
                                        seq![
                                            ("type"@, json::JsonView::Text("input_text"@)),
                                            ("text"@, json::JsonView::Text(t)),
                                        ],
                                    ),
                                ],
                            ),
                        ),
                    ],
                ),
            ),
            Some(model::ContentView::ToolCall(id, name, arguments)) => Some(
                if named_freeform(tools, name, freeform) {
                    json::JsonView::Object(
                        seq![
                            ("type"@, json::JsonView::Text("custom_tool_call"@)),
                            ("call_id"@, json::JsonView::Text(id)),
                            ("name"@, json::JsonView::Text(name)),
                            ("input"@, json::JsonView::Text(call_text(arguments))),
                        ],
                    )
                } else {
                    json::JsonView::Object(
                        seq![
                            ("type"@, json::JsonView::Text("function_call"@)),
                            ("call_id"@, json::JsonView::Text(id)),
                            ("name"@, json::JsonView::Text(name)),
                            (
                                "arguments"@,
                                json::JsonView::Text(json::json_spelling(arguments)),
                            ),
                        ],
                    )
                },
            ),
            Some(model::ContentView::ToolResult(call_id, _, result)) => Some(
                json::JsonView::Object(
                    seq![
                        ("type"@, json::JsonView::Text("function_call_output"@)),
                        ("call_id"@, json::JsonView::Text(call_id)),
                        (
                            "output"@,
                            json::JsonView::Text(output_text(result)),
                        ),
                    ],
                ),
            ),
    }
}

/// The entry that a part of a message becomes in a request, where it becomes
/// one: what this provider kept with it, or else what it says.
pub open spec fn part_entry(
    part: model::PartView,
    role: Role,
    provider_id: ProviderId,
    tools: Seq<ToolDefinition>,
    freeform: bool,
) -> Option<json::JsonView> {
    if part.provider_data is Some && (part.provider_data->0).0 == provider_id {
        Some((part.provider_data->0).1)
    } else {
        content_entry(part.content, role, tools, freeform)
    }
}

/// The entries of the parts of one message.
pub open spec fn part_entries(
    parts: Seq<model::PartView>,
    role: Role,
    provider_id: ProviderId,
    tools: Seq<ToolDefinition>,
    freeform: bool,
) -> Seq<json::JsonView>
    decreases parts.len(),
{
    if parts.len() == 0 {
        Seq::empty()
    } else {
        let earlier = part_entries(parts.drop_last(), role, provider_id, tools, freeform);
        match part_entry(parts.last(), role, provider_id, tools, freeform) {
            Some(e) => earlier.push(e),
            None => earlier,
        }
    }
}

/// The entries of a conversation.
pub open spec fn conversation(
    messages: Seq<model::MessageView>,
    provider_id: ProviderId,
    tools: Seq<ToolDefinition>,
    freeform: bool,
) -> Seq<json::JsonView>
    decreases messages.len(),
{
    if messages.len() == 0 {
        Seq::empty()
    } else {
        let m = messages.last();
        conversation(messages.drop_last(), provider_id, tools, freeform) + part_entries(
            m.content,
            m.role,
            provider_id,
            tools,
            freeform,
        )
    }
}

pub open spec fn request_body(
    model_name: Seq<char>,
    messages: Seq<model::MessageView>,
    provider_id: ProviderId,
    tools: Seq<ToolDefinition>,
    freeform: bool,
) -> json::JsonView {
    json::JsonView::Object(
        seq![
            ("model"@, json::JsonView::Text(model_name)),
            (
                "input"@,
                json::JsonView::Array(conversation(messages, provider_id, tools, freeform)),
            ),
            (
                "tools"@,
                json::JsonView::Array(tools.map_values(|t: ToolDefinition| tool_entry(t, freeform))),
            ),
            ("stream"@, json::JsonView::Bool(true)),
            ("store"@, json::JsonView::Bool(false)),
            (
                "include"@,
                json::JsonView::Array(seq![json::JsonView::Text("reasoning.encrypted_content"@)]),
            ),
            (
                "reasoning"@,
                json::JsonView::Object(
                    seq![
                        ("summary"@, json::JsonView::Text("auto"@)),
                        ("effort"@, json::JsonView::Text("high"@)),
                    ],
                ),
            ),
        ],
    )
}

/// A part that its own provider kept something with is sent back as it came,
/// whatever else the part says.
pub proof fn law_native_items_are_replayed(
    part: model::PartView,
    role: Role,
    provider_id: ProviderId,
    tools: Seq<ToolDefinition>,
    freeform: bool,
    data: json::JsonView,
)
    requires
        part.provider_data == Some((provider_id, data)),
    ensures
        part_entry(part, role, provider_id, tools, freeform) == Some(data),
{
}

fn uses_freeform(tool: &ToolDefinition, freeform: bool) -> (r: bool)
    ensures
        r == is_freeform(*tool, freeform),
{
    freeform && tool.freeform.is_some()
}

/// Describes a tool.
pub fn responses_tool(tool: &ToolDefinition, freeform: bool) -> (r: Json)
    ensures
        r@ == tool_entry(*tool, freeform),
{
    if uses_freeform(tool, freeform) {
        let fields = ObjectBuilder::new().with("type", Json::text("custom")).with(
            "name",
            Json::text(tool.name.as_str()),
        ).with("description", Json::text(tool.description.as_str()));
        assert(fields@ =~= seq![
            ("type"@, json::JsonView::Text("custom"@)),
            ("name"@, json::JsonView::Text(tool.name@)),
            ("description"@, json::JsonView::Text(tool.description@)),
        ]);
        fields.done()
    } else {
        let fields = ObjectBuilder::new().with("type", Json::text("function")).with(
            "name",
            Json::text(tool.name.as_str()),
        ).with("description", Json::text(tool.description.as_str())).with(
            "parameters",
            tool.schema.clone(),
        );
        assert(fields@ =~= seq![
            ("type"@, json::JsonView::Text("function"@)),
            ("name"@, json::JsonView::Text(tool.name@)),
            ("description"@, json::JsonView::Text(tool.description@)),
            ("parameters"@, tool.schema@),
        ]);
        fields.done()
    }
}

fn response_role(role: Role) -> (r: &'static str)
    ensures
        r@ == role_name(role),
{
    match role {
        Role::System => "system",
        Role::User => "user",
        Role::Assistant => "assistant",
        Role::Tool => "user",
    }
}

fn response_text_input(arguments: &Json) -> (r: String)
    ensures
        r@ == call_text(arguments@),
{
    match arguments.as_str() {
        Some(s) => text::owned(s),
        None => json::spell_json(arguments),
    }
}

fn any_freeform(tools: &[ToolDefinition], name: &str, freeform: bool) -> (r: bool)
    ensures
        r == named_freeform(tools@, name@, freeform),
{
    let mut i: usize = 0;
    while i < tools.len()
        invariant
            i <= tools@.len(),
            forall|j: int|
                0 <= j < i ==> !((#[trigger] tools@[j]).name@ == name@ && is_freeform(
                    tools@[j],
                    freeform,
                )),
        decreases tools@.len() - i,
    {
        if text::same_text(tools[i].name.as_str(), name) && uses_freeform(&tools[i], freeform) {
            proof {
                assert(tools@[i as int].name@ == name@);
            }
            return true;
        }
        i += 1;
    }
    false
}

fn text_entry(role: Role, t: &str) -> (r: Json)
    ensures
        forall|tools: Seq<ToolDefinition>, freeform: bool| #[trigger]
            content_entry(Some(model::ContentView::Text(t@)), role, tools, freeform) == Some(r@),
{
    let inner = ObjectBuilder::new().with("type", Json::text("input_text")).with(
        "text",
        Json::text(t),
    );
    assert(inner@ =~= seq![
        ("type"@, json::JsonView::Text("input_text"@)),
        ("text"@, json::JsonView::Text(t@)),
    ]);
    let entry = inner.done();
    let ghost shown = entry@;
    let mut list: Vec<Json> = Vec::new();
    list.push(entry);
    proof {
        assert(json::json_views(list@) =~= seq![shown]);
    }
    let fields = ObjectBuilder::new().with("type", Json::text("message")).with(
        "role",
        Json::text(response_role(role)),
    ).with("content", json::array(list));
    assert(fields@ =~= seq![
        ("type"@, json::JsonView::Text("message"@)),
        ("role"@, json::JsonView::Text(role_name(role))),
        ("content"@, json::JsonView::Array(seq![shown])),
    ]);
    fields.done()
}

fn call_entry(id: &str, name: &str, arguments: &Json, custom: bool) -> (r: Json)
    ensures
        r@ == (if custom {
            json::JsonView::Object(
                seq![
                    ("type"@, json::JsonView::Text("custom_tool_call"@)),
                    ("call_id"@, json::JsonView::Text(id@)),
                    ("name"@, json::JsonView::Text(name@)),
                    ("input"@, json::JsonView::Text(call_text(arguments@))),
                ],
            )
        } else {
            json::JsonView::Object(
                seq![
                    ("type"@, json::JsonView::Text("function_call"@)),
                    ("call_id"@, json::JsonView::Text(id@)),
                    ("name"@, json::JsonView::Text(name@)),
                    ("arguments"@, json::JsonView::Text(json::json_spelling(arguments@))),
                ],
            )
        }),
{
    if custom {
        let fields = ObjectBuilder::new().with("type", Json::text("custom_tool_call")).with(
            "call_id",
            Json::text(id),
        ).with("name", Json::text(name)).with(
            "input",
            Json::Text(response_text_input(arguments)),
        );
        assert(fields@ =~= seq![
            ("type"@, json::JsonView::Text("custom_tool_call"@)),
            ("call_id"@, json::JsonView::Text(id@)),
            ("name"@, json::JsonView::Text(name@)),
            ("input"@, json::JsonView::Text(call_text(arguments@))),
        ]);
        fields.done()
    } else {
        let fields = ObjectBuilder::new().with("type", Json::text("function_call")).with(
            "call_id",
            Json::text(id),
        ).with("name", Json::text(name)).with("arguments", Json::Text(json::spell_json(arguments)));
        assert(fields@ =~= seq![
            ("type"@, json::JsonView::Text("function_call"@)),
            ("call_id"@, json::JsonView::Text(id@)),
            ("name"@, json::JsonView::Text(name@)),
            ("arguments"@, json::JsonView::Text(json::json_spelling(arguments@))),
        ]);
        fields.done()
    }
}

fn result_entry(call_id: &str, output: &str) -> (r: Json)
    ensures
        r@ == json::JsonView::Object(
            seq![
                ("type"@, json::JsonView::Text("function_call_output"@)),
                ("call_id"@, json::JsonView::Text(call_id@)),
                ("output"@, json::JsonView::Text(output@)),
            ],
        ),
{
    let fields = ObjectBuilder::new().with("type", Json::text("function_call_output")).with(
        "call_id",
        Json::text(call_id),
    ).with("output", Json::text(output));
    assert(fields@ =~= seq![
        ("type"@, json::JsonView::Text("function_call_output"@)),
        ("call_id"@, json::JsonView::Text(call_id@)),
        ("output"@, json::JsonView::Text(output@)),
    ]);
    fields.done()
}

fn part_to_entry(
    part: &MessagePart,
    role: Role,
    provider_id: ProviderId,
    tools: &[ToolDefinition],
    freeform: bool,
) -> (r: Option<Json>)
    ensures
        part_entry(part@, role, provider_id, tools@, freeform) == (match r {
            Some(v) => Some(v@),
            None => None,
        }),
{
    if let Some(kept) = &part.provider_data {
        if kept.provider_id == provider_id {
            return Some(kept.data.clone());
        }
    }
    proof {
        assert(part_entry(part@, role, provider_id, tools@, freeform) == content_entry(
            part@.content,
            role,
            tools@,
            freeform,
        ));
    }
    match &part.content {
        None => None,
        Some(MessagePartContent::Reasoning { .. }) => None,
        Some(MessagePartContent::Text { text: t }) => {
            let entry = text_entry(role, t.as_str());
            proof {
                assert(content_entry(part@.content, role, tools@, freeform) == Some(entry@));
            }
            Some(entry)
        },
        Some(MessagePartContent::ToolCall { id, name, arguments }) => {
            let custom = any_freeform(tools, name.as_str(), freeform);
            let entry = call_entry(id.as_str(), name.as_str(), arguments, custom);
            proof {
                assert(content_entry(part@.content, role, tools@, freeform) == Some(entry@));
            }
            Some(entry)
        },
        Some(MessagePartContent::ToolResult { call_id, name, result }) => {
            proof {
                reveal_strlit("");
                assert(""@ =~= Seq::<char>::empty());
            }
            let output = match result.content() {
                Some(c) => c,
                None => "",
            };
            proof {
                assert(output@ =~= output_text(result@));
            }
            let entry = result_entry(call_id.as_str(), output);
            proof {
                assert(content_entry(part@.content, role, tools@, freeform) == Some(entry@));
            }
            Some(entry)
        },
    }
}

/// The entries of a conversation in a request.
pub fn responses_input(
    messages: &[Message],
    provider_id: ProviderId,
    tools: &[ToolDefinition],
    freeform: bool,
) -> (r: Vec<Json>)
    ensures
        json::json_views(r@) == conversation(
            model::message_views(messages@),
            provider_id,
            tools@,
            freeform,
        ),
{
    let ghost all = model::message_views(messages@);
    let mut out: Vec<Json> = Vec::new();
    let mut i: usize = 0;
    proof {
        assert(all.take(0) =~= Seq::empty());
        assert(json::json_views(out@) =~= Seq::empty());
    }
    while i < messages.len()
        invariant
            i <= messages@.len(),
            all == model::message_views(messages@),
            json::json_views(out@) == conversation(
                all.take(i as int),
                provider_id,
                tools@,
                freeform,
            ),
        decreases messages@.len() - i,
    {
        let message = &messages[i];
        let ghost parts = model::part_views(message.content@);
        let ghost start = json::json_views(out@);
        let mut j: usize = 0;
        proof {
            assert(all.take(i + 1).drop_last() =~= all.take(i as int));
            assert(all.take(i + 1).last() == message@);
            assert(parts.take(0) =~= Seq::empty());
            assert(start + Seq::<json::JsonView>::empty() =~= start);
        }
        while j < message.content.len()
            invariant
                j <= message.content@.len(),
                parts == model::part_views(message.content@),
                json::json_views(out@) == start + part_entries(
                    parts.take(j as int),
                    message.role,
                    provider_id,
                    tools@,
                    freeform,
                ),
            decreases message.content@.len() - j,
        {
            let ghost before = json::json_views(out@);
            proof {
                assert(parts.take(j + 1).drop_last() =~= parts.take(j as int));
                assert(parts.take(j + 1).last() == message.content@[j as int]@);
            }
            if let Some(entry) = part_to_entry(
                &message.content[j],
                message.role,
                provider_id,
                tools,
                freeform,
            ) {
                let ghost shown = entry@;
                out.push(entry);
                proof {
                    assert(json::json_views(out@) =~= before.push(shown));
                    assert(json::json_views(out@) =~= start + part_entries(
                        parts.take(j + 1),
                        message.role,
                        provider_id,
                        tools@,
                        freeform,
                    ));
                }
            }
            j += 1;
        }
        proof {
            assert(parts.take(j as int) =~= parts);
        }
        i += 1;
    }
    proof {
        assert(all.take(i as int) =~= all);
    }
    out
}

/// The body of a request: streamed, and without anything stored at the provider.
pub fn responses_body(
    model_name: &str,
    messages: &[Message],
    tools: &[ToolDefinition],
    provider_id: ProviderId,
    freeform: bool,
) -> (r: Json)
    ensures
        r@ == request_body(
            model_name@,
            model::message_views(messages@),
            provider_id,
            tools@,
            freeform,
        ),
{
    let input = json::array(responses_input(messages, provider_id, tools, freeform));
    let mut list: Vec<Json> = Vec::new();
    let mut i: usize = 0;
    while i < tools.len()
        invariant
            i <= tools@.len(),
            list@.len() == i,
            forall|j: int| 0 <= j < i ==> (#[trigger] list@[j])@ == tool_entry(tools@[j], freeform),
        decreases tools@.len() - i,
    {
        list.push(responses_tool(&tools[i], freeform));
        i += 1;
    }
    let ghost entries = tools@.map_values(|t: ToolDefinition| tool_entry(t, freeform));
    proof {
        assert(json::json_views(list@) =~= entries);
    }
    let reasoning = ObjectBuilder::new().with("summary", Json::text("auto")).with(
        "effort",
        Json::text("high"),
    );
    let ghost how = seq![
        ("summary"@, json::JsonView::Text("auto"@)),
        ("effort"@, json::JsonView::Text("high"@)),
    ];
    assert(reasoning@ =~= how);
    let mut wanted: Vec<Json> = Vec::new();
    wanted.push(Json::text("reasoning.encrypted_content"));
    let ghost also = seq![json::JsonView::Text("reasoning.encrypted_content"@)];
    proof {
        assert(json::json_views(wanted@) =~= also);
    }
    let fields = ObjectBuilder::new().with("model", Json::text(model_name)).with(
        "input",
        input,
    ).with("tools", json::array(list)).with("stream", Json::Bool(true)).with(
        "store",
        Json::Bool(false),
    ).with("include", json::array(wanted)).with("reasoning", reasoning.done());
    assert(fields@ =~= seq![
        ("model"@, json::JsonView::Text(model_name@)),
        ("input"@, input@),
        ("tools"@, json::JsonView::Array(entries)),
        ("stream"@, json::JsonView::Bool(true)),
        ("store"@, json::JsonView::Bool(false)),
        ("include"@, json::JsonView::Array(also)),
        ("reasoning"@, json::JsonView::Object(how)),
    ]);
    fields.done()
}

// ---------------------------------------------------------------------------
// The stream of an answer
// ---------------------------------------------------------------------------

/// What a line of a streamed answer holds.
pub enum LineData {
    Nothing,
    Done,
    Event(String),
}

/// The event that a line holds: the text behind `data:`, where there is one.
pub open spec fn line_event(line: Seq<u8>) -> Option<Seq<char>> {
    let shown = text::trimmed(bytes::lossy(line));
    if text::starts_with(shown, "data:"@) {
        let data = text::trimmed(shown.skip(5));
        if data.len() == 0 {
            None
        } else {
            Some(data)
        }
    } else {
        None
    }
}

/// Reads one line of a streamed answer.
pub fn read_line(line: &[u8]) -> (r: LineData)
    ensures
        match line_event(line@) {
            None => r is Nothing,
            Some(data) => if data == "[DONE]"@ {
                r is Done
            } else {
                r matches LineData::Event(s) && s@ == data
            },
        },
{
    let whole = bytes::lossy_text(line);
    let shown = text::trim(whole.as_str());
    if !text::begins(shown, "data:") {
        return LineData::Nothing;
    }
    proof {
        reveal_strlit("data:");
        assert("data:"@.len() == 5);
    }
    let cs = text::to_chars(shown);
    let rest = text::from_chars(vstd::slice::slice_subrange(cs.as_slice(), 5, cs.len()));
    proof {
        assert(rest@ =~= shown@.skip(5));
    }
    let data = text::trim(rest.as_str());
    if data.is_empty() {
        LineData::Nothing
    } else if text::same_text(data, "[DONE]") {
        LineData::Done
    } else {
        LineData::Event(text::owned(data))
    }
}

/// A streamed answer on its way.
pub struct ResponseStream {
    pub buffer: Vec<u8>,
    pub items: BTreeMap<u32, Json>,
    pub saw_tool_call: bool,
    pub done: bool,
}

/// What one step of reading an answer gave.
pub enum StreamStep {
    /// No complete line is there.
    NeedMore,
    /// The provider has ended the answer.
    Ended,
    Events(Vec<ProviderEvent>),
    /// The event sets a field of an item that cannot have fields.
    Stuck,
}

impl ResponseStream {
    pub open spec fn answer(self) -> Answer {
        Answer { items: item_views(self.items@), saw_tool_call: self.saw_tool_call }
    }

    pub fn new() -> (r: Self)
        ensures
            r.buffer@ == Seq::<u8>::empty(),
            r.answer() == (Answer { items: Map::empty(), saw_tool_call: false }),
            !r.done,
    {
        let r = ResponseStream {
            buffer: Vec::new(),
            items: BTreeMap::new(),
            saw_tool_call: false,
            done: false,
        };
        proof {
            assert(r.answer().items =~= Map::empty());
        }
        r
    }

    /// Takes in bytes that have arrived.
    pub fn push_chunk(&mut self, chunk: &[u8])
        ensures
            final(self).buffer@ == old(self).buffer@ + chunk@,
            final(self).answer() == old(self).answer(),
            final(self).done == old(self).done,
    {
        bytes::extend(&mut self.buffer, chunk);
    }

    /// Takes in that no more bytes will arrive: an unfinished line is completed.
    /// Says whether anything is left to read.
    pub fn finish_input(&mut self) -> (more: bool)
        ensures
            more == (old(self).buffer@.len() > 0),
            final(self).buffer@ == (if more {
                old(self).buffer@.push(10u8)
            } else {
                old(self).buffer@
            }),
            final(self).answer() == old(self).answer(),
            final(self).done == old(self).done,
    {
        if self.buffer.len() == 0 {
            return false;
        }
        self.buffer.push(10u8);
        true
    }

    /// Reads the next complete line.
    pub fn step(&mut self, provider_id: ProviderId, tools: &[ToolDefinition]) -> (r: model::Result<
        StreamStep,
    >)
        ensures
            ({
                let end = bytes::byte_index(old(self).buffer@, 10);
                let line = old(self).buffer@.take(end + 1);
                if end >= old(self).buffer@.len() {
                    &&& r matches Ok(StreamStep::NeedMore)
                    &&& final(self).buffer@ == old(self).buffer@
                    &&& final(self).answer() == old(self).answer()
                    &&& final(self).done == old(self).done
                } else {
                    &&& final(self).buffer@ == old(self).buffer@.skip(end + 1)
                    &&& match line_event(line) {
                        None => {
                            &&& r matches Ok(StreamStep::Events(events))
                            &&& events@.len() == 0
                            &&& final(self).answer() == old(self).answer()
                            &&& final(self).done == old(self).done
                        },
                        Some(data) => if data == "[DONE]"@ {
                            &&& r matches Ok(StreamStep::Ended)
                            &&& final(self).done
                            &&& final(self).answer() == old(self).answer()
                        } else {
                            &&& final(self).done == old(self).done
                            &&& match json::json_parse(data) {
                                Err(m) => {
                                    &&& r is Err && r->Err_0@ == model::ErrorView::Provider(
                                        "invalid OpenAI Responses event: "@ + m,
                                    )
                                    &&& final(self).answer() == old(self).answer()
                                },
                                Ok(event) => if !can_respond(event, old(self).answer().items) {
                                    &&& r matches Ok(StreamStep::Stuck)
                                    &&& final(self).answer() == old(self).answer()
                                } else {
                                    let wanted = responded(
                                        event,
                                        provider_id,
                                        tools@,
                                        old(self).answer(),
                                    );
                                    &&& final(self).answer() == wanted.0
                                    &&& match wanted.1 {
                                        Ok(events) => r matches Ok(StreamStep::Events(list))
                                            && model::event_views(list@) == events,
                                        Err(m) => r is Err && r->Err_0@
                                            == model::ErrorView::Provider(m),
                                    }
                                },
                            }
                        },
                    }
                }
            }),
    {
        let line = match bytes::take_line(&mut self.buffer) {
            Some(line) => line,
            None => return Ok(StreamStep::NeedMore),
        };
        let data = match read_line(line.as_slice()) {
            LineData::Nothing => return Ok(StreamStep::Events(Vec::new())),
            LineData::Done => {
                self.done = true;
                return Ok(StreamStep::Ended);
            },
            LineData::Event(data) => data,
        };
        let event = match json::parse_json(data.as_str()) {
            Ok(v) => v,
            Err(m) => return Err(
                Error::Provider(text::cat2("invalid OpenAI Responses event: ", m.as_str())),
            ),
        };
        if !accepts_event(&event, &self.items) {
            return Ok(StreamStep::Stuck);
        }
        match response_events_with_tools(
            event,
            provider_id,
            tools,
            &mut self.items,
            &mut self.saw_tool_call,
        ) {
            Ok(events) => Ok(StreamStep::Events(events)),
            Err(e) => Err(e),
        }
    }
}

// ---------------------------------------------------------------------------
// The provider
// ---------------------------------------------------------------------------

/// Where and how a provider is reached.
pub struct OpenAiProvider {
    pub id: ProviderId,
    pub api_key: String,
    pub base_url: String,
    pub freeform: bool,
}

pub open spec fn without_slashes(url: Seq<char>) -> Seq<char> {
    text::trim_end_by(url, |c: char| c == '/')
}

impl OpenAiProvider {
    pub fn new(id: ProviderId, api_key: String) -> (r: Self)
        ensures
            r.id == id,
            r.api_key == api_key,
            r.base_url@ == "https://openrouter.ai/api/v1"@,
            !r.freeform,
    {
        OpenAiProvider {
            id,
            api_key,
            base_url: text::owned("https://openrouter.ai/api/v1"),
            freeform: false,
        }
    }

    /// The provider under another address; slashes at its end are dropped.
    pub fn with_base_url(self, base_url: &str) -> (r: Self)
        ensures
            r.id == self.id,
            r.api_key == self.api_key,
            r.base_url@ == without_slashes(base_url@),
            r.freeform == self.freeform,
    {
        OpenAiProvider {
            id: self.id,
            api_key: self.api_key,
            base_url: text::owned(text::trim_end_char(base_url, '/')),
            freeform: self.freeform,
        }
    }

    pub fn with_api_key(self, api_key: String) -> (r: Self)
        ensures
            r.id == self.id,
            r.api_key == api_key,
            r.base_url == self.base_url,
            r.freeform == self.freeform,
    {
        OpenAiProvider {
            id: self.id,
            api_key,
            base_url: self.base_url,
            freeform: self.freeform,
        }
    }

    pub fn with_freeform(self, freeform: bool) -> (r: Self)
        ensures
            r.id == self.id,
            r.api_key == self.api_key,
            r.base_url == self.base_url,
            r.freeform == freeform,
    {
        OpenAiProvider { id: self.id, api_key: self.api_key, base_url: self.base_url, freeform }
    }

    /// The address of a service of the provider.
    pub fn endpoint(&self, path: &str) -> (r: String)
        ensures
            r@ == self.base_url@ + path@,
    {
        text::cat2(self.base_url.as_str(), path)
    }

    /// The error for an answer that reports no success.
    pub fn status_error(&self, status: &str, body: &str) -> (r: Error)
        ensures
            r@ == model::ErrorView::Provider("OpenAI returned "@ + status@ + ": "@ + body@),
    {
        Error::Provider(text::cat4("OpenAI returned ", status, ": ", body))
    }
}

pub type ProviderOpenAI = OpenAiProvider;

pub type OpenAIProvider = OpenAiProvider;

pub type ProviderOpenAIPlugin = OpenAiProviderPlugin;

pub type OpenAIProviderPlugin = OpenAiProviderPlugin;

/// The plugin that offers the provider once it is configured.
pub struct OpenAiProviderPlugin {
    pub id: PluginId,
    pub provider_id: ProviderId,
}

impl OpenAiProviderPlugin {
    /// The plugin; its provider has the same identifier in every process.
    pub fn new() -> (r: Self)
        ensures
            ids::is_random(r.id.0),
            r.provider_id.0 == ids::uuid_of_url(
                vstd::utf8::encode_utf8("airicode/provider/openai"@),
            ),
    {
        OpenAiProviderPlugin {
            id: PluginId(ids::fresh()),
            provider_id: ProviderId(ids::url_uuid("airicode/provider/openai".as_bytes())),
        }
    }

    pub fn provider_id(&self) -> (r: ProviderId)
        ensures
            r == self.provider_id,
    {
        self.provider_id
    }

    pub fn name(&self) -> (r: &'static str)
        ensures
            r@ == "provider_openai"@,
    {
        "provider_openai"
    }

    /// The variable of the environment that holds the key.
    pub fn key_variable(&self, config: Option<&Json>) -> (r: String)
        ensures
            r@ == (match json::text_of(json::opt_field(json::opt_view(config), "api_key_env"@)) {
                Some(name) => name,
                None => "OPENAI_API_KEY"@,
            }),
    {
        match opt_owned(opt_get(config, "api_key_env")) {
            Some(name) => name,
            None => text::owned("OPENAI_API_KEY"),
        }
    }

    /// The provider that a configuration describes, with the key that was found.
    pub fn configure(&self, config: Option<&Json>, key: Option<String>, freeform: bool) -> (r:
        model::Result<OpenAiProvider>)
        ensures
            match key {
                None => r is Err && r->Err_0@ == model::ErrorView::Config(
                    (match json::text_of(
                        json::opt_field(json::opt_view(config), "api_key_env"@),
                    ) {
                        Some(name) => name,
                        None => "OPENAI_API_KEY"@,
                    }) + " is not set"@,
                ),
                Some(k) => {
                    &&& r is Ok && r->Ok_0.id == self.provider_id && r->Ok_0.api_key == k
                    &&& r->Ok_0.freeform == freeform
                    &&& r->Ok_0.base_url@ == (match json::text_of(
                        json::opt_field(json::opt_view(config), "base_url"@),
                    ) {
                        Some(url) => without_slashes(url),
                        None => "https://openrouter.ai/api/v1"@,
                    })
                },
            },
    {
        let key = match key {
            Some(k) => k,
            None => return Err(
                Error::Config(text::cat2(self.key_variable(config).as_str(), " is not set")),
            ),
        };
        let provider = OpenAiProvider::new(self.provider_id, key).with_freeform(freeform);
        match opt_owned(opt_get(config, "base_url")) {
            Some(url) => Ok(provider.with_base_url(url.as_str())),
            None => Ok(provider),
        }
    }
}

/// A text is sent as a message that tells who speaks and what is said. What a tool says
/// is sent as if the user said it; the other roles are told apart.
pub proof fn law_texts_are_sent_with_their_speaker(
    t: Seq<char>,
    tools: Seq<ToolDefinition>,
    freeform: bool,
    role: Role,
)
    ensures
        content_entry(Some(model::ContentView::Text(t)), role, tools, freeform) matches Some(e)
            ==> {
            &&& json::text_at(e, "type"@) == Some("message"@)
            &&& role == Role::System ==> json::text_at(e, "role"@) == Some("system"@)
            &&& role == Role::User ==> json::text_at(e, "role"@) == Some("user"@)
            &&& role == Role::Assistant ==> json::text_at(e, "role"@) == Some("assistant"@)
            &&& role == Role::Tool ==> json::text_at(e, "role"@) == Some("user"@)
            &&& json::field(e, "content"@) matches Some(json::JsonView::Array(items))
            &&& items.len() == 1
            &&& json::text_at(items[0], "type"@) == Some("input_text"@)
            &&& json::text_at(items[0], "text"@) == Some(t)
        },
        content_entry(Some(model::ContentView::Text(t)), role, tools, freeform) is Some,
        content_entry(Some(model::ContentView::Reasoning(t)), role, tools, freeform) is None,
        content_entry(None, role, tools, freeform) is None,
        "system"@ != "user"@,
        "system"@ != "assistant"@,
        "user"@ != "assistant"@,
{
    reveal_strlit("type");
    reveal_strlit("role");
    reveal_strlit("content");
    reveal_strlit("text");
    reveal_strlit("system");
    reveal_strlit("user");
    reveal_strlit("assistant");
    assert("type"@[1] == 'y' && "role"@[1] == 'o' && "text"@[1] == 'e' && "content"@.len() == 7);
    assert("system"@.len() == 6 && "user"@.len() == 4 && "assistant"@.len() == 9);
    reveal_with_fuel(json::field_from, 4);
    let e = content_entry(Some(model::ContentView::Text(t)), role, tools, freeform)->0;
    let items = json::field(e, "content"@)->0->Array_0;
    assert(items.len() == 1);
    assert(json::field(items[0], "text"@) == Some(json::JsonView::Text(t)));
}

/// A call is sent with its identifier, its name and its arguments, and a result with the
/// identifier of its call and all that came out, whether it went well or not.
pub proof fn law_calls_and_results_are_sent(
    id: Seq<char>,
    name: Seq<char>,
    arguments: json::JsonView,
    output: Seq<char>,
    role: Role,
    tools: Seq<ToolDefinition>,
    freeform: bool,
)
    ensures
        content_entry(
            Some(model::ContentView::ToolCall(id, name, arguments)),
            role,
            tools,
            freeform,
        ) matches Some(e) ==> {
            &&& json::text_at(e, "call_id"@) == Some(id)
            &&& json::text_at(e, "name"@) == Some(name)
            &&& (forall|i: int|
                0 <= i < tools.len() && (#[trigger] tools[i]).name@ == name ==> !freeform
                    || tools[i].freeform is None) ==> json::text_at(e, "type"@) == Some(
                "function_call"@,
            ) && json::text_at(e, "arguments"@) == Some(json::json_spelling(arguments))
            &&& (exists|i: int|
                0 <= i < tools.len() && (#[trigger] tools[i]).name@ == name && freeform
                    && tools[i].freeform is Some) ==> json::text_at(e, "type"@) == Some(
                "custom_tool_call"@,
            ) && (arguments matches json::JsonView::Text(s) ==> json::text_at(e, "input"@) == Some(
                s,
            ))
        },
        content_entry(
            Some(model::ContentView::ToolCall(id, name, arguments)),
            role,
            tools,
            freeform,
        ) is Some,
        ({
            let good = content_entry(
                Some(model::ContentView::ToolResult(id, name, model::OutputView::Success(output))),
                role,
                tools,
                freeform,
            );
            let bad = content_entry(
                Some(model::ContentView::ToolResult(id, name, model::OutputView::Failure(output))),
                role,
                tools,
                freeform,
            );
            &&& good is Some && bad is Some
            &&& json::text_at(good->0, "type"@) == Some("function_call_output"@)
            &&& json::text_at(good->0, "call_id"@) == Some(id)
            &&& json::text_at(good->0, "output"@) == Some(output)
            &&& json::text_at(bad->0, "call_id"@) == Some(id)
            &&& json::text_at(bad->0, "output"@) == Some(output)
        }),
{
    reveal_strlit("type");
    reveal_strlit("call_id");
    reveal_strlit("name");
    reveal_strlit("arguments");
    reveal_strlit("input");
    reveal_strlit("output");
    assert("type"@[0] == 't' && "name"@[0] == 'n' && "call_id"@.len() == 7 && "arguments"@.len()
        == 9 && "input"@.len() == 5 && "output"@.len() == 6);
    reveal_with_fuel(json::field_from, 5);
}

/// Messages are sent one by one and in their order, and so are their parts; what is not
/// sent leaves no trace.
pub proof fn law_messages_are_sent_in_order(
    a: Seq<model::MessageView>,
    b: Seq<model::MessageView>,
    m: model::MessageView,
    provider_id: ProviderId,
    tools: Seq<ToolDefinition>,
    freeform: bool,
)
    ensures
        conversation(a + b, provider_id, tools, freeform) == conversation(
            a,
            provider_id,
            tools,
            freeform,
        ) + conversation(b, provider_id, tools, freeform),
        conversation(seq![m], provider_id, tools, freeform) == part_entries(
            m.content,
            m.role,
            provider_id,
            tools,
            freeform,
        ),
    decreases b.len(),
{
    if b.len() == 0 {
        assert(a + b =~= a);
        assert(conversation(a, provider_id, tools, freeform) + conversation(
            b,
            provider_id,
            tools,
            freeform,
        ) =~= conversation(a, provider_id, tools, freeform));
    } else {
        law_messages_are_sent_in_order(a, b.drop_last(), m, provider_id, tools, freeform);
        assert((a + b).drop_last() =~= a + b.drop_last());
        assert((a + b).last() == b.last());
        assert(conversation(a + b, provider_id, tools, freeform) =~= conversation(
            a,
            provider_id,
            tools,
            freeform,
        ) + conversation(b, provider_id, tools, freeform));
    }
    assert(seq![m].drop_last() =~= Seq::empty());
    reveal_with_fuel(conversation, 2);
    assert(conversation(seq![m], provider_id, tools, freeform) =~= part_entries(
        m.content,
        m.role,
        provider_id,
        tools,
        freeform,
    ));
}

/// The parts of a message are sent one by one and in their order: as they came from this
/// provider, or else by what they hold.
pub proof fn law_parts_are_sent_in_order(
    a: Seq<model::PartView>,
    b: Seq<model::PartView>,
    part: model::PartView,
    role: Role,
    provider_id: ProviderId,
    tools: Seq<ToolDefinition>,
    freeform: bool,
)
    ensures
        part_entries(a + b, role, provider_id, tools, freeform) == part_entries(
            a,
            role,
            provider_id,
            tools,
            freeform,
        ) + part_entries(b, role, provider_id, tools, freeform),
        part.provider_data matches Some(d) ==> d.0 == provider_id ==> part_entries(
            seq![part],
            role,
            provider_id,
            tools,
            freeform,
        ) == seq![d.1],
        part.provider_data is None ==> (content_entry(part.content, role, tools, freeform) matches Some(
            e,
        ) ==> part_entries(seq![part], role, provider_id, tools, freeform) == seq![e]),
        part.provider_data is None && content_entry(part.content, role, tools, freeform) is None
            ==> part_entries(seq![part], role, provider_id, tools, freeform).len() == 0,
    decreases b.len(),
{
    let all = part_entries(a + b, role, provider_id, tools, freeform);
    let first = part_entries(a, role, provider_id, tools, freeform);
    if b.len() == 0 {
        assert(a + b =~= a);
        assert(first + part_entries(b, role, provider_id, tools, freeform) =~= first);
    } else {
        law_parts_are_sent_in_order(a, b.drop_last(), part, role, provider_id, tools, freeform);
        assert((a + b).drop_last() =~= a + b.drop_last());
        assert((a + b).last() == b.last());
        assert(all =~= first + part_entries(b, role, provider_id, tools, freeform));
    }
    assert(seq![part].drop_last() =~= Seq::empty());
    reveal_with_fuel(part_entries, 2);
    let one = part_entries(seq![part], role, provider_id, tools, freeform);
    if let Some(e) = part_entry(part, role, provider_id, tools, freeform) {
        assert(one =~= seq![e]);
    }
}

/// A request names its model, holds the whole conversation and offers every tool; it asks
/// for a streamed answer that the service does not keep.
pub proof fn law_requests_hold_everything(
    model_name: Seq<char>,
    messages: Seq<model::MessageView>,
    provider_id: ProviderId,
    tools: Seq<ToolDefinition>,
    freeform: bool,
    i: int,
)
    requires
        0 <= i < tools.len(),
    ensures
        ({
            let body = request_body(model_name, messages, provider_id, tools, freeform);
            &&& json::text_at(body, "model"@) == Some(model_name)
            &&& json::field(body, "input"@) == Some(
                json::JsonView::Array(conversation(messages, provider_id, tools, freeform)),
            )
            &&& json::field(body, "stream"@) == Some(json::JsonView::Bool(true))
            &&& json::field(body, "store"@) == Some(json::JsonView::Bool(false))
            &&& json::field(body, "tools"@) matches Some(json::JsonView::Array(offered))
            &&& offered.len() == tools.len()
            &&& json::text_at(offered[i], "name"@) == Some(tools[i].name@)
            &&& json::text_at(offered[i], "description"@) == Some(tools[i].description@)
            &&& !freeform || tools[i].freeform is None ==> json::text_at(offered[i], "type"@)
                == Some("function"@) && json::field(offered[i], "parameters"@) == Some(
                tools[i].schema@,
            )
            &&& freeform && tools[i].freeform is Some ==> json::text_at(offered[i], "type"@)
                == Some("custom"@)
        }),
{
    reveal_strlit("model");
    reveal_strlit("input");
    reveal_strlit("tools");
    reveal_strlit("stream");
    reveal_strlit("store");
    reveal_strlit("type");
    reveal_strlit("name");
    reveal_strlit("description");
    reveal_strlit("parameters");
    assert("model"@[0] == 'm' && "input"@[0] == 'i' && "tools"@[0] == 't' && "store"@[0] == 's'
        && "stream"@.len() == 6 && "store"@.len() == 5);
    assert("type"@[0] == 't' && "name"@[0] == 'n' && "description"@.len() == 11
        && "parameters"@.len() == 10);
    reveal_with_fuel(json::field_from, 6);
    let body = request_body(model_name, messages, provider_id, tools, freeform);
    let offered = json::field(body, "tools"@)->0->Array_0;
    assert(offered[i] == tool_entry(tools[i], freeform));
}

proof fn lemma_kinds_differ()
    ensures
        "response.output_item.added"@ != "response.output_item.done"@,
        "response.output_text.delta"@ != "response.output_item.added"@,
        "response.output_text.delta"@ != "response.output_item.done"@,
        "response.reasoning_summary_text.delta"@.len() == 37,
        "response.function_call_arguments.delta"@.len() == 38,
        "response.custom_tool_call_input.delta"@.len() == 37,
        "response.custom_tool_call_input.done"@.len() == 36,
        "response.output_item.added"@.len() == 26,
        "response.output_item.done"@.len() == 25,
        "response.output_text.delta"@.len() == 26,
        "response.completed"@.len() == 18,
        "response.incomplete"@.len() == 19,
        "response.failed"@.len() == 15,
        "error"@.len() == 5,
        "response.reasoning_summary_text.delta"@ != "response.custom_tool_call_input.delta"@,
{
    reveal_strlit("response.output_item.added");
    reveal_strlit("response.output_item.done");
    reveal_strlit("response.output_text.delta");
    reveal_strlit("response.reasoning_summary_text.delta");
    reveal_strlit("response.function_call_arguments.delta");
    reveal_strlit("response.custom_tool_call_input.delta");
    reveal_strlit("response.custom_tool_call_input.done");
    reveal_strlit("response.completed");
    reveal_strlit("response.incomplete");
    reveal_strlit("response.failed");
    reveal_strlit("error");
    assert("response.output_item.added"@.len() == 26 && "response.output_item.done"@.len() == 25);
    assert("response.output_item.added"@[16] == 'i' && "response.output_text.delta"@[16] == 't');
    assert("response.reasoning_summary_text.delta"@[9] == 'r');
    assert("response.custom_tool_call_input.delta"@[9] == 'c');
}

/// What is said, thought and asked of tools is passed on as it arrives, each as what it
/// is; the calls with the identifier and the name that were told before.
pub proof fn law_pieces_are_passed_on(
    event: json::JsonView,
    kind: Seq<char>,
    delta: Seq<char>,
    index: u32,
    provider_id: ProviderId,
    tools: Seq<ToolDefinition>,
    answer: Answer,
)
    requires
        json::text_at(event, "type"@) == Some(kind),
        json::text_at(event, "delta"@) == Some(delta),
        delta.len() > 0,
        json::field(event, "output_index"@) == Some(
            json::JsonView::Number(json::NumberView::Unsigned(index as u64)),
        ),
    ensures
        ({
            let (after, r) = responded(event, provider_id, tools, answer);
            let id = if answer.items.contains_key(index) {
                json::text_at(answer.items[index], "call_id"@)
            } else {
                None
            };
            let name = if answer.items.contains_key(index) {
                json::text_at(answer.items[index], "name"@)
            } else {
                None
            };
            &&& kind == "response.output_text.delta"@ ==> after == answer && r == Ok::<
                Seq<model::EventView>,
                Seq<char>,
            >(seq![model::EventView::TextDelta(delta)])
            &&& kind == "response.reasoning_summary_text.delta"@ ==> after == answer && r == Ok::<
                Seq<model::EventView>,
                Seq<char>,
            >(seq![model::EventView::ReasoningDelta(delta)])
            &&& kind == "response.function_call_arguments.delta"@ ==> after == answer && r == Ok::<
                Seq<model::EventView>,
                Seq<char>,
            >(seq![model::EventView::ToolCallDelta(index, id, name, delta)])
            &&& kind == "response.custom_tool_call_input.delta"@ ==> after == answer && r == Ok::<
                Seq<model::EventView>,
                Seq<char>,
            >(seq![model::EventView::CustomToolCallInputDelta(index, id, name, delta)])
        }),
{
    lemma_kinds_differ();
}

/// An item is kept under its place as soon as it is told. Once it is done it is passed
/// on under that place. A call of a tool is remembered.
pub proof fn law_items_are_kept_and_passed_on(
    event: json::JsonView,
    item: json::JsonView,
    index: u32,
    provider_id: ProviderId,
    tools: Seq<ToolDefinition>,
    answer: Answer,
)
    requires
        json::field(event, "item"@) == Some(item),
        json::field(event, "output_index"@) == Some(
            json::JsonView::Number(json::NumberView::Unsigned(index as u64)),
        ),
    ensures
        ({
            let (after, r) = responded(event, provider_id, tools, answer);
            let added = json::text_at(event, "type"@) == Some("response.output_item.added"@);
            let done = json::text_at(event, "type"@) == Some("response.output_item.done"@);
            let calls = json::text_at(item, "type"@) == Some("function_call"@) || json::text_at(
                item,
                "type"@,
            ) == Some("custom_tool_call"@);
            &&& added || done ==> after.items == answer.items.insert(index, item)
            &&& added || done ==> after.saw_tool_call == (answer.saw_tool_call || calls)
            &&& added ==> r == Ok::<Seq<model::EventView>, Seq<char>>(Seq::empty())
            &&& done ==> (item_part(provider_id, item, tools) matches Ok(part) ==> r == Ok::<
                Seq<model::EventView>,
                Seq<char>,
            >(seq![model::EventView::OutputPart(index, part)]))
            &&& done && item_part(provider_id, item, tools) is Err ==> r is Err
        }),
{
    lemma_kinds_differ();
}

/// An answer ends as the service says: it is complete, for the sake of calls or not, or it
/// was cut short for a reason, or it failed with a message. How much was used is told
/// before the end.
pub proof fn law_answers_end_as_told(
    event: json::JsonView,
    response: json::JsonView,
    usage: json::JsonView,
    input_tokens: u64,
    output_tokens: u64,
    total_tokens: u64,
    reason: Seq<char>,
    complaint: Seq<char>,
    provider_id: ProviderId,
    tools: Seq<ToolDefinition>,
    answer: Answer,
)
    requires
        json::field(event, "response"@) == Some(response),
        json::field(response, "usage"@) == Some(usage),
        json::field(usage, "input_tokens"@) == Some(
            json::JsonView::Number(json::NumberView::Unsigned(input_tokens)),
        ),
        json::field(usage, "output_tokens"@) == Some(
            json::JsonView::Number(json::NumberView::Unsigned(output_tokens)),
        ),
        json::field(usage, "total_tokens"@) == Some(
            json::JsonView::Number(json::NumberView::Unsigned(total_tokens)),
        ),
    ensures
        ({
            let (after, r) = responded(event, provider_id, tools, answer);
            let kind = json::text_at(event, "type"@);
            let used = model::EventView::Usage(Usage { input_tokens, output_tokens, total_tokens });
            let told = json::opt_field(json::field(response, "incomplete_details"@), "reason"@);
            let error = json::opt_field(json::field(response, "error"@), "message"@);
            &&& kind == Some("response.completed"@) ==> after == answer && r == Ok::<
                Seq<model::EventView>,
                Seq<char>,
            >(
                seq![
                    used,
                    model::EventView::Finished(
                        if answer.saw_tool_call {
                            model::FinishView::ToolCalls
                        } else {
                            model::FinishView::Stop
                        },
                    ),
                ],
            )
            &&& kind == Some("response.incomplete"@) && told == Some(json::JsonView::Text(reason))
                ==> r == Ok::<Seq<model::EventView>, Seq<char>>(
                seq![
                    used,
                    model::EventView::Finished(
                        if reason == "max_output_tokens"@ {
                            model::FinishView::Length
                        } else if reason == "content_filter"@ {
                            model::FinishView::ContentFilter
                        } else {
                            model::FinishView::Other(reason)
                        },
                    ),
                ],
            )
            &&& (kind == Some("response.failed"@) || kind == Some("error"@)) && error == Some(
                json::JsonView::Text(complaint),
            ) ==> r == Err::<Seq<model::EventView>, Seq<char>>(complaint)
        }),
{
    lemma_kinds_differ();
    let used = model::EventView::Usage(Usage { input_tokens, output_tokens, total_tokens });
    assert(seq![used].push(
        model::EventView::Finished(
            if answer.saw_tool_call {
                model::FinishView::ToolCalls
            } else {
                model::FinishView::Stop
            },
        ),
    ) =~= seq![
        used,
        model::EventView::Finished(
            if answer.saw_tool_call {
                model::FinishView::ToolCalls
            } else {
                model::FinishView::Stop
            },
        ),
    ]);
    assert(seq![used].push(model::EventView::Finished(cut_short(event))) =~= seq![
        used,
        model::EventView::Finished(cut_short(event)),
    ]);
}

/// A finished item says what its texts say, one behind the other; a thought says its
/// texts line by line. A call keeps its identifier, its name and what it is called with.
pub proof fn law_items_are_read(
    item: json::JsonView,
    entries: Seq<json::JsonView>,
    id: Seq<char>,
    name: Seq<char>,
    spelled: Seq<char>,
    arguments: json::JsonView,
    provider_id: ProviderId,
    tools: Seq<ToolDefinition>,
)
    ensures
        json::text_at(item, "type"@) == Some("message"@) && json::field(item, "content"@) == Some(
            json::JsonView::Array(entries),
        ) && text::concat_all(output_texts(entries)).len() > 0 ==> (item_part(
            provider_id,
            item,
            tools,
        ) matches Ok(part) && part.content == Some(
            model::ContentView::Text(text::concat_all(output_texts(entries))),
        )),
        json::text_at(item, "type"@) == Some("reasoning"@) && json::field(item, "summary"@) == Some(
            json::JsonView::Array(entries),
        ) && text::joined(summary_texts(entries), seq!['\n']).len() > 0 ==> (item_part(
            provider_id,
            item,
            tools,
        ) matches Ok(part) && part.content == Some(
            model::ContentView::Reasoning(text::joined(summary_texts(entries), seq!['\n'])),
        )),
        json::text_at(item, "type"@) == Some("function_call"@) && json::text_at(item, "call_id"@)
            == Some(id) && json::text_at(item, "name"@) == Some(name) && json::text_at(
            item,
            "arguments"@,
        ) == Some(spelled) && json::json_parse(spelled) == Ok::<json::JsonView, Seq<char>>(
            arguments,
        ) ==> (item_part(provider_id, item, tools) matches Ok(part) && part.content == Some(
            model::ContentView::ToolCall(id, name, arguments),
        )),
{
    reveal_strlit("message");
    reveal_strlit("reasoning");
    reveal_strlit("function_call");
    reveal_strlit("\n");
    assert("\n"@ =~= seq!['\n']);
    assert("message"@.len() == 7 && "reasoning"@.len() == 9 && "function_call"@.len() == 13);
}

/// Texts of an item keep their order. Of what a message holds, only what is put out is
/// text of it.
pub proof fn law_item_texts_keep_their_order(
    a: Seq<json::JsonView>,
    b: Seq<json::JsonView>,
    entry: json::JsonView,
    t: Seq<char>,
)
    ensures
        output_texts(a + b) == output_texts(a) + output_texts(b),
        summary_texts(a + b) == summary_texts(a) + summary_texts(b),
        json::text_at(entry, "text"@) == Some(t) ==> summary_texts(seq![entry]) == seq![t],
        json::text_at(entry, "text"@) == Some(t) && json::text_at(entry, "type"@) == Some(
            "output_text"@,
        ) ==> output_texts(seq![entry]) == seq![t],
        json::text_at(entry, "type"@) != Some("output_text"@) ==> output_texts(seq![entry]).len()
            == 0,
    decreases b.len(),
{
    if b.len() == 0 {
        assert(a + b =~= a);
        assert(output_texts(a) + output_texts(b) =~= output_texts(a));
        assert(summary_texts(a) + summary_texts(b) =~= summary_texts(a));
    } else {
        law_item_texts_keep_their_order(a, b.drop_last(), entry, t);
        assert((a + b).drop_last() =~= a + b.drop_last());
        assert((a + b).last() == b.last());
        assert(output_texts(a + b) =~= output_texts(a) + output_texts(b));
        assert(summary_texts(a + b) =~= summary_texts(a) + summary_texts(b));
    }
    assert(seq![entry].drop_last() =~= Seq::empty());
    reveal_with_fuel(output_texts, 2);
    reveal_with_fuel(summary_texts, 2);
    if json::text_at(entry, "text"@) == Some(t) {
        assert(summary_texts(seq![entry]) =~= seq![t]);
        if json::text_at(entry, "type"@) == Some("output_text"@) {
            assert(output_texts(seq![entry]) =~= seq![t]);
        }
    }
}

/// What is written freely for a tool becomes its input in the form that the tool reads.
pub proof fn law_free_input_takes_the_form_of_the_tool(input: Seq<char>, path: Seq<char>, content: Seq<char>)
    requires
        !path.contains('\n'),
        path.len() > 0,
        path.last() != '\r',
    ensures
        freeform_input(None, input) == Ok::<json::JsonView, Seq<char>>(json::JsonView::Text(input)),
        freeform_input(Some(FreeformParser::Command), input) matches Ok(v) && json::text_at(
            v,
            "command"@,
        ) == Some(input),
        freeform_input(Some(FreeformParser::Write), path + seq!['\n'] + content) matches Ok(v)
            && json::text_at(v, "path"@) == Some(path) && json::text_at(v, "content"@) == Some(
            content,
        ),
{
    tool_write::law_free_requests_are_read_back(path, content);
    tool_write::law_inputs_hold_path_and_content(path, content);
}

/// Slashes at the end of an address are taken off, and nothing else.
pub proof fn law_slashes_at_the_end_are_taken_off(url: Seq<char>)
    ensures
        without_slashes(url.push('/')) == without_slashes(url),
        url.len() == 0 || url.last() != '/' ==> without_slashes(url) == url,
{
    assert(url.push('/').drop_last() =~= url);
}

/// An item whose input is complete has that input and keeps all else.
pub proof fn law_complete_input_is_kept(
    fields: Seq<(Seq<char>, json::JsonView)>,
    input: Seq<char>,
    other: Seq<char>,
)
    ensures
        json::text_at(with_input(json::JsonView::Object(fields), input), "input"@) == Some(input),
        other != "input"@ ==> json::field(with_input(json::JsonView::Object(fields), input), other)
            == json::field(json::JsonView::Object(fields), other),
        json::text_at(with_input(json::JsonView::Null, input), "input"@) == Some(input),
{
    json::law_setting_a_field_keeps_the_others(
        fields,
        "input"@,
        json::JsonView::Text(input),
        other,
    );
    reveal_with_fuel(json::field_from, 2);
}

/// The tool that is meant is the first that has the name.
pub proof fn law_tools_are_found_by_name(
    tools: Seq<ToolDefinition>,
    name: Seq<char>,
    from: int,
    i: int,
)
    requires
        0 <= from <= tools.len(),
    ensures
        tool_from(tools, name, from) matches Some(k) ==> from <= k < tools.len()
            && tools[k].name@ == name && (from <= i < k ==> tools[i].name@ != name),
        tool_from(tools, name, from) is None && from <= i < tools.len() ==> tools[i].name@ != name,
    decreases tools.len() - from,
{
    if from < tools.len() && tools[from].name@ != name {
        law_tools_are_found_by_name(tools, name, from + 1, i);
    }
}

} // verus!
