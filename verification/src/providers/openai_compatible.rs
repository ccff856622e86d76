//! The chat-completions protocol: requests, and the events of a streamed answer.
use crate::json;
use crate::json::{Json, ObjectBuilder};
use crate::model;
use crate::model::{
    Error, FinishReason, Message, MessagePart, MessagePartContent, ProviderEvent, Role,
    ToolDefinition, Usage,
};
use crate::plugins::provider_openai;
use crate::plugins::registration;
use crate::plugins::registration::{Registration, RegistrationKind, RegistrationView};
use crate::providers::sse;
use crate::providers::sse::SseDecoder;
use crate::text;
use vstd::prelude::*;

verus! {

/// A model that a provider offers.
#[derive(Clone, Debug, PartialEq, Eq)]
pub struct Model {
    pub id: String,
    pub display_name: String,
}

pub open spec fn model_views(list: Seq<Model>) -> Seq<(Seq<char>, Seq<char>)> {
    Seq::new(list.len(), |i: int| (list[i].id@, list[i].display_name@))
}

/// Where and how a provider is reached.
pub struct OpenAiCompatible {
    pub id: String,
    pub base_url: String,
    pub api_key: String,
    pub headers: Vec<(String, String)>,
}

/// The models that a list of entries describes.
pub open spec fn listed_models(entries: Seq<json::JsonView>) -> Seq<(Seq<char>, Seq<char>)>
    decreases entries.len(),
{
    if entries.len() == 0 {
        Seq::empty()
    } else {
        let before = listed_models(entries.drop_last());
        let entry = entries.last();
        match json::text_at(entry, "id"@) {
            None => before,
            Some(id) => before.push(
                (
                    id,
                    match json::text_at(entry, "name"@) {
                        Some(name) => name,
                        None => id,
                    },
                ),
            ),
        }
    }
}

/// The headers of a request.
pub open spec fn request_headers(
    api_key: Seq<char>,
    headers: Seq<(Seq<char>, Seq<char>)>,
) -> Seq<(Seq<char>, Seq<char>)> {
    if api_key.len() == 0 {
        headers
    } else {
        seq![("authorization"@, "Bearer "@ + api_key)] + headers
    }
}

/// How an answer that reports no success is shown.
pub open spec fn status_text(status: Seq<char>, body: Seq<char>) -> Seq<char> {
    let body = text::trimmed(body);
    if body.len() == 0 {
        "HTTP "@ + status
    } else {
        "HTTP "@ + status + ": "@ + body
    }
}

impl OpenAiCompatible {
    pub fn new(id: &str, base_url: &str, api_key: String, headers: Vec<(String, String)>) -> (r: Self)
        ensures
            r.id@ == id@,
            r.base_url@ == provider_openai::without_slashes(base_url@),
            r.api_key == api_key,
            r.headers == headers,
    {
        OpenAiCompatible {
            id: text::owned(id),
            base_url: text::owned(text::trim_end_char(base_url, '/')),
            api_key,
            headers,
        }
    }

    /// The headers of a request.
    pub fn authenticated(&self) -> (r: Vec<(String, String)>)
        ensures
            model::pair_views(r@) == request_headers(
                self.api_key@,
                model::pair_views(self.headers@),
            ),
    {
        let mut r: Vec<(String, String)> = Vec::new();
        if !self.api_key.as_str().is_empty() {
            r.push((text::owned("authorization"), text::cat2("Bearer ", self.api_key.as_str())));
        }
        let ghost first = model::pair_views(r@);
        let ghost all = model::pair_views(self.headers@);
        let mut i: usize = 0;
        proof {
            assert(first + all.take(0) =~= first);
        }
        while i < self.headers.len()
            invariant
                i <= self.headers@.len(),
                all == model::pair_views(self.headers@),
                model::pair_views(r@) == first + all.take(i as int),
            decreases self.headers@.len() - i,
        {
            let ghost before = model::pair_views(r@);
            let name = text::owned(self.headers[i].0.as_str());
            let value = text::owned(self.headers[i].1.as_str());
            let ghost pair = (name@, value@);
            r.push((name, value));
            proof {
                assert(all[i as int] == pair);
                assert(model::pair_views(r@) =~= before.push(pair));
                assert(first + all.take(i + 1) =~= before.push(pair));
            }
            i += 1;
        }
        proof {
            assert(all.take(i as int) =~= all);
            assert(model::pair_views(r@) =~= request_headers(self.api_key@, all));
        }
        r
    }

    pub fn models_url(&self) -> (r: String)
        ensures
            r@ == self.base_url@ + "/models"@,
    {
        text::cat2(self.base_url.as_str(), "/models")
    }

    pub fn completions_url(&self) -> (r: String)
        ensures
            r@ == self.base_url@ + "/chat/completions"@,
    {
        text::cat2(self.base_url.as_str(), "/chat/completions")
    }

    /// The models that an answer lists.
    pub fn read_models(&self, body: &Json) -> (r: model::Result<Vec<Model>>)
        ensures
            match json::items_of(json::field(body@, "data"@)) {
                Some(entries) => r is Ok && model_views(r->Ok_0@) == listed_models(entries),
                None => r is Err && r->Err_0@ == model::ErrorView::Provider(
                    "models response is missing data"@,
                ),
            },
    {
        let entries = match body.get_array("data") {
            Some(e) => e,
            None => {
                return Err(Error::Provider(text::owned("models response is missing data")));
            },
        };
        let ghost all = json::json_views(entries@);
        let mut models: Vec<Model> = Vec::new();
        let mut i: usize = 0;
        proof {
            assert(all.take(0) =~= Seq::empty());
            assert(model_views(models@) =~= Seq::empty());
        }
        while i < entries.len()
            invariant
                i <= entries@.len(),
                all == json::json_views(entries@),
                model_views(models@) == listed_models(all.take(i as int)),
            decreases entries@.len() - i,
        {
            let ghost before = model_views(models@);
            proof {
                assert(all.take(i + 1).drop_last() =~= all.take(i as int));
                assert(all.take(i + 1).last() == entries@[i as int]@);
            }
            if let Some(id) = entries[i].get_str("id") {
                let display_name = match entries[i].get_str("name") {
                    Some(name) => text::owned(name),
                    None => text::owned(id),
                };
                let ghost pair = (id@, display_name@);
                models.push(Model { id: text::owned(id), display_name });
                proof {
                    assert(model_views(models@) =~= before.push(pair));
                }
            }
            i += 1;
        }
        proof {
            assert(all.take(i as int) =~= all);
        }
        Ok(models)
    }

    /// The error for an answer that reports no success.
    pub fn status_error(&self, status: &str, body: &str) -> (r: Error)
        ensures
            r@ == model::ErrorView::Provider(status_text(status@, body@)),
    {
        let body = text::trim(body);
        if body.is_empty() {
            Error::Provider(text::cat2("HTTP ", status))
        } else {
            Error::Provider(text::cat4("HTTP ", status, ": ", body))
        }
    }
}

/// What the plugin of a provider registers.
pub open spec fn registered(id: Seq<char>) -> Seq<RegistrationView> {
    seq![(RegistrationKind::Provider, id, 0int)]
}

impl OpenAiCompatible {
    /// What the plugin of the provider registers.
    pub fn registrations(&self) -> (r: Vec<Registration>)
        ensures
            registration::registration_views(r@) == registered(self.id@),
    {
        let mut list: Vec<Registration> = Vec::new();
        proof {
            assert(registration::registration_views(list@) =~= Seq::empty());
        }
        registration::register(&mut list, RegistrationKind::Provider, self.id.as_str(), 0);
        proof {
            assert(registration::registration_views(list@) =~= registered(self.id@));
        }
        list
    }
}

// ---------------------------------------------------------------------------
// Requests
// ---------------------------------------------------------------------------

/// The entry of a tool's answer.
pub open spec fn result_entry(part: model::PartView) -> Option<json::JsonView> {
    match part.content {
        Some(model::ContentView::ToolResult(call_id, name, result)) => Some(
            json::JsonView::Object(
                seq![
                    ("role"@, json::JsonView::Text("tool"@)),
                    ("tool_call_id"@, json::JsonView::Text(call_id)),
                    ("content"@, json::JsonView::Text(provider_openai::output_text(result))),
                ],
            ),
        ),
        _ => None,
    }
}

/// The entries of tools' answers.
pub open spec fn result_entries(parts: Seq<model::PartView>) -> Seq<json::JsonView>
    decreases parts.len(),
{
    if parts.len() == 0 {
        Seq::empty()
    } else {
        let before = result_entries(parts.drop_last());
        match result_entry(parts.last()) {
            Some(e) => before.push(e),
            None => before,
        }
    }
}

/// The entry of a call.
pub open spec fn call_entry(part: model::PartView) -> Option<json::JsonView> {
    match part.content {
        Some(model::ContentView::ToolCall(id, name, arguments)) => Some(
            json::JsonView::Object(
                seq![
                    ("id"@, json::JsonView::Text(id)),
                    ("type"@, json::JsonView::Text("function"@)),
                    (
                        "function"@,
                        json::JsonView::Object(
                            seq![
                                ("name"@, json::JsonView::Text(name)),
                                (
                                    "arguments"@,
                                    json::JsonView::Text(json::json_spelling(arguments)),
                                ),
                            ],
                        ),
                    ),
                ],
            ),
        ),
        _ => None,
    }
}

/// The entries of calls.
pub open spec fn call_entries(parts: Seq<model::PartView>) -> Seq<json::JsonView>
    decreases parts.len(),
{
    if parts.len() == 0 {
        Seq::empty()
    } else {
        let before = call_entries(parts.drop_last());
        match call_entry(parts.last()) {
            Some(e) => before.push(e),
            None => before,
        }
    }
}

/// What a message says in words.
pub open spec fn spoken(parts: Seq<model::PartView>) -> Seq<char>
    decreases parts.len(),
{
    if parts.len() == 0 {
        Seq::empty()
    } else {
        let before = spoken(parts.drop_last());
        match parts.last().content {
            Some(model::ContentView::Text(t)) => before + t,
            _ => before,
        }
    }
}

pub open spec fn role_name(role: Role) -> Seq<char> {
    match role {
        Role::System => "system"@,
        Role::User => "user"@,
        Role::Assistant => "assistant"@,
        Role::Tool => "tool"@,
    }
}

/// The entries that a message becomes.
pub open spec fn message_entries(message: model::MessageView) -> Seq<json::JsonView> {
    if message.role == Role::Tool {
        result_entries(message.content)
    } else {
        let fields = seq![
            ("role"@, json::JsonView::Text(role_name(message.role))),
            ("content"@, json::JsonView::Text(spoken(message.content))),
        ];
        let calls = call_entries(message.content);
        seq![
            json::JsonView::Object(
                if calls.len() == 0 {
                    fields
                } else {
                    fields.push(("tool_calls"@, json::JsonView::Array(calls)))
                },
            ),
        ]
    }
}

/// The entries that messages become.
pub open spec fn conversation(messages: Seq<model::MessageView>) -> Seq<json::JsonView>
    decreases messages.len(),
{
    if messages.len() == 0 {
        Seq::empty()
    } else {
        conversation(messages.drop_last()) + message_entries(messages.last())
    }
}

/// The entry of the context.
pub open spec fn context_entries(context: Seq<Seq<char>>) -> Seq<json::JsonView> {
    if context.len() == 0 {
        Seq::empty()
    } else {
        seq![
            json::JsonView::Object(
                seq![
                    ("role"@, json::JsonView::Text("system"@)),
                    ("content"@, json::JsonView::Text(text::joined(context, "\n\n"@))),
                ],
            ),
        ]
    }
}

/// The entry of a tool.
pub open spec fn tool_entry(tool: ToolDefinition) -> json::JsonView {
    json::JsonView::Object(
        seq![
            ("type"@, json::JsonView::Text("function"@)),
            (
                "function"@,
                json::JsonView::Object(
                    seq![
                        ("name"@, json::JsonView::Text(tool.name@)),
                        ("description"@, json::JsonView::Text(tool.description@)),
                        ("parameters"@, tool.schema@),
                    ],
                ),
            ),
        ],
    )
}

/// The body of a request.
pub open spec fn body_of(
    model_name: Seq<char>,
    context: Seq<Seq<char>>,
    messages: Seq<model::MessageView>,
    tools: Seq<ToolDefinition>,
) -> json::JsonView {
    let fields = seq![
        ("model"@, json::JsonView::Text(model_name)),
        ("messages"@, json::JsonView::Array(context_entries(context) + conversation(messages))),
        ("stream"@, json::JsonView::Bool(true)),
        (
            "stream_options"@,
            json::JsonView::Object(seq![("include_usage"@, json::JsonView::Bool(true))]),
        ),
    ];
    json::JsonView::Object(
        if tools.len() == 0 {
            fields
        } else {
            fields.push(
                (
                    "tools"@,
                    json::JsonView::Array(tools.map_values(|t: ToolDefinition| tool_entry(t))),
                ),
            )
        },
    )
}

fn push_json(list: &mut Vec<Json>, value: Json)
    ensures
        json::json_views(final(list)@) == json::json_views(old(list)@).push(value@),
{
    let ghost before = json::json_views(list@);
    let ghost view = value@;
    list.push(value);
    proof {
        assert(json::json_views(list@) =~= before.push(view));
    }
}

fn no_values() -> (r: Vec<Json>)
    ensures
        json::json_views(r@) == Seq::<json::JsonView>::empty(),
{
    let r: Vec<Json> = Vec::new();
    proof {
        assert(json::json_views(r@) =~= Seq::empty());
    }
    r
}

fn read_result(part: &MessagePart) -> (r: Option<Json>)
    ensures
        match r {
            Some(e) => result_entry(part@) == Some(e@),
            None => result_entry(part@) is None,
        },
{
    match &part.content {
        Some(MessagePartContent::ToolResult { call_id, name: _, result }) => {
            let content = match result.content() {
                Some(c) => text::owned(c),
                None => String::new(),
            };
            let fields = ObjectBuilder::new().with("role", Json::text("tool")).with(
                "tool_call_id",
                Json::text(call_id.as_str()),
            ).with("content", Json::text(content.as_str()));
            proof {
                assert(content@ =~= provider_openai::output_text(result@));
                assert(fields@ =~= result_entry(part@)->0->Object_0);
            }
            Some(fields.done())
        },
        _ => None,
    }
}

fn read_call(part: &MessagePart) -> (r: Option<Json>)
    ensures
        match r {
            Some(e) => call_entry(part@) == Some(e@),
            None => call_entry(part@) is None,
        },
{
    match &part.content {
        Some(MessagePartContent::ToolCall { id, name, arguments }) => {
            let spelled = json::spell_json(arguments);
            let function = ObjectBuilder::new().with("name", Json::text(name.as_str())).with(
                "arguments",
                Json::text(spelled.as_str()),
            );
            let ghost inner = function@;
            let fields = ObjectBuilder::new().with("id", Json::text(id.as_str())).with(
                "type",
                Json::text("function"),
            ).with("function", function.done());
            proof {
                let wanted = call_entry(part@)->0->Object_0;
                assert(inner =~= wanted[2].1->Object_0);
                assert(fields@ =~= wanted);
            }
            Some(fields.done())
        },
        _ => None,
    }
}

fn role_text(role: Role) -> (r: &'static str)
    ensures
        r@ == role_name(role),
{
    match role {
        Role::System => "system",
        Role::User => "user",
        Role::Assistant => "assistant",
        Role::Tool => "tool",
    }
}

/// Adds the entries that a message becomes.
pub fn wire_messages(list: &mut Vec<Json>, message: &Message)
    ensures
        json::json_views(final(list)@) == json::json_views(old(list)@) + message_entries(message@),
        message@.role == Role::System ==> json::text_at(
            json::json_views(final(list)@).last(),
            "role"@,
        ) == Some("system"@),
        message@.role == Role::User ==> json::text_at(
            json::json_views(final(list)@).last(),
            "role"@,
        ) == Some("user"@),
        message@.role == Role::Assistant ==> json::text_at(
            json::json_views(final(list)@).last(),
            "role"@,
        ) == Some("assistant"@),
{
    let ghost first = json::json_views(list@);
    let ghost parts = message@.content;
    let mut i: usize = 0;
    proof {
        assert(parts.take(0) =~= Seq::empty());
    }
    if message.role == Role::Tool {
        proof {
            assert(first + result_entries(parts.take(0)) =~= first);
        }
        while i < message.content.len()
            invariant
                i <= message.content@.len(),
                parts == model::part_views(message.content@),
                json::json_views(list@) == first + result_entries(parts.take(i as int)),
            decreases message.content@.len() - i,
        {
            let ghost before = result_entries(parts.take(i as int));
            proof {
                assert(parts.take(i + 1).drop_last() =~= parts.take(i as int));
                assert(parts.take(i + 1).last() == message.content@[i as int]@);
            }
            if let Some(entry) = read_result(&message.content[i]) {
                proof {
                    assert((first + before).push(entry@) =~= first + before.push(entry@));
                }
                push_json(list, entry);
            }
            i += 1;
        }
        proof {
            assert(parts.take(i as int) =~= parts);
        }
        return;
    }
    let mut said = String::new();
    let mut calls = no_values();
    proof {
        assert(said@ =~= spoken(parts.take(0)));
    }
    while i < message.content.len()
        invariant
            i <= message.content@.len(),
            parts == model::part_views(message.content@),
            said@ == spoken(parts.take(i as int)),
            json::json_views(calls@) == call_entries(parts.take(i as int)),
        decreases message.content@.len() - i,
    {
        let part = &message.content[i];
        proof {
            assert(parts.take(i + 1).drop_last() =~= parts.take(i as int));
            assert(parts.take(i + 1).last() == part@);
        }
        if let Some(MessagePartContent::Text { text: t }) = &part.content {
            said.push_str(t.as_str());
        }
        if let Some(entry) = read_call(part) {
            push_json(&mut calls, entry);
        }
        i += 1;
    }
    proof {
        assert(parts.take(i as int) =~= parts);
    }
    let ghost called = json::json_views(calls@);
    let fields = ObjectBuilder::new().with("role", Json::text(role_text(message.role))).with(
        "content",
        Json::text(said.as_str()),
    );
    let fields = if calls.len() > 0 {
        fields.with("tool_calls", json::array(calls))
    } else {
        fields
    };
    proof {
        assert(called.len() == calls@.len());
        assert(fields@ =~= message_entries(message@)[0]->Object_0);
        let entry = json::JsonView::Object(fields@);
        assert(message_entries(message@) =~= seq![entry]);
        assert(first.push(entry) =~= first + seq![entry]);
    }
    push_json(list, fields.done());
}

fn tool_json(tool: &ToolDefinition) -> (r: Json)
    ensures
        r@ == tool_entry(*tool),
{
    let function = ObjectBuilder::new().with("name", Json::text(tool.name.as_str())).with(
        "description",
        Json::text(tool.description.as_str()),
    ).with("parameters", tool.schema.clone());
    let ghost inner = function@;
    let fields = ObjectBuilder::new().with("type", Json::text("function")).with(
        "function",
        function.done(),
    );
    proof {
        let wanted = tool_entry(*tool)->Object_0;
        assert(inner =~= wanted[1].1->Object_0);
        assert(fields@ =~= wanted);
    }
    fields.done()
}

/// Who speaks, as a request tells it, in the message at `k`.
pub open spec fn role_told(
    body: json::JsonView,
    context: Seq<Seq<char>>,
    messages: Seq<model::MessageView>,
    k: int,
) -> Option<Seq<char>> {
    let at = context_entries(context).len() + conversation(messages.take(k)).len();
    match json::items_of(json::field(body, "messages"@)) {
        Some(items) => json::text_at(items[at as int], "role"@),
        None => None,
    }
}

proof fn lemma_role_told(
    model_name: Seq<char>,
    context: Seq<Seq<char>>,
    messages: Seq<model::MessageView>,
    tools: Seq<ToolDefinition>,
    k: int,
)
    requires
        0 <= k < messages.len(),
        messages[k].role != Role::Tool,
    ensures
        role_told(body_of(model_name, context, messages, tools), context, messages, k) == Some(
            match messages[k].role {
                Role::System => "system"@,
                Role::User => "user"@,
                _ => "assistant"@,
            },
        ),
{
    let m = messages[k];
    let before = messages.take(k);
    let rest = messages.skip(k + 1);
    assert(messages =~= before + (seq![m] + rest));
    law_messages_keep_their_order(before, seq![m] + rest, m);
    law_messages_keep_their_order(seq![m], rest, m);
    law_roles_are_told(m);
    let items = context_entries(context) + conversation(messages);
    let at = context_entries(context).len() + conversation(before).len();
    assert(items[at as int] == message_entries(m)[0]);
    reveal_strlit("model");
    reveal_strlit("messages");
    assert("model"@.len() == 5 && "messages"@.len() == 8);
    reveal_with_fuel(json::field_from, 3);
    assert(json::items_of(json::field(body_of(model_name, context, messages, tools), "messages"@))
        == Some(items));
    assert(json::text_at(items[at as int], "role"@) is Some);
}

/// The body of a request.
pub fn request_body(
    model_name: &str,
    context: &[String],
    messages: &[Message],
    tools: &[ToolDefinition],
) -> (r: Json)
    ensures
        r@ == body_of(
            model_name@,
            text::texts(context@),
            model::message_views(messages@),
            tools@,
        ),
        forall|k: int|
            0 <= k < messages@.len() && (#[trigger] messages@[k]).role == Role::System
                ==> role_told(r@, text::texts(context@), model::message_views(messages@), k) == Some(
                "system"@,
            ),
        forall|k: int|
            0 <= k < messages@.len() && (#[trigger] messages@[k]).role == Role::User ==> role_told(
                r@,
                text::texts(context@),
                model::message_views(messages@),
                k,
            ) == Some("user"@),
        forall|k: int|
            0 <= k < messages@.len() && (#[trigger] messages@[k]).role == Role::Assistant
                ==> role_told(r@, text::texts(context@), model::message_views(messages@), k) == Some(
                "assistant"@,
            ),
{
    let mut list = no_values();
    if context.len() > 0 {
        let joined = text::join(context, "\n\n");
        let fields = ObjectBuilder::new().with("role", Json::text("system")).with(
            "content",
            Json::text(joined.as_str()),
        );
        proof {
            assert(fields@ =~= context_entries(text::texts(context@))[0]->Object_0);
        }
        push_json(&mut list, fields.done());
    }
    let ghost first = json::json_views(list@);
    proof {
        assert(first =~= context_entries(text::texts(context@)));
    }
    let ghost all = model::message_views(messages@);
    let mut i: usize = 0;
    proof {
        assert(all.take(0) =~= Seq::empty());
        assert(first + conversation(all.take(0)) =~= first);
    }
    while i < messages.len()
        invariant
            i <= messages@.len(),
            all == model::message_views(messages@),
            json::json_views(list@) == first + conversation(all.take(i as int)),
        decreases messages@.len() - i,
    {
        proof {
            assert(all.take(i + 1).drop_last() =~= all.take(i as int));
            assert(all.take(i + 1).last() == messages@[i as int]@);
            assert(first + conversation(all.take(i as int)) + message_entries(messages@[i as int]@)
                =~= first + conversation(all.take(i + 1)));
        }
        wire_messages(&mut list, &messages[i]);
        i += 1;
    }
    proof {
        assert(all.take(i as int) =~= all);
    }
    let mut entries: Vec<Json> = Vec::new();
    let mut k: usize = 0;
    while k < tools.len()
        invariant
            k <= tools@.len(),
            entries@.len() == k,
            forall|j: int| 0 <= j < k ==> (#[trigger] entries@[j])@ == tool_entry(tools@[j]),
        decreases tools@.len() - k,
    {
        entries.push(tool_json(&tools[k]));
        k += 1;
    }
    let ghost offered = tools@.map_values(|t: ToolDefinition| tool_entry(t));
    proof {
        assert(json::json_views(entries@) =~= offered);
    }
    let options = ObjectBuilder::new().with("include_usage", Json::Bool(true));
    let ghost shown = options@;
    let fields = ObjectBuilder::new().with("model", Json::text(model_name)).with(
        "messages",
        json::array(list),
    ).with("stream", Json::Bool(true)).with("stream_options", options.done());
    let fields = if tools.len() > 0 {
        fields.with("tools", json::array(entries))
    } else {
        fields
    };
    proof {
        let wanted = body_of(
            model_name@,
            text::texts(context@),
            all,
            tools@,
        )->Object_0;
        assert(shown =~= wanted[3].1->Object_0);
        assert(fields@ =~= wanted);
        assert forall|k: int|
            0 <= k < messages@.len() && (#[trigger] messages@[k]).role
                != Role::Tool implies role_told(
            json::JsonView::Object(fields@),
            text::texts(context@),
            all,
            k,
        ) == Some(
            match messages@[k].role {
                Role::System => "system"@,
                Role::User => "user"@,
                _ => "assistant"@,
            },
        ) by {
            assert(all[k] == messages@[k]@);
            lemma_role_told(model_name@, text::texts(context@), all, tools@, k);
        }
    }
    fields.done()
}

// ---------------------------------------------------------------------------
// Answers
// ---------------------------------------------------------------------------

/// What a datum of a streamed answer says.
pub enum ParsedData {
    Done,
    Events(Vec<ProviderEvent>),
}

/// What a datum says, in mathematical terms.
pub ghost enum DataView {
    Done,
    Events(Seq<model::EventView>),
    Failed(Seq<char>),
}

pub open spec fn number_or_zero(value: json::JsonView, key: Seq<char>) -> u64 {
    match json::number_of(json::field(value, key)) {
        Some(n) => n,
        None => 0,
    }
}

/// The tokens that a chunk reports.
pub open spec fn usage_events(chunk: json::JsonView) -> Seq<model::EventView> {
    match json::field(chunk, "usage"@) {
        None => Seq::empty(),
        Some(json::JsonView::Null) => Seq::empty(),
        Some(usage) => seq![
            model::EventView::Usage(
                Usage {
                    input_tokens: number_or_zero(usage, "prompt_tokens"@),
                    output_tokens: number_or_zero(usage, "completion_tokens"@),
                    total_tokens: number_or_zero(usage, "total_tokens"@),
                },
            ),
        ],
    }
}

/// A field, or nothing of substance.
pub open spec fn field_or_null(value: json::JsonView, key: Seq<char>) -> json::JsonView {
    match json::field(value, key) {
        Some(v) => v,
        None => json::JsonView::Null,
    }
}

/// The event of a call.
pub open spec fn call_event(call: json::JsonView) -> model::EventView {
    let function = field_or_null(call, "function"@);
    model::EventView::ToolCallDelta(
        (number_or_zero(call, "index"@) as int % 0x1_0000_0000) as u32,
        json::text_at(call, "id"@),
        json::text_at(function, "name"@),
        match json::text_at(function, "arguments"@) {
            Some(a) => a,
            None => Seq::empty(),
        },
    )
}

pub open spec fn finish_of(reason: Seq<char>) -> model::FinishView {
    if reason == "stop"@ {
        model::FinishView::Stop
    } else if reason == "length"@ {
        model::FinishView::Length
    } else if reason == "tool_calls"@ || reason == "function_call"@ {
        model::FinishView::ToolCalls
    } else if reason == "content_filter"@ {
        model::FinishView::ContentFilter
    } else {
        model::FinishView::Other(reason)
    }
}

/// The reasoning in a delta.
pub open spec fn reasoning_of(delta: json::JsonView) -> Option<Seq<char>> {
    match json::field(delta, "reasoning_content"@) {
        Some(v) => json::text_of(Some(v)),
        None => json::text_at(delta, "reasoning"@),
    }
}

/// The calls in a delta.
pub open spec fn calls_of(delta: json::JsonView) -> Seq<json::JsonView> {
    match json::items_of(json::field(delta, "tool_calls"@)) {
        Some(list) => list,
        None => Seq::empty(),
    }
}

/// The events of a choice.
pub open spec fn choice_events(choice: json::JsonView) -> Seq<model::EventView> {
    let delta = field_or_null(choice, "delta"@);
    (match json::text_at(delta, "content"@) {
        Some(t) => seq![model::EventView::TextDelta(t)],
        None => Seq::empty(),
    }) + (match reasoning_of(delta) {
        Some(t) => seq![model::EventView::ReasoningDelta(t)],
        None => Seq::empty(),
    }) + calls_of(delta).map_values(|c: json::JsonView| call_event(c)) + (match json::text_at(
        choice,
        "finish_reason"@,
    ) {
        Some(reason) => seq![model::EventView::Finished(finish_of(reason))],
        None => Seq::empty(),
    })
}

/// The events of choices.
pub open spec fn choices_events(choices: Seq<json::JsonView>) -> Seq<model::EventView>
    decreases choices.len(),
{
    if choices.len() == 0 {
        Seq::empty()
    } else {
        choices_events(choices.drop_last()) + choice_events(choices.last())
    }
}

/// What a chunk says.
pub open spec fn chunk_data(chunk: json::JsonView) -> DataView {
    match json::field(chunk, "error"@) {
        Some(error) => DataView::Failed(
            match json::text_at(error, "message"@) {
                Some(m) => m,
                None => json::json_spelling(error),
            },
        ),
        None => DataView::Events(
            usage_events(chunk) + (match json::items_of(json::field(chunk, "choices"@)) {
                Some(choices) => choices_events(choices),
                None => Seq::empty(),
            }),
        ),
    }
}

/// Whether a datum ends the answer.
pub open spec fn is_done(data: Seq<char>) -> bool {
    text::trimmed(data) == "[DONE]"@
}

/// What a datum says, where `parsed` is what it is read as.
pub open spec fn data_view(
    data: Seq<char>,
    parsed: Result<json::JsonView, Seq<char>>,
) -> DataView {
    if is_done(data) {
        DataView::Done
    } else {
        match parsed {
            Err(e) => DataView::Failed("invalid chat completion event: "@ + e),
            Ok(chunk) => chunk_data(chunk),
        }
    }
}

/// Whether a result is what a datum says.
pub open spec fn says(r: model::Result<ParsedData>, view: DataView) -> bool {
    match view {
        DataView::Done => r matches Ok(d) && d is Done,
        DataView::Events(events) => r matches Ok(d) && d is Events && model::event_views(
            d->Events_0@,
        ) == events,
        DataView::Failed(m) => r is Err && r->Err_0@ == model::ErrorView::Provider(m),
    }
}

fn push_event(list: &mut Vec<ProviderEvent>, event: ProviderEvent)
    ensures
        model::event_views(final(list)@) == model::event_views(old(list)@) + seq![event@],
{
    let ghost before = model::event_views(list@);
    let ghost view = event@;
    list.push(event);
    proof {
        assert(model::event_views(list@) =~= before + seq![view]);
    }
}

fn count_of(value: &Json, key: &str) -> (r: u64)
    ensures
        r == number_or_zero(value@, key@),
{
    match value.get_u64(key) {
        Some(n) => n,
        None => 0,
    }
}

fn low_bits(n: u64) -> (r: u32)
    ensures
        r == (n as int % 0x1_0000_0000) as u32,
{
    (n % 0x1_0000_0000) as u32
}

fn owned_text(value: Option<&Json>, key: &str) -> (r: Option<String>)
    ensures
        text::opt_text(r) == (match json::opt_view(value) {
            Some(v) => json::text_at(v, key@),
            None => None,
        }),
{
    match value {
        None => None,
        Some(v) => match v.get_str(key) {
            Some(t) => Some(text::owned(t)),
            None => None,
        },
    }
}

fn read_call_event(call: &Json) -> (r: ProviderEvent)
    ensures
        r@ == call_event(call@),
{
    let function = call.get("function");
    let arguments = match owned_text(function, "arguments") {
        Some(a) => a,
        None => String::new(),
    };
    let name = owned_text(function, "name");
    let event = ProviderEvent::ToolCallDelta {
        index: low_bits(count_of(call, "index")),
        id: owned_text(Some(call), "id"),
        name,
        arguments,
    };
    proof {
        assert(json::text_at(json::JsonView::Null, "name"@) is None);
        assert(json::text_at(json::JsonView::Null, "arguments"@) is None);
        assert(event@->ToolCallDelta_3 =~= call_event(call@)->ToolCallDelta_3);
    }
    event
}

fn read_reason(reason: &str) -> (r: FinishReason)
    ensures
        r@ == finish_of(reason@),
{
    if text::same_text(reason, "stop") {
        FinishReason::Stop
    } else if text::same_text(reason, "length") {
        FinishReason::Length
    } else if text::same_text(reason, "tool_calls") || text::same_text(reason, "function_call") {
        FinishReason::ToolCalls
    } else if text::same_text(reason, "content_filter") {
        FinishReason::ContentFilter
    } else {
        FinishReason::Other(text::owned(reason))
    }
}

fn read_reasoning(delta: &Json) -> (r: Option<&str>)
    ensures
        json::opt_str(r) == reasoning_of(delta@),
{
    match delta.get("reasoning_content") {
        Some(v) => v.as_str(),
        None => delta.get_str("reasoning"),
    }
}

fn read_choice(events: &mut Vec<ProviderEvent>, choice: &Json)
    ensures
        model::event_views(final(events)@) == model::event_views(old(events)@) + choice_events(
            choice@,
        ),
{
    let ghost start = model::event_views(events@);
    let null = Json::Null;
    let delta = match choice.get("delta") {
        Some(d) => d,
        None => &null,
    };
    let ghost d = field_or_null(choice@, "delta"@);
    assert(delta@ == d);
    let ghost none = Seq::<model::EventView>::empty();
    let ghost said = match json::text_at(d, "content"@) {
        Some(t) => seq![model::EventView::TextDelta(t)],
        None => none,
    };
    let ghost thought = match reasoning_of(d) {
        Some(t) => seq![model::EventView::ReasoningDelta(t)],
        None => none,
    };
    if let Some(t) = delta.get_str("content") {
        push_event(events, ProviderEvent::TextDelta { text: text::owned(t) });
    }
    assert(model::event_views(events@) =~= start + said);
    if let Some(t) = read_reasoning(delta) {
        push_event(events, ProviderEvent::ReasoningDelta { text: text::owned(t) });
    }
    assert(model::event_views(events@) =~= start + said + thought);
    let ghost made = calls_of(d).map_values(|c: json::JsonView| call_event(c));
    if let Some(calls) = delta.get_array("tool_calls") {
        let ghost all = json::json_views(calls@);
        let ghost first = model::event_views(events@);
        let mut i: usize = 0;
        proof {
            assert(first + made.take(0) =~= first);
        }
        while i < calls.len()
            invariant
                i <= calls@.len(),
                all == json::json_views(calls@),
                made == all.map_values(|c: json::JsonView| call_event(c)),
                model::event_views(events@) == first + made.take(i as int),
            decreases calls@.len() - i,
        {
            let event = read_call_event(&calls[i]);
            proof {
                assert(all[i as int] == calls@[i as int]@);
                assert(event@ == made[i as int]);
                assert(first + made.take(i as int) + seq![event@] =~= first + made.take(i + 1));
            }
            push_event(events, event);
            i += 1;
        }
        proof {
            assert(made.take(i as int) =~= made);
        }
    } else {
        proof {
            assert(made =~= none);
            assert(start + said + thought + made =~= start + said + thought);
        }
    }
    assert(model::event_views(events@) == start + said + thought + made);
    if let Some(reason) = choice.get_str("finish_reason") {
        push_event(events, ProviderEvent::Finished { reason: read_reason(reason) });
    }
    assert(model::event_views(events@) =~= start + choice_events(choice@));
}

/// Reads a chunk of a streamed answer.
pub fn read_chunk(chunk: &Json) -> (r: model::Result<ParsedData>)
    ensures
        says(r, chunk_data(chunk@)),
{
    if let Some(error) = chunk.get("error") {
        let message = match error.get_str("message") {
            Some(m) => text::owned(m),
            None => json::spell_json(error),
        };
        return Err(Error::Provider(message));
    }
    let mut events: Vec<ProviderEvent> = Vec::new();
    proof {
        assert(model::event_views(events@) =~= Seq::empty());
    }
    if let Some(usage) = chunk.get("usage") {
        if !matches!(usage, Json::Null) {
            let usage = Usage {
                input_tokens: count_of(usage, "prompt_tokens"),
                output_tokens: count_of(usage, "completion_tokens"),
                total_tokens: count_of(usage, "total_tokens"),
            };
            push_event(&mut events, ProviderEvent::Usage { usage });
        }
    }
    let ghost first = model::event_views(events@);
    assert(first =~= usage_events(chunk@));
    if let Some(choices) = chunk.get_array("choices") {
        let ghost all = json::json_views(choices@);
        let mut i: usize = 0;
        proof {
            assert(all.take(0) =~= Seq::empty());
            assert(first + choices_events(all.take(0)) =~= first);
        }
        while i < choices.len()
            invariant
                i <= choices@.len(),
                all == json::json_views(choices@),
                model::event_views(events@) == first + choices_events(all.take(i as int)),
            decreases choices@.len() - i,
        {
            proof {
                assert(all.take(i + 1).drop_last() =~= all.take(i as int));
                assert(all.take(i + 1).last() == choices@[i as int]@);
                assert(first + choices_events(all.take(i as int)) + choice_events(
                    choices@[i as int]@,
                ) =~= first + choices_events(all.take(i + 1)));
            }
            read_choice(&mut events, &choices[i]);
            i += 1;
        }
        proof {
            assert(all.take(i as int) =~= all);
        }
    } else {
        proof {
            assert(first + Seq::<model::EventView>::empty() =~= first);
        }
    }
    Ok(ParsedData::Events(events))
}

/// Reads a datum of a streamed answer, where `parsed` is what it is read as.
pub fn interpret(data: &str, parsed: core::result::Result<Json, String>) -> (r: model::Result<
    ParsedData,
>)
    ensures
        says(
            r,
            data_view(data@, json::result_view(parsed)),
        ),
{
    if text::same_text(text::trim(data), "[DONE]") {
        return Ok(ParsedData::Done);
    }
    match parsed {
        Err(e) => Err(
            Error::Provider(text::cat2("invalid chat completion event: ", e.as_str())),
        ),
        Ok(chunk) => read_chunk(&chunk),
    }
}

/// Reads a datum of a streamed answer.
pub fn parse_data(data: &str) -> (r: model::Result<ParsedData>)
    ensures
        says(r, data_view(data@, json::json_parse(data@))),
{
    let parsed = json::parse_json(data);
    assert(json::result_view(parsed) == json::json_parse(data@));
    interpret(data, parsed)
}

// ---------------------------------------------------------------------------
// The stream of an answer
// ---------------------------------------------------------------------------

/// How a stream ends.
pub enum Ending {
    Done,
    Failed(Error),
}

/// What a piece of a stream brings: events, and the stream's end where it ends.
pub struct Delivery {
    pub events: Vec<ProviderEvent>,
    pub ending: Option<Ending>,
}

/// An ending in mathematical terms.
pub ghost enum EndingView {
    Done,
    Failed(Seq<char>),
}

/// The events of data, up to the one that ends the stream.
pub open spec fn delivered(data: Seq<Seq<char>>) -> (Seq<model::EventView>, Option<EndingView>)
    decreases data.len(),
{
    if data.len() == 0 {
        (Seq::empty(), None)
    } else {
        let (events, ending) = delivered(data.drop_last());
        if ending is Some {
            (events, ending)
        } else {
            match data_view(data.last(), json::json_parse(data.last())) {
                DataView::Done => (events, Some(EndingView::Done)),
                DataView::Events(more) => (events + more, None),
                DataView::Failed(m) => (events, Some(EndingView::Failed(m))),
            }
        }
    }
}

/// Whether a delivery is that of data.
pub open spec fn brings(r: Delivery, view: (Seq<model::EventView>, Option<EndingView>)) -> bool {
    &&& model::event_views(r.events@) == view.0
    &&& match view.1 {
        None => r.ending is None,
        Some(EndingView::Done) => r.ending matches Some(e) && e is Done,
        Some(EndingView::Failed(m)) => r.ending matches Some(e) && e is Failed && e->Failed_0@
            == model::ErrorView::Provider(m),
    }
}

proof fn lemma_ending_stays(data: Seq<Seq<char>>, n: int)
    requires
        0 <= n <= data.len(),
        delivered(data.take(n)).1 is Some,
    ensures
        delivered(data) == delivered(data.take(n)),
    decreases data.len(),
{
    if n < data.len() {
        assert(data.drop_last().take(n) =~= data.take(n));
        lemma_ending_stays(data.drop_last(), n);
    } else {
        assert(data.take(n) =~= data);
    }
}

fn append_events(list: &mut Vec<ProviderEvent>, more: Vec<ProviderEvent>)
    ensures
        model::event_views(final(list)@) == model::event_views(old(list)@) + model::event_views(
            more@,
        ),
{
    let ghost before = list@;
    let mut more = more;
    let ghost added = more@;
    list.append(&mut more);
    proof {
        assert(list@ =~= before + added);
        assert(model::event_views(list@) =~= model::event_views(before) + model::event_views(
            added,
        ));
    }
}

/// Reads data of a stream.
pub fn deliver(data: &[String]) -> (r: Delivery)
    ensures
        brings(r, delivered(text::texts(data@))),
{
    let ghost all = text::texts(data@);
    let mut events: Vec<ProviderEvent> = Vec::new();
    let mut i: usize = 0;
    proof {
        assert(all.take(0) =~= Seq::empty());
        assert(model::event_views(events@) =~= Seq::empty());
    }
    while i < data.len()
        invariant
            i <= data@.len(),
            all == text::texts(data@),
            delivered(all.take(i as int)).1 is None,
            model::event_views(events@) == delivered(all.take(i as int)).0,
        decreases data@.len() - i,
    {
        proof {
            assert(all.take(i + 1).drop_last() =~= all.take(i as int));
            assert(all.take(i + 1).last() == data@[i as int]@);
        }
        match parse_data(data[i].as_str()) {
            Ok(ParsedData::Done) => {
                proof {
                    lemma_ending_stays(all, i + 1);
                }
                return Delivery { events, ending: Some(Ending::Done) };
            },
            Ok(ParsedData::Events(more)) => {
                append_events(&mut events, more);
            },
            Err(e) => {
                proof {
                    lemma_ending_stays(all, i + 1);
                }
                return Delivery { events, ending: Some(Ending::Failed(e)) };
            },
        }
        i += 1;
    }
    proof {
        assert(all.take(i as int) =~= all);
    }
    Delivery { events, ending: None }
}

/// What data bring, or the end where they cannot be read.
pub open spec fn step_of(data: Result<Seq<Seq<char>>, Seq<char>>) -> (
    Seq<model::EventView>,
    Option<EndingView>,
) {
    match data {
        Ok(list) => delivered(list),
        Err(m) => (Seq::empty(), Some(EndingView::Failed(m))),
    }
}

/// Takes the next piece of a stream.
pub fn take_piece(decoder: &mut SseDecoder, piece: &[u8]) -> (r: Delivery)
    ensures
        final(decoder).buffer@ == sse::taken(old(decoder).buffer@ + piece@).1,
        brings(r, step_of(sse::taken(old(decoder).buffer@ + piece@).0)),
{
    match decoder.push(piece) {
        Ok(data) => deliver(data.as_slice()),
        Err(e) => {
            let events: Vec<ProviderEvent> = Vec::new();
            proof {
                assert(model::event_views(events@) =~= Seq::empty());
            }
            Delivery { events, ending: Some(Ending::Failed(e)) }
        },
    }
}

/// Ends a stream.
pub fn take_end(decoder: &mut SseDecoder) -> (r: Delivery)
    ensures
        final(decoder).buffer@ == sse::taken_at_end(old(decoder).buffer@).1,
        brings(r, step_of(sse::taken_at_end(old(decoder).buffer@).0)),
{
    match decoder.finish() {
        Ok(data) => deliver(data.as_slice()),
        Err(e) => {
            let events: Vec<ProviderEvent> = Vec::new();
            proof {
                assert(model::event_views(events@) =~= Seq::empty());
            }
            Delivery { events, ending: Some(Ending::Failed(e)) }
        },
    }
}

/// Nothing comes behind the end of a stream: data behind it change nothing.
pub proof fn law_nothing_follows_the_end(data: Seq<Seq<char>>, more: Seq<Seq<char>>)
    requires
        delivered(data).1 is Some,
    ensures
        delivered(data + more) == delivered(data),
{
    assert((data + more).take(data.len() as int) =~= data);
    lemma_ending_stays(data + more, data.len() as int);
}

// ---------------------------------------------------------------------------
// Laws
// ---------------------------------------------------------------------------

/// Messages become entries one by one, in their order.
pub proof fn law_messages_keep_their_order(
    a: Seq<model::MessageView>,
    b: Seq<model::MessageView>,
    m: model::MessageView,
)
    ensures
        conversation(a + b) == conversation(a) + conversation(b),
        conversation(seq![m]) == message_entries(m),
    decreases b.len(),
{
    if b.len() == 0 {
        assert(a + b =~= a);
        assert(conversation(a) + Seq::<json::JsonView>::empty() =~= conversation(a));
    } else {
        law_messages_keep_their_order(a, b.drop_last(), m);
        assert((a + b).drop_last() =~= a + b.drop_last());
        assert((a + b).last() == b.last());
        assert(conversation(a) + (conversation(b.drop_last()) + message_entries(b.last()))
            =~= conversation(a) + conversation(b.drop_last()) + message_entries(b.last()));
    }
    assert(seq![m].drop_last() =~= Seq::empty());
    assert(conversation(seq![m].drop_last()) =~= Seq::empty());
    assert(conversation(seq![m]) =~= message_entries(m));
}

/// A message becomes one entry that tells who speaks, by the name that the protocol has
/// for it, and what is said. The names of the three speakers are all different. Calls of
/// tools are told only where there are some.
pub proof fn law_roles_are_told(m: model::MessageView)
    requires
        m.role != Role::Tool,
    ensures
        ({
            let name = json::JsonView::Text(
                match m.role {
                    Role::System => "system"@,
                    Role::User => "user"@,
                    _ => "assistant"@,
                },
            );
            let said = json::JsonView::Text(spoken(m.content));
            let calls = call_entries(m.content);
            &&& message_entries(m).len() == 1
            &&& calls.len() == 0 ==> message_entries(m)[0] == json::JsonView::Object(
                seq![("role"@, name), ("content"@, said)],
            )
            &&& calls.len() > 0 ==> message_entries(m)[0] == json::JsonView::Object(
                seq![
                    ("role"@, name),
                    ("content"@, said),
                    ("tool_calls"@, json::JsonView::Array(calls)),
                ],
            )
        }),
        "system"@ != "user"@,
        "system"@ != "assistant"@,
        "user"@ != "assistant"@,
{
    reveal_strlit("system");
    reveal_strlit("user");
    reveal_strlit("assistant");
    assert("system"@.len() == 6 && "user"@.len() == 4 && "assistant"@.len() == 9);
    let calls = call_entries(m.content);
    let fields = seq![
        ("role"@, json::JsonView::Text(role_name(m.role))),
        ("content"@, json::JsonView::Text(spoken(m.content))),
    ];
    assert(fields.push(("tool_calls"@, json::JsonView::Array(calls))) =~= seq![
        ("role"@, json::JsonView::Text(role_name(m.role))),
        ("content"@, json::JsonView::Text(spoken(m.content))),
        ("tool_calls"@, json::JsonView::Array(calls)),
    ]);
}

/// What a message says is all its texts, one behind the other, and nothing else.
pub proof fn law_texts_are_said(a: Seq<model::PartView>, b: Seq<model::PartView>, part: model::PartView)
    ensures
        spoken(a + b) == spoken(a) + spoken(b),
        part.content matches Some(model::ContentView::Text(t)) ==> spoken(seq![part]) == t,
        !(part.content matches Some(model::ContentView::Text(_))) ==> spoken(seq![part]).len() == 0,
    decreases b.len(),
{
    if b.len() == 0 {
        assert(a + b =~= a);
        assert(spoken(a) + Seq::<char>::empty() =~= spoken(a));
    } else {
        law_texts_are_said(a, b.drop_last(), part);
        assert((a + b).drop_last() =~= a + b.drop_last());
        assert((a + b).last() == b.last());
        assert(spoken(a + b) =~= spoken(a) + spoken(b));
    }
    assert(seq![part].drop_last() =~= Seq::empty());
    assert(spoken(seq![part].drop_last()) =~= Seq::empty());
    if let Some(model::ContentView::Text(t)) = part.content {
        assert(spoken(seq![part]) =~= t);
    }
}

/// Each call of a tool is told with its identifier, its name and its arguments, in the
/// order of the calls, and nothing else is told as a call.
pub proof fn law_calls_are_told(a: Seq<model::PartView>, b: Seq<model::PartView>, part: model::PartView)
    ensures
        call_entries(a + b) == call_entries(a) + call_entries(b),
        part.content matches Some(model::ContentView::ToolCall(id, name, arguments)) ==> {
            let function = json::JsonView::Object(
                seq![
                    ("name"@, json::JsonView::Text(name)),
                    ("arguments"@, json::JsonView::Text(json::json_spelling(arguments))),
                ],
            );
            call_entries(seq![part]) == seq![
                json::JsonView::Object(
                    seq![
                        ("id"@, json::JsonView::Text(id)),
                        ("type"@, json::JsonView::Text("function"@)),
                        ("function"@, function),
                    ],
                ),
            ]
        },
        !(part.content matches Some(model::ContentView::ToolCall(_, _, _))) ==> call_entries(
            seq![part],
        ).len() == 0,
    decreases b.len(),
{
    if b.len() == 0 {
        assert(a + b =~= a);
        assert(call_entries(a) + Seq::<json::JsonView>::empty() =~= call_entries(a));
    } else {
        law_calls_are_told(a, b.drop_last(), part);
        assert((a + b).drop_last() =~= a + b.drop_last());
        assert((a + b).last() == b.last());
        assert(call_entries(a + b) =~= call_entries(a) + call_entries(b));
    }
    assert(seq![part].drop_last() =~= Seq::empty());
    assert(call_entries(seq![part].drop_last()) =~= Seq::empty());
    if let Some(e) = call_entry(part) {
        assert(call_entries(seq![part]) =~= seq![e]);
    }
}

/// What a tool gave back, be it a success or a failure, is told as an entry of its own
/// that names the call, in the order of the results.
pub proof fn law_results_are_told(
    a: Seq<model::PartView>,
    b: Seq<model::PartView>,
    part: model::PartView,
    m: model::MessageView,
)
    ensures
        m.role == Role::Tool ==> message_entries(m) == result_entries(m.content),
        result_entries(a + b) == result_entries(a) + result_entries(b),
        part.content matches Some(model::ContentView::ToolResult(call_id, name, result)) ==> {
            let out = match result {
                model::OutputView::Success(c) => c,
                model::OutputView::Failure(c) => c,
                model::OutputView::Stop => Seq::empty(),
            };
            result_entries(seq![part]) == seq![
                json::JsonView::Object(
                    seq![
                        ("role"@, json::JsonView::Text("tool"@)),
                        ("tool_call_id"@, json::JsonView::Text(call_id)),
                        ("content"@, json::JsonView::Text(out)),
                    ],
                ),
            ]
        },
        !(part.content matches Some(model::ContentView::ToolResult(_, _, _))) ==> result_entries(
            seq![part],
        ).len() == 0,
    decreases b.len(),
{
    if b.len() == 0 {
        assert(a + b =~= a);
        assert(result_entries(a) + Seq::<json::JsonView>::empty() =~= result_entries(a));
    } else {
        law_results_are_told(a, b.drop_last(), part, m);
        assert((a + b).drop_last() =~= a + b.drop_last());
        assert((a + b).last() == b.last());
        assert(result_entries(a + b) =~= result_entries(a) + result_entries(b));
    }
    assert(seq![part].drop_last() =~= Seq::empty());
    assert(result_entries(seq![part].drop_last()) =~= Seq::empty());
    if let Some(e) = result_entry(part) {
        assert(result_entries(seq![part]) =~= seq![e]);
    }
}

/// A request names the model, tells the context first and the conversation behind it,
/// asks for a stream with the tokens that were used, and describes each tool by its
/// name, its description and the schema of its input.
pub proof fn law_requests_are_complete(
    model_name: Seq<char>,
    context: Seq<Seq<char>>,
    messages: Seq<model::MessageView>,
    tools: Seq<ToolDefinition>,
    k: int,
)
    requires
        0 <= k < tools.len(),
    ensures
        ({
            let body = body_of(model_name, context, messages, tools);
            let start = if context.len() == 0 {
                Seq::empty()
            } else {
                seq![
                    json::JsonView::Object(
                        seq![
                            ("role"@, json::JsonView::Text("system"@)),
                            ("content"@, json::JsonView::Text(text::joined(context, "\n\n"@))),
                        ],
                    ),
                ]
            };
            let function = json::JsonView::Object(
                seq![
                    ("name"@, json::JsonView::Text(tools[k].name@)),
                    ("description"@, json::JsonView::Text(tools[k].description@)),
                    ("parameters"@, tools[k].schema@),
                ],
            );
            &&& json::text_at(body, "model"@) == Some(model_name)
            &&& json::items_of(json::field(body, "messages"@)) == Some(
                start + conversation(messages),
            )
            &&& json::bool_of(json::field(body, "stream"@)) == Some(true)
            &&& json::field(body, "stream_options"@) == Some(
                json::JsonView::Object(seq![("include_usage"@, json::JsonView::Bool(true))]),
            )
            &&& json::items_of(json::field(body, "tools"@)) matches Some(list)
            &&& list.len() == tools.len()
            &&& list[k] == json::JsonView::Object(
                seq![
                    ("type"@, json::JsonView::Text("function"@)),
                    ("function"@, function),
                ],
            )
            &&& json::field(body_of(model_name, context, messages, Seq::empty()), "tools"@) is None
        }),
{
    reveal_strlit("model");
    reveal_strlit("messages");
    reveal_strlit("stream");
    reveal_strlit("stream_options");
    reveal_strlit("tools");
    assert("model"@.len() == 5 && "messages"@.len() == 8 && "stream"@.len() == 6
        && "stream_options"@.len() == 14 && "tools"@.len() == 5);
    assert("model"@[0] == 'm' && "tools"@[0] == 't');
    reveal_with_fuel(json::field_from, 6);
}

/// What an answer says is passed on as it stands: each piece of text, of reasoning and
/// of a call, the reason for which the answer ended, and the tokens that it took.
pub proof fn law_answers_are_passed_on(t: Seq<char>, id: Seq<char>, name: Seq<char>, index: u32)
    ensures
        chunk_data(one_choice(seq![("content"@, json::JsonView::Text(t))])) == DataView::Events(
            seq![model::EventView::TextDelta(t)],
        ),
        chunk_data(one_choice(seq![("reasoning_content"@, json::JsonView::Text(t))]))
            == DataView::Events(seq![model::EventView::ReasoningDelta(t)]),
        chunk_data(one_choice(seq![("reasoning"@, json::JsonView::Text(t))])) == DataView::Events(
            seq![model::EventView::ReasoningDelta(t)],
        ),
        chunk_data(
            one_choice(
                seq![
                    (
                        "tool_calls"@,
                        json::JsonView::Array(
                            seq![
                                json::JsonView::Object(
                                    seq![
                                        (
                                            "index"@,
                                            json::JsonView::Number(
                                                json::NumberView::Unsigned(index as u64),
                                            ),
                                        ),
                                        ("id"@, json::JsonView::Text(id)),
                                        (
                                            "function"@,
                                            json::JsonView::Object(
                                                seq![
                                                    ("name"@, json::JsonView::Text(name)),
                                                    ("arguments"@, json::JsonView::Text(t)),
                                                ],
                                            ),
                                        ),
                                    ],
                                ),
                            ],
                        ),
                    ),
                ],
            ),
        ) == DataView::Events(
            seq![model::EventView::ToolCallDelta(index, Some(id), Some(name), t)],
        ),
{
    reveal_strlit("choices");
    reveal_strlit("error");
    reveal_strlit("usage");
    reveal_strlit("delta");
    reveal_strlit("content");
    reveal_strlit("reasoning_content");
    reveal_strlit("reasoning");
    reveal_strlit("tool_calls");
    reveal_strlit("finish_reason");
    reveal_strlit("index");
    reveal_strlit("id");
    reveal_strlit("function");
    reveal_strlit("name");
    reveal_strlit("arguments");
    assert("index"@.len() == 5 && "id"@.len() == 2 && "function"@.len() == 8 && "name"@.len() == 4
        && "arguments"@.len() == 9);
    let call = json::JsonView::Object(
        seq![
            ("index"@, json::JsonView::Number(json::NumberView::Unsigned(index as u64))),
            ("id"@, json::JsonView::Text(id)),
            (
                "function"@,
                json::JsonView::Object(
                    seq![
                        ("name"@, json::JsonView::Text(name)),
                        ("arguments"@, json::JsonView::Text(t)),
                    ],
                ),
            ),
        ],
    );
    reveal_with_fuel(json::field_from, 4);
    assert(call_event(call) == model::EventView::ToolCallDelta(index, Some(id), Some(name), t));
    let a = seq![("content"@, json::JsonView::Text(t))];
    let b = seq![("reasoning_content"@, json::JsonView::Text(t))];
    let c = seq![("reasoning"@, json::JsonView::Text(t))];
    let d = seq![("tool_calls"@, json::JsonView::Array(seq![call]))];
    lemma_one_choice(a);
    lemma_one_choice(b);
    lemma_one_choice(c);
    lemma_one_choice(d);
    assert("content"@.len() == 7 && "reasoning_content"@.len() == 17 && "reasoning"@.len() == 9
        && "tool_calls"@.len() == 10);
    assert(delta_events(json::JsonView::Object(a)) =~= seq![model::EventView::TextDelta(t)]);
    assert(delta_events(json::JsonView::Object(b)) =~= seq![model::EventView::ReasoningDelta(t)]);
    assert(delta_events(json::JsonView::Object(c)) =~= seq![model::EventView::ReasoningDelta(t)]);
    assert(delta_events(json::JsonView::Object(d)) =~= seq![
        model::EventView::ToolCallDelta(index, Some(id), Some(name), t),
    ]);
}

/// A chunk with one choice whose delta has the given fields.
pub open spec fn one_choice(delta: Seq<(Seq<char>, json::JsonView)>) -> json::JsonView {
    json::JsonView::Object(
        seq![
            (
                "choices"@,
                json::JsonView::Array(
                    seq![json::JsonView::Object(seq![("delta"@, json::JsonView::Object(delta))])],
                ),
            ),
        ],
    )
}

spec fn delta_events(delta: json::JsonView) -> Seq<model::EventView> {
    (match json::text_at(delta, "content"@) {
        Some(t) => seq![model::EventView::TextDelta(t)],
        None => Seq::empty(),
    }) + (match reasoning_of(delta) {
        Some(t) => seq![model::EventView::ReasoningDelta(t)],
        None => Seq::empty(),
    }) + calls_of(delta).map_values(|c: json::JsonView| call_event(c))
}

proof fn lemma_one_choice(delta: Seq<(Seq<char>, json::JsonView)>)
    ensures
        chunk_data(one_choice(delta)) == DataView::Events(
            delta_events(json::JsonView::Object(delta)),
        ),
{
    reveal_strlit("choices");
    reveal_strlit("error");
    reveal_strlit("usage");
    reveal_strlit("delta");
    reveal_strlit("finish_reason");
    assert("choices"@.len() == 7 && "error"@.len() == 5 && "usage"@.len() == 5 && "delta"@.len() == 5
        && "finish_reason"@.len() == 13);
    reveal_with_fuel(json::field_from, 2);
    let choice = json::JsonView::Object(seq![("delta"@, json::JsonView::Object(delta))]);
    let chunk = one_choice(delta);
    assert(json::field(chunk, "error"@) is None);
    assert(json::field(chunk, "usage"@) is None);
    assert(json::items_of(json::field(chunk, "choices"@)) == Some(seq![choice]));
    assert(seq![choice].drop_last() =~= Seq::empty());
    assert(choices_events(seq![choice].drop_last()) =~= Seq::empty());
    assert(json::field(choice, "delta"@) == Some(json::JsonView::Object(delta)));
    assert(json::text_at(choice, "finish_reason"@) is None);
    let events = delta_events(json::JsonView::Object(delta));
    assert(choice_events(choice) =~= events);
    assert(choices_events(seq![choice]) =~= events);
    assert(usage_events(chunk) + choices_events(seq![choice]) =~= events);
}

/// The reasons for which an answer ends are told apart, and one that is not known is
/// kept as it is spelled.
pub proof fn law_reasons_are_told_apart(other: Seq<char>)
    ensures
        finish_of("stop"@) == model::FinishView::Stop,
        finish_of("length"@) == model::FinishView::Length,
        finish_of("tool_calls"@) == model::FinishView::ToolCalls,
        finish_of("function_call"@) == model::FinishView::ToolCalls,
        finish_of("content_filter"@) == model::FinishView::ContentFilter,
        other != "stop"@ && other != "length"@ && other != "tool_calls"@ && other
            != "function_call"@ && other != "content_filter"@ ==> finish_of(other)
            == model::FinishView::Other(other),
{
    reveal_strlit("stop");
    reveal_strlit("length");
    reveal_strlit("tool_calls");
    reveal_strlit("function_call");
    reveal_strlit("content_filter");
    assert("stop"@.len() == 4 && "length"@.len() == 6 && "tool_calls"@.len() == 10
        && "function_call"@.len() == 13 && "content_filter"@.len() == 14);
}

/// A chunk that reports the tokens that were used says how many went in, how many came
/// out and how many it were in all. One that reports an error ends the answer with its
/// message, whatever else it says.
pub proof fn law_usage_and_errors_are_told(
    input: u64,
    output: u64,
    total: u64,
    message: Seq<char>,
    more: Seq<(Seq<char>, json::JsonView)>,
)
    ensures
        chunk_data(
            json::JsonView::Object(
                seq![
                    (
                        "usage"@,
                        json::JsonView::Object(
                            seq![
                                ("prompt_tokens"@, json::JsonView::Number(json::NumberView::Unsigned(input))),
                                ("completion_tokens"@, json::JsonView::Number(json::NumberView::Unsigned(output))),
                                ("total_tokens"@, json::JsonView::Number(json::NumberView::Unsigned(total))),
                            ],
                        ),
                    ),
                ],
            ),
        ) == DataView::Events(
            seq![
                model::EventView::Usage(
                    Usage { input_tokens: input, output_tokens: output, total_tokens: total },
                ),
            ],
        ),
        chunk_data(
            json::JsonView::Object(
                seq![
                    (
                        "error"@,
                        json::JsonView::Object(seq![("message"@, json::JsonView::Text(message))]),
                    ),
                ] + more,
            ),
        ) == DataView::Failed(message),
{
    reveal_strlit("choices");
    reveal_strlit("error");
    reveal_strlit("usage");
    reveal_strlit("prompt_tokens");
    reveal_strlit("completion_tokens");
    reveal_strlit("total_tokens");
    assert("choices"@.len() == 7 && "error"@[0] == 'e' && "usage"@[0] == 'u' && "usage"@.len() == 5);
    assert("prompt_tokens"@.len() == 13 && "completion_tokens"@.len() == 17
        && "total_tokens"@.len() == 12);
    reveal_with_fuel(json::field_from, 4);
    let usage = json::JsonView::Object(
        seq![
            ("prompt_tokens"@, json::JsonView::Number(json::NumberView::Unsigned(input))),
            ("completion_tokens"@, json::JsonView::Number(json::NumberView::Unsigned(output))),
            ("total_tokens"@, json::JsonView::Number(json::NumberView::Unsigned(total))),
        ],
    );
    let chunk = json::JsonView::Object(seq![("usage"@, usage)]);
    assert(json::field(chunk, "error"@) is None);
    assert(json::field(chunk, "choices"@) is None);
    assert(json::field(chunk, "usage"@) == Some(usage));
    assert(usage_events(chunk) + Seq::<model::EventView>::empty() =~= usage_events(chunk));
    let bad = json::JsonView::Object(
        seq![
            (
                "error"@,
                json::JsonView::Object(seq![("message"@, json::JsonView::Text(message))]),
            ),
        ] + more,
    );
    assert(bad->Object_0[0].0 == "error"@);
}

/// Models are offered under the names that an answer gives them, or under their
/// identifiers where it gives none; entries without an identifier are passed over.
pub proof fn law_models_are_listed(a: Seq<json::JsonView>, b: Seq<json::JsonView>, entry: json::JsonView)
    ensures
        listed_models(a + b) == listed_models(a) + listed_models(b),
        json::text_at(entry, "id"@) is None ==> listed_models(seq![entry]).len() == 0,
        json::text_at(entry, "id"@) matches Some(id) ==> listed_models(seq![entry]) == seq![
            (
                id,
                match json::text_at(entry, "name"@) {
                    Some(name) => name,
                    None => id,
                },
            ),
        ],
    decreases b.len(),
{
    if b.len() == 0 {
        assert(a + b =~= a);
        assert(listed_models(a) + Seq::<(Seq<char>, Seq<char>)>::empty() =~= listed_models(a));
    } else {
        law_models_are_listed(a, b.drop_last(), entry);
        assert((a + b).drop_last() =~= a + b.drop_last());
        assert((a + b).last() == b.last());
        assert(listed_models(a + b) =~= listed_models(a) + listed_models(b));
    }
    assert(seq![entry].drop_last() =~= Seq::empty());
    assert(listed_models(seq![entry].drop_last()) =~= Seq::empty());
    if let Some(id) = json::text_at(entry, "id"@) {
        assert(listed_models(seq![entry]) =~= seq![
            (
                id,
                match json::text_at(entry, "name"@) {
                    Some(name) => name,
                    None => id,
                },
            ),
        ]);
    }
}

/// The events of data come in the order of the data, until the one that ends the
/// answer: an answer without an end or an error passes on every event of every datum.
pub proof fn law_events_keep_their_order(data: Seq<Seq<char>>, next: Seq<char>)
    requires
        delivered(data).1 is None,
    ensures
        text::trimmed(next) == "[DONE]"@ ==> delivered(data.push(next)) == (
            delivered(data).0,
            Some(EndingView::Done),
        ),
        text::trimmed(next) != "[DONE]"@ ==> match json::json_parse(next) {
            Err(e) => delivered(data.push(next)) == (
                delivered(data).0,
                Some(EndingView::Failed("invalid chat completion event: "@ + e)),
            ),
            Ok(chunk) => match chunk_data(chunk) {
                DataView::Events(more) => delivered(data.push(next)) == (
                    delivered(data).0 + more,
                    None::<EndingView>,
                ),
                DataView::Failed(m) => delivered(data.push(next)) == (
                    delivered(data).0,
                    Some(EndingView::Failed(m)),
                ),
                DataView::Done => true,
            },
        },
{
    assert(data.push(next).drop_last() =~= data);
}

/// The key is told where there is one, before the other headers, which stay as they are. A
/// failure tells its status and what came with it.
pub proof fn law_keys_are_told(
    api_key: Seq<char>,
    headers: Seq<(Seq<char>, Seq<char>)>,
    status: Seq<char>,
    body: Seq<char>,
    m: Seq<char>,
)
    ensures
        api_key.len() > 0 ==> request_headers(api_key, headers) == seq![
            ("authorization"@, "Bearer "@ + api_key),
        ] + headers,
        api_key.len() == 0 ==> request_headers(api_key, headers) == headers,
        text::is_blank(body) ==> status_text(status, body) == "HTTP "@ + status,
        !text::is_blank(body) ==> status_text(status, body) == "HTTP "@ + status + ": "@
            + text::trimmed(body),
        step_of(Err(m)) == (Seq::<model::EventView>::empty(), Some(EndingView::Failed(m))),
{
}

} // verus!
