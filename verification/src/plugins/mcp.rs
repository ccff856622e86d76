//! A client of a tool server that speaks JSON-RPC over its standard streams: the
//! messages, the state of the connection and what the server's tools are called.
use crate::bytes;
use crate::environment;
use crate::json;
use crate::json::{Json, JsonNumber, ObjectBuilder};
use crate::model;
use crate::model::{Error, ToolDefinition, ToolOutput};
use crate::plugins::mcp_frame;
use crate::plugins::mcp_frame::FrameError;
use crate::plugins::registration;
use crate::plugins::registration::{Registration, RegistrationKind, RegistrationView};
use crate::text;
use std::collections::VecDeque;
use vstd::prelude::*;
use vstd::slice::slice_subrange;

verus! {

pub const PLUGIN_ID_PREFIX: &'static str = "external.mcp";

pub const PROTOCOL_VERSION: &'static str = "2025-03-26";

#[derive(Clone, Debug, PartialEq, Eq)]
pub struct McpConfig {
    pub server_name: String,
    pub program: String,
    pub args: Vec<String>,
    /// Variables, set one after the other.
    pub env: Vec<(String, String)>,
    /// How long a request may take, in nanoseconds.
    pub request_timeout_nanos: u128,
    pub max_message_bytes: usize,
    pub max_diagnostics: usize,
}

impl McpConfig {
    pub fn new(server_name: String, program: String) -> (r: Self)
        ensures
            r.server_name == server_name,
            r.program == program,
            r.args@.len() == 0,
            r.env@.len() == 0,
            r.request_timeout_nanos == 30_000_000_000,
            r.max_message_bytes == 4 * 1024 * 1024,
            r.max_diagnostics == 200,
    {
        McpConfig {
            server_name,
            program,
            args: Vec::new(),
            env: Vec::new(),
            request_timeout_nanos: 30_000_000_000,
            max_message_bytes: 4 * 1024 * 1024,
            max_diagnostics: 200,
        }
    }

    /// The variables that the server is started with, each name once, in the order of
    /// the names.
    pub fn environment(&self) -> (r: Vec<(String, String)>)
        ensures
            model::pair_views(r@) == environment::by_name(model::pair_views(self.env@)),
    {
        environment::order_by_name(self.env.as_slice())
    }
}

pub open spec fn is_valid(config: McpConfig) -> bool {
    &&& !text::is_blank(config.server_name@)
    &&& !text::is_blank(config.program@)
    &&& config.request_timeout_nanos > 0
    &&& config.max_message_bytes > 0
    &&& config.max_diagnostics > 0
}

// ---------------------------------------------------------------------------
// Names
// ---------------------------------------------------------------------------

/// Characters that a name keeps.
pub open spec fn is_name_char(c: char) -> bool {
    ('a' <= c && c <= 'z') || ('A' <= c && c <= 'Z') || ('0' <= c && c <= '9') || c == '_' || c
        == '-'
}

/// A text as a name: what a name cannot hold becomes an underscore.
pub open spec fn identified(value: Seq<char>) -> Seq<char> {
    value.map_values(
        |c: char|
            if is_name_char(c) {
                c
            } else {
                '_'
            },
    )
}

/// Makes a name of a text.
pub fn identifier(value: &str) -> (r: String)
    ensures
        r@ == identified(value@),
{
    let cs = text::to_chars(value);
    let mut out = String::new();
    let mut i: usize = 0;
    while i < cs.len()
        invariant
            cs@ == value@,
            i <= cs@.len(),
            out@ == identified(value@).take(i as int),
        decreases cs@.len() - i,
    {
        let c = cs[i];
        let plain = ('a' <= c && c <= 'z') || ('A' <= c && c <= 'Z') || ('0' <= c && c <= '9') || c
            == '_' || c == '-';
        if plain {
            out.push(c);
        } else {
            out.push('_');
        }
        proof {
            assert(identified(value@).take(i + 1) =~= identified(value@).take(i as int).push(
                identified(value@)[i as int],
            ));
        }
        i += 1;
    }
    proof {
        assert(identified(value@).take(i as int) =~= identified(value@));
    }
    out
}

/// The name of a server's tool among all tools.
pub open spec fn namespaced(server: Seq<char>, tool: Seq<char>) -> Seq<char> {
    "mcp__"@ + identified(server) + "__"@ + identified(tool)
}

/// The name of a server's tool among all tools.
pub fn namespaced_name(server: &str, tool: &str) -> (r: String)
    ensures
        r@ == namespaced(server@, tool@),
{
    text::cat4("mcp__", identifier(server).as_str(), "__", identifier(tool).as_str())
}

/// Names hold nothing but letters, digits, underscores and hyphens, and a text
/// that is a name stays as it is.
pub proof fn law_names_are_plain(value: Seq<char>)
    ensures
        identified(value).len() == value.len(),
        forall|i: int| 0 <= i < value.len() ==> is_name_char(#[trigger] identified(value)[i]),
        (forall|i: int| 0 <= i < value.len() ==> is_name_char(#[trigger] value[i]))
            ==> identified(value) == value,
{
    if forall|i: int| 0 <= i < value.len() ==> is_name_char(#[trigger] value[i]) {
        assert(identified(value) =~= value);
    }
}

// ---------------------------------------------------------------------------
// Messages
// ---------------------------------------------------------------------------

/// A request.
pub open spec fn request_view(id: u64, method: Seq<char>, params: json::JsonView) -> json::JsonView {
    json::JsonView::Object(
        seq![
            ("jsonrpc"@, json::JsonView::Text("2.0"@)),
            ("id"@, json::JsonView::Number(json::NumberView::Unsigned(id))),
            ("method"@, json::JsonView::Text(method)),
            ("params"@, params),
        ],
    )
}

/// A notification.
pub open spec fn notification_view(method: Seq<char>, params: json::JsonView) -> json::JsonView {
    json::JsonView::Object(
        seq![
            ("jsonrpc"@, json::JsonView::Text("2.0"@)),
            ("method"@, json::JsonView::Text(method)),
            ("params"@, params),
        ],
    )
}

/// The answer to a request of the server: this client has no methods.
pub open spec fn rejection_view(id: json::JsonView) -> json::JsonView {
    json::JsonView::Object(
        seq![
            ("jsonrpc"@, json::JsonView::Text("2.0"@)),
            ("id"@, id),
            (
                "error"@,
                json::JsonView::Object(
                    seq![
                        ("code"@, json::JsonView::Number(json::NumberView::Negative((-32601) as i64))),
                        ("message"@, json::JsonView::Text("client method not found"@)),
                    ],
                ),
            ),
        ],
    )
}

/// The parameters of the first request.
pub open spec fn initialize_view(client: Seq<char>, version: Seq<char>) -> json::JsonView {
    json::JsonView::Object(
        seq![
            ("protocolVersion"@, json::JsonView::Text(PROTOCOL_VERSION@)),
            ("capabilities"@, json::JsonView::Object(Seq::empty())),
            (
                "clientInfo"@,
                json::JsonView::Object(
                    seq![
                        ("name"@, json::JsonView::Text(client)),
                        ("version"@, json::JsonView::Text(version)),
                    ],
                ),
            ),
        ],
    )
}

/// The parameters of a tool call.
pub open spec fn call_view(name: Seq<char>, arguments: json::JsonView) -> json::JsonView {
    json::JsonView::Object(
        seq![("name"@, json::JsonView::Text(name)), ("arguments"@, arguments)],
    )
}

fn request(id: u64, method: &str, params: Json) -> (r: Json)
    ensures
        r@ == request_view(id, method@, params@),
{
    let fields = ObjectBuilder::new().with("jsonrpc", Json::text("2.0")).with(
        "id",
        Json::Number(JsonNumber::Unsigned(id)),
    ).with("method", Json::text(method)).with("params", params);
    proof {
        assert(fields@ =~= request_view(id, method@, params@)->Object_0);
    }
    fields.done()
}

/// A notification.
pub fn notification(method: &str, params: Json) -> (r: Json)
    ensures
        r@ == notification_view(method@, params@),
{
    let fields = ObjectBuilder::new().with("jsonrpc", Json::text("2.0")).with(
        "method",
        Json::text(method),
    ).with("params", params);
    proof {
        assert(fields@ =~= notification_view(method@, params@)->Object_0);
    }
    fields.done()
}

fn rejection(id: Json) -> (r: Json)
    ensures
        r@ == rejection_view(id@),
{
    let error = ObjectBuilder::new().with("code", Json::Number(JsonNumber::Negative(-32601))).with(
        "message",
        Json::text("client method not found"),
    );
    let ghost shown = error@;
    let fields = ObjectBuilder::new().with("jsonrpc", Json::text("2.0")).with("id", id).with(
        "error",
        error.done(),
    );
    proof {
        let wanted = rejection_view(id@)->Object_0;
        assert(shown =~= wanted[2].1->Object_0);
        assert(fields@ =~= wanted);
    }
    fields.done()
}

/// The parameters of the first request.
pub fn initialize_params(client: &str, version: &str) -> (r: Json)
    ensures
        r@ == initialize_view(client@, version@),
{
    let info = ObjectBuilder::new().with("name", Json::text(client)).with(
        "version",
        Json::text(version),
    );
    let ghost shown = info@;
    let fields = ObjectBuilder::new().with("protocolVersion", Json::text(PROTOCOL_VERSION)).with(
        "capabilities",
        ObjectBuilder::new().done(),
    ).with("clientInfo", info.done());
    proof {
        let wanted = initialize_view(client@, version@)->Object_0;
        assert(shown =~= wanted[2].1->Object_0);
        assert(fields@ =~= wanted);
    }
    fields.done()
}

/// The parameters of a tool call.
pub fn call_params(name: &str, arguments: Json) -> (r: Json)
    ensures
        r@ == call_view(name@, arguments@),
{
    let fields = ObjectBuilder::new().with("name", Json::text(name)).with("arguments", arguments);
    proof {
        assert(fields@ =~= call_view(name@, arguments@)->Object_0);
    }
    fields.done()
}

/// Puts a message into a frame, where it is not longer than `max` bytes.
pub fn write_message(value: &Json, max: usize) -> (r: model::Result<Vec<u8>>)
    ensures
        ({
            let body = vstd::utf8::encode_utf8(json::json_spelling(value@));
            if body.len() > max {
                r is Err && r->Err_0@ == model::ErrorView::Plugin(
                    "MCP message exceeds "@ + text::decimal(max as nat) + " bytes"@,
                )
            } else {
                r is Ok && r->Ok_0@ == mcp_frame::framed(body)
            }
        }),
{
    let spelled = json::spell_json(value);
    let body = spelled.as_str().as_bytes();
    if body.len() > max {
        return Err(
            Error::Plugin(
                text::cat3("MCP message exceeds ", text::usize_text(max).as_str(), " bytes"),
            ),
        );
    }
    Ok(mcp_frame::frame(body))
}

// ---------------------------------------------------------------------------
// Results of tools
// ---------------------------------------------------------------------------

/// One item of a result: its text, or how it is spelled.
pub open spec fn piece_of(item: json::JsonView) -> Seq<char> {
    if json::text_at(item, "type"@) == Some("text"@) {
        match json::text_at(item, "text"@) {
            Some(t) => t,
            None => Seq::empty(),
        }
    } else {
        json::json_spelling(item)
    }
}

pub open spec fn pieces_of(items: Seq<json::JsonView>) -> Seq<Seq<char>> {
    items.map_values(|item: json::JsonView| piece_of(item))
}

/// What the result of a tool call says.
pub open spec fn result_view(value: json::JsonView) -> Option<model::OutputView> {
    match json::items_of(json::field(value, "content"@)) {
        None => None,
        Some(items) => {
            let content = text::joined(pieces_of(items), "\n"@);
            if json::bool_of(json::field(value, "isError"@)) == Some(true) {
                Some(model::OutputView::Failure(content))
            } else {
                Some(model::OutputView::Success(content))
            }
        },
    }
}

fn show_piece(item: &Json) -> (r: String)
    ensures
        r@ == piece_of(item@),
{
    let is_text = match item.get_str("type") {
        Some(t) => text::same_text(t, "text"),
        None => false,
    };
    if is_text {
        match item.get_str("text") {
            Some(t) => text::owned(t),
            None => String::new(),
        }
    } else {
        json::spell_json(item)
    }
}

/// Reads the result of a tool call.
pub fn parse_tool_result(value: &Json) -> (r: model::Result<ToolOutput>)
    ensures
        match result_view(value@) {
            Some(output) => r is Ok && r->Ok_0@ == output,
            None => r is Err && r->Err_0@ == model::ErrorView::Tool(
                "MCP tools/call result has no content array"@,
            ),
        },
{
    let failed = match value.get("isError") {
        Some(v) => match v.as_bool() {
            Some(b) => b,
            None => false,
        },
        None => false,
    };
    let items = match value.get_array("content") {
        Some(items) => items,
        None => return Err(
            Error::Tool(text::owned("MCP tools/call result has no content array")),
        ),
    };
    let ghost all = json::json_views(items@);
    let mut pieces: Vec<String> = Vec::new();
    let mut i: usize = 0;
    proof {
        assert(text::texts(pieces@) =~= pieces_of(all).take(0));
    }
    while i < items.len()
        invariant
            i <= items@.len(),
            all == json::json_views(items@),
            text::texts(pieces@) == pieces_of(all).take(i as int),
        decreases items@.len() - i,
    {
        let piece = show_piece(&items[i]);
        let ghost before = text::texts(pieces@);
        let ghost shown = piece@;
        pieces.push(piece);
        proof {
            assert(text::texts(pieces@) =~= before.push(shown));
            assert(pieces_of(all).take(i + 1) =~= pieces_of(all).take(i as int).push(shown));
        }
        i += 1;
    }
    proof {
        assert(pieces_of(all).take(i as int) =~= pieces_of(all));
    }
    let content = text::join(pieces.as_slice(), "\n");
    if failed {
        Ok(ToolOutput::Failure { content })
    } else {
        Ok(ToolOutput::Success { content })
    }
}

// ---------------------------------------------------------------------------
// Tools
// ---------------------------------------------------------------------------

/// A tool as its server describes it.
pub struct McpToolDefinition {
    pub name: String,
    pub description: String,
    pub input_schema: Json,
}

/// A tool of a server under the name by which it is called here.
pub struct McpToolAdapter {
    pub exposed_name: String,
    pub remote: McpToolDefinition,
}

impl McpToolAdapter {
    /// The identifier of the tool.
    pub fn id(&self) -> (r: String)
        ensures
            r@ == "external.mcp."@ + self.exposed_name@,
    {
        text::cat2("external.mcp.", self.exposed_name.as_str())
    }

    /// What a provider is told of the tool.
    pub fn definition(&self) -> (r: ToolDefinition)
        ensures
            r.name@ == self.exposed_name@,
            r.description@ == self.remote.description@,
            r.schema@ == self.remote.input_schema@,
            r.freeform is None,
    {
        ToolDefinition {
            name: text::owned(self.exposed_name.as_str()),
            description: text::owned(self.remote.description.as_str()),
            schema: self.remote.input_schema.clone(),
            freeform: None,
        }
    }
}

pub open spec fn tool_names(tools: Seq<McpToolDefinition>) -> Seq<Seq<char>> {
    tools.map_values(|t: McpToolDefinition| t.name@)
}

/// The names of tools among all tools, or what is wrong with the first bad one.
pub open spec fn exposed_names(server: Seq<char>, tools: Seq<Seq<char>>) -> Result<
    Seq<Seq<char>>,
    Seq<char>,
>
    decreases tools.len(),
{
    if tools.len() == 0 {
        Ok(Seq::empty())
    } else {
        match exposed_names(server, tools.drop_last()) {
            Err(m) => Err(m),
            Ok(earlier) => {
                let name = namespaced(server, tools.last());
                if text::is_blank(tools.last()) {
                    Err("MCP tool has an empty name"@)
                } else if earlier.contains(name) {
                    Err("duplicate namespaced MCP tool: "@ + name)
                } else {
                    Ok(earlier.push(name))
                }
            },
        }
    }
}

proof fn lemma_exposed_err(server: Seq<char>, tools: Seq<Seq<char>>, n: int)
    requires
        0 <= n <= tools.len(),
        exposed_names(server, tools.take(n)) is Err,
    ensures
        exposed_names(server, tools) == exposed_names(server, tools.take(n)),
    decreases tools.len() - n,
{
    if n < tools.len() {
        assert(tools.take(n + 1).drop_last() =~= tools.take(n));
        lemma_exposed_err(server, tools, n + 1);
    } else {
        assert(tools.take(n) =~= tools);
    }
}

/// The tools of a server have distinct names.
pub proof fn law_exposed_names_are_distinct(server: Seq<char>, tools: Seq<Seq<char>>)
    ensures
        exposed_names(server, tools) matches Ok(names) ==> names.len() == tools.len()
            && names.no_duplicates(),
    decreases tools.len(),
{
    if tools.len() > 0 {
        law_exposed_names_are_distinct(server, tools.drop_last());
        if let Ok(earlier) = exposed_names(server, tools.drop_last()) {
            if let Ok(names) = exposed_names(server, tools) {
                assert forall|i: int, j: int|
                    0 <= i < names.len() && 0 <= j < names.len() && i != j implies names[i]
                    != names[j] by {
                    if i < earlier.len() && j < earlier.len() {
                        assert(earlier[i] != earlier[j]);
                    } else if i < earlier.len() {
                        assert(earlier.contains(earlier[i]));
                    } else {
                        assert(earlier.contains(earlier[j]));
                    }
                }
            }
        }
    }
}

pub open spec fn adapter_names(adapters: Seq<McpToolAdapter>) -> Seq<Seq<char>> {
    adapters.map_values(|a: McpToolAdapter| a.exposed_name@)
}

pub open spec fn adapter_tools(adapters: Seq<McpToolAdapter>) -> Seq<McpToolDefinition> {
    adapters.map_values(|a: McpToolAdapter| a.remote)
}

fn has_adapter(adapters: &Vec<McpToolAdapter>, name: &str) -> (r: bool)
    ensures
        r == adapter_names(adapters@).contains(name@),
{
    let mut i: usize = 0;
    while i < adapters.len()
        invariant
            i <= adapters@.len(),
            forall|j: int| 0 <= j < i ==> adapter_names(adapters@)[j] != name@,
        decreases adapters@.len() - i,
    {
        if text::same_text(adapters[i].exposed_name.as_str(), name) {
            assert(adapter_names(adapters@)[i as int] == name@);
            return true;
        }
        i += 1;
    }
    false
}

// ---------------------------------------------------------------------------
// Diagnostics
// ---------------------------------------------------------------------------

/// The last lines after another: the oldest makes room, once there are `max`.
pub open spec fn ring_after<T>(lines: Seq<T>, line: T, max: nat) -> Seq<T> {
    if lines.len() == max && lines.len() > 0 {
        lines.drop_first().push(line)
    } else {
        lines.push(line)
    }
}

/// There are never more than `max` lines, and the last one is the newest.
pub proof fn law_diagnostics_are_bounded<T>(lines: Seq<T>, line: T, max: nat)
    requires
        0 < max,
        lines.len() <= max,
    ensures
        ring_after(lines, line, max).len() <= max,
        ring_after(lines, line, max).last() == line,
{
}

/// Keeps another line.
pub fn push_diagnostic(lines: &mut VecDeque<String>, max: usize, line: String)
    ensures
        final(lines)@ == ring_after(old(lines)@, line, max as nat),
{
    if lines.len() == max && lines.len() > 0 {
        let _ = lines.pop_front();
        proof {
            assert(lines@ =~= old(lines)@.drop_first());
        }
    }
    lines.push_back(line);
}

/// A line of the server's errors on its way.
pub struct BoundedLine {
    pub bytes: Vec<u8>,
    pub truncated: bool,
}

/// What the bytes at hand add to a line.
pub ghost struct Taken {
    /// How many bytes are used up.
    pub used: nat,
    /// Whether the line is complete.
    pub done: bool,
    /// The line so far.
    pub bytes: Seq<u8>,
    pub truncated: bool,
}

/// What is at hand of a line, without the carriage return before the line feed.
pub open spec fn content_end(available: Seq<u8>) -> int {
    let end = bytes::byte_index(available, 10);
    if end > 0 && available[end - 1] == 13 {
        end - 1
    } else {
        end
    }
}

/// The line after the bytes at hand, of which there is at least one.
pub open spec fn line_taken(line: Seq<u8>, truncated: bool, available: Seq<u8>, max: nat) -> Taken {
    let feed = bytes::byte_index(available, 10);
    let content = available.take(content_end(available));
    let room: int = if line.len() >= max {
        0
    } else {
        max - line.len()
    };
    Taken {
        used: if feed < available.len() {
            (feed + 1) as nat
        } else {
            available.len()
        },
        done: feed < available.len(),
        bytes: line + content.take(if content.len() < room {
            content.len() as int
        } else {
            room
        }),
        truncated: truncated || content.len() > room,
    }
}

/// A line without the bytes that end it.
pub open spec fn bare_bytes(line: Seq<u8>) -> Seq<u8>
    decreases line.len(),
{
    if line.len() > 0 && (line.last() == 13 || line.last() == 10) {
        bare_bytes(line.drop_last())
    } else {
        line
    }
}

/// How far a line has come.
#[derive(Debug, PartialEq, Eq)]
pub enum LineProgress {
    /// Nothing follows.
    End,
    /// The line goes on after this many bytes.
    More(usize),
    /// The line, whether it was cut, and how many bytes were used up.
    Line(String, bool, usize),
}

impl BoundedLine {
    pub fn new() -> (r: Self)
        ensures
            r.bytes@.len() == 0,
            !r.truncated,
    {
        BoundedLine { bytes: Vec::new(), truncated: false }
    }

    fn finish(&mut self) -> (r: String)
        ensures
            r@ == bytes::lossy(bare_bytes(old(self).bytes@)),
            final(self).bytes@.len() == 0,
            !final(self).truncated,
    {
        let ghost start = self.bytes@;
        let mut n: usize = self.bytes.len();
        proof {
            assert(start.take(n as int) =~= start);
        }
        while n > 0 && (self.bytes[n - 1] == 13 || self.bytes[n - 1] == 10)
            invariant
                start == self.bytes@,
                n <= start.len(),
                bare_bytes(start) == bare_bytes(start.take(n as int)),
            decreases n,
        {
            proof {
                assert(start.take(n as int).drop_last() =~= start.take(n - 1));
            }
            n -= 1;
        }
        proof {
            assert(bare_bytes(start.take(n as int)) == start.take(n as int));
            assert(start.take(n as int) =~= start.subrange(0, n as int));
        }
        let line = bytes::lossy_text(slice_subrange(self.bytes.as_slice(), 0, n));
        self.bytes = Vec::new();
        self.truncated = false;
        line
    }
}

/// Reads on in a line of which at most `max` bytes are kept. Nothing at hand
/// means that nothing follows.
pub fn read_bounded_line(line: &mut BoundedLine, available: &[u8], max: usize) -> (r: LineProgress)
    ensures
        ({
            let start = *old(line);
            let end = *final(line);
            if available@.len() == 0 {
                if start.bytes@.len() == 0 {
                    r == LineProgress::End && end == start
                } else {
                    &&& r is Line
                    &&& r->Line_0@ == bytes::lossy(bare_bytes(start.bytes@))
                    &&& r->Line_1 == start.truncated
                    &&& r->Line_2 == 0
                    &&& end.bytes@.len() == 0
                    &&& !end.truncated
                }
            } else {
                let taken = line_taken(start.bytes@, start.truncated, available@, max as nat);
                if taken.done {
                    &&& r is Line
                    &&& r->Line_0@ == bytes::lossy(bare_bytes(taken.bytes))
                    &&& r->Line_1 == taken.truncated
                    &&& r->Line_2 == taken.used
                    &&& end.bytes@.len() == 0
                    &&& !end.truncated
                } else {
                    &&& r is More
                    &&& r->More_0 == taken.used
                    &&& end.bytes@ == taken.bytes
                    &&& end.truncated == taken.truncated
                }
            }
        }),
{
    if available.len() == 0 {
        if line.bytes.len() == 0 {
            return LineProgress::End;
        }
        let cut = line.truncated;
        return LineProgress::Line(line.finish(), cut, 0);
    }
    let feed: usize = bytes::find_byte(available, 10, 0);
    proof {
        assert(available@.skip(0) =~= available@);
    }
    let mut end: usize = feed;
    if end > 0 && available[end - 1] == 13 {
        end = end - 1;
    }
    let room: usize = if line.bytes.len() >= max {
        0
    } else {
        max - line.bytes.len()
    };
    let kept: usize = if end < room {
        end
    } else {
        room
    };
    let ghost content = available@.take(end as int);
    proof {
        assert(content.take(kept as int) =~= available@.subrange(0, kept as int));
    }
    bytes::extend(&mut line.bytes, slice_subrange(available, 0, kept));
    if end > room {
        line.truncated = true;
    }
    if feed < available.len() {
        let cut = line.truncated;
        return LineProgress::Line(line.finish(), cut, feed + 1);
    }
    LineProgress::More(available.len())
}

/// However the bytes of a line come in, no more than `max` of them are kept.
pub proof fn law_kept_lines_are_bounded(
    line: Seq<u8>,
    truncated: bool,
    available: Seq<u8>,
    max: nat,
)
    requires
        line.len() <= max,
    ensures
        line_taken(line, truncated, available, max).bytes.len() <= max,
{
    bytes::lemma_byte_index(available, 10);
}

// ---------------------------------------------------------------------------
// The connection
// ---------------------------------------------------------------------------

/// Where a connection stands.
#[derive(Clone, Copy, Debug, PartialEq, Eq, Structural)]
pub enum State {
    New,
    Initializing,
    Ready,
    Closed,
}

/// What a message of the server asks for.
pub enum Incoming {
    /// Nothing.
    Nothing,
    /// That this message is sent back.
    Answer(Json),
    /// That the request with this number gets this reply.
    Reply(u64, core::result::Result<Json, String>),
}

pub ghost enum IncomingView {
    Nothing,
    Answer(json::JsonView),
    Reply(u64, Result<json::JsonView, Seq<char>>),
    /// Something is wrong with the message.
    Bad(Seq<char>),
}

/// What a response says.
pub open spec fn reply_view(value: json::JsonView) -> Result<json::JsonView, Seq<char>> {
    match json::field(value, "error"@) {
        Some(e) => Err("MCP JSON-RPC error: "@ + json::json_spelling(e)),
        None => match json::field(value, "result"@) {
            Some(v) => Ok(v),
            None => Err("MCP response has neither result nor error"@),
        },
    }
}

/// What a message asks for, while the requests in `pending` wait.
pub open spec fn incoming(
    message: Result<json::JsonView, Seq<char>>,
    pending: Seq<u64>,
) -> IncomingView {
    match message {
        Err(m) => IncomingView::Bad("malformed JSON-RPC message: "@ + m),
        Ok(value) => if json::text_at(value, "jsonrpc"@) != Some("2.0"@) {
            IncomingView::Bad("message does not declare JSON-RPC 2.0"@)
        } else if json::field(value, "method"@) is Some {
            match json::field(value, "id"@) {
                Some(id) => IncomingView::Answer(rejection_view(id)),
                None => IncomingView::Nothing,
            }
        } else {
            match json::number_of(json::field(value, "id"@)) {
                None => IncomingView::Bad("response has no numeric id"@),
                Some(id) => if pending.contains(id) {
                    IncomingView::Reply(id, reply_view(value))
                } else {
                    IncomingView::Bad("response for unknown id "@ + text::decimal(id as nat))
                },
            }
        },
    }
}

/// A client of a server.
pub struct McpClient {
    pub server_name: String,
    pub state: State,
    pub next_id: u64,
    /// The requests that wait for a reply.
    pub pending: Vec<u64>,
    pub diagnostics: VecDeque<String>,
    pub max_diagnostics: usize,
    pub max_message_bytes: usize,
}

/// The numbers without `id`.
pub open spec fn without(pending: Seq<u64>, id: u64) -> Seq<u64> {
    pending.filter(|n: u64| n != id)
}

/// The same client but for what it waits for and what it has noted.
pub open spec fn same_but_traffic(a: McpClient, b: McpClient) -> bool {
    &&& a.server_name == b.server_name
    &&& a.state == b.state
    &&& a.next_id == b.next_id
    &&& a.max_diagnostics == b.max_diagnostics
    &&& a.max_message_bytes == b.max_message_bytes
}

/// The texts of the lines noted.
pub open spec fn noted(lines: Seq<String>) -> Seq<Seq<char>> {
    text::texts(lines)
}

fn waits(pending: &Vec<u64>, id: u64) -> (r: bool)
    ensures
        r == pending@.contains(id),
{
    let mut i: usize = 0;
    while i < pending.len()
        invariant
            i <= pending@.len(),
            forall|j: int| 0 <= j < i ==> pending@[j] != id,
        decreases pending@.len() - i,
    {
        if pending[i] == id {
            assert(pending@[i as int] == id);
            return true;
        }
        i += 1;
    }
    false
}

fn remove_pending(pending: &Vec<u64>, id: u64) -> (r: Vec<u64>)
    ensures
        r@ == without(pending@, id),
{
    let mut kept: Vec<u64> = Vec::new();
    let mut i: usize = 0;
    proof {
        assert(without(pending@.take(0), id) =~= Seq::empty()) by {
            reveal(Seq::filter);
        }
    }
    while i < pending.len()
        invariant
            i <= pending@.len(),
            kept@ == without(pending@.take(i as int), id),
        decreases pending@.len() - i,
    {
        proof {
            reveal(Seq::filter);
            assert(pending@.take(i + 1).drop_last() =~= pending@.take(i as int));
            assert(pending@.take(i + 1).last() == pending@[i as int]);
        }
        if pending[i] != id {
            kept.push(pending[i]);
        }
        i += 1;
    }
    proof {
        assert(pending@.take(i as int) =~= pending@);
    }
    kept
}

/// How waiting for a reply ended.
pub enum Waited {
    Reply(core::result::Result<Json, String>),
    TimedOut,
    Disconnected,
}

/// What a request returns once waiting has ended.
pub fn request_result(method: &str, waited: Waited) -> (r: model::Result<Json>)
    ensures
        match waited {
            Waited::Reply(Ok(v)) => r is Ok && r->Ok_0 == v,
            Waited::Reply(Err(m)) => r is Err && r->Err_0@ == model::ErrorView::Plugin(m@),
            Waited::TimedOut => r is Err && r->Err_0@ == model::ErrorView::Plugin(
                "MCP request "@ + method@ + " timed out"@,
            ),
            Waited::Disconnected => r is Err && r->Err_0@ == model::ErrorView::Plugin(
                "MCP response channel closed"@,
            ),
        },
{
    match waited {
        Waited::Reply(Ok(v)) => Ok(v),
        Waited::Reply(Err(m)) => Err(Error::Plugin(m)),
        Waited::TimedOut => Err(Error::Plugin(text::cat3("MCP request ", method, " timed out"))),
        Waited::Disconnected => Err(Error::Plugin(text::owned("MCP response channel closed"))),
    }
}

impl McpClient {
    /// A client for a configured server.
    pub fn new(config: &McpConfig) -> (r: model::Result<McpClient>)
        ensures
            r is Ok == is_valid(*config),
            r matches Err(e) ==> e@ == model::ErrorView::Plugin(
                "invalid MCP process configuration"@,
            ),
            r matches Ok(c) ==> {
                &&& c.server_name@ == config.server_name@
                &&& c.state == State::New
                &&& c.next_id == 1
                &&& c.pending@.len() == 0
                &&& c.diagnostics@.len() == 0
                &&& c.max_diagnostics == config.max_diagnostics
                &&& c.max_message_bytes == config.max_message_bytes
            },
    {
        if text::blank(config.server_name.as_str()) || text::blank(config.program.as_str())
            || config.request_timeout_nanos == 0 || config.max_message_bytes == 0
            || config.max_diagnostics == 0 {
            return Err(Error::Plugin(text::owned("invalid MCP process configuration")));
        }
        Ok(
            McpClient {
                server_name: text::owned(config.server_name.as_str()),
                state: State::New,
                next_id: 1,
                pending: Vec::new(),
                diagnostics: VecDeque::new(),
                max_diagnostics: config.max_diagnostics,
                max_message_bytes: config.max_message_bytes,
            },
        )
    }

    /// Starts to set the connection up, which is done once.
    pub fn begin_initialize(&mut self) -> (r: model::Result<()>)
        ensures
            if old(self).state == State::New {
                r is Ok && *final(self) == (McpClient { state: State::Initializing, ..*old(self) })
            } else {
                &&& r is Err
                &&& r->Err_0@ == model::ErrorView::Plugin(
                    "MCP client is already initialized or closed"@,
                )
                &&& *final(self) == *old(self)
            },
    {
        if self.state != State::New {
            return Err(Error::Plugin(text::owned("MCP client is already initialized or closed")));
        }
        self.state = State::Initializing;
        Ok(())
    }

    /// Ends setting the connection up. After a failure it can be tried again,
    /// unless the connection was closed meanwhile.
    pub fn end_initialize(&mut self, succeeded: bool)
        ensures
            *final(self) == (McpClient {
                state: if succeeded {
                    State::Ready
                } else if old(self).state == State::Initializing {
                    State::New
                } else {
                    old(self).state
                },
                ..*old(self)
            }),
    {
        if succeeded {
            self.state = State::Ready;
        } else if self.state == State::Initializing {
            self.state = State::New;
        }
    }

    /// Checks that the connection is set up.
    pub fn require_ready(&self) -> (r: model::Result<()>)
        ensures
            r is Ok == (self.state == State::Ready),
            r matches Err(e) ==> e@ == model::ErrorView::Plugin("MCP client is not initialized"@),
    {
        if self.state != State::Ready {
            return Err(Error::Plugin(text::owned("MCP client is not initialized")));
        }
        Ok(())
    }

    /// Starts a request: its number, and the message to send.
    pub fn start_request(&mut self, method: &str, params: Json) -> (r: model::Result<(u64, Json)>)
        ensures
            if old(self).state == State::Closed {
                &&& r is Err
                &&& r->Err_0@ == model::ErrorView::Plugin("MCP client is closed"@)
                &&& *final(self) == *old(self)
            } else {
                let id = old(self).next_id;
                &&& r is Ok
                &&& (r->Ok_0).0 == id
                &&& (r->Ok_0).1@ == request_view(id, method@, params@)
                &&& final(self).next_id == (if id == u64::MAX {
                    0
                } else {
                    id + 1
                })
                &&& final(self).pending@ == without(old(self).pending@, id).push(id)
                &&& final(self).server_name == old(self).server_name
                &&& final(self).state == old(self).state
                &&& final(self).diagnostics == old(self).diagnostics
                &&& final(self).max_diagnostics == old(self).max_diagnostics
                &&& final(self).max_message_bytes == old(self).max_message_bytes
            },
    {
        if self.state == State::Closed {
            return Err(Error::Plugin(text::owned("MCP client is closed")));
        }
        let id: u64 = self.next_id;
        self.next_id = if id == u64::MAX {
            0
        } else {
            id + 1
        };
        let mut kept = remove_pending(&self.pending, id);
        kept.push(id);
        self.pending = kept;
        Ok((id, request(id, method, params)))
    }

    /// Stops to wait for the reply to a request.
    pub fn forget(&mut self, id: u64)
        ensures
            final(self).pending@ == without(old(self).pending@, id),
            same_but_traffic(*final(self), *old(self)),
            final(self).diagnostics == old(self).diagnostics,
    {
        self.pending = remove_pending(&self.pending, id);
    }

    /// Notes a line about the connection.
    pub fn note(&mut self, line: String)
        ensures
            final(self).diagnostics@ == ring_after(
                old(self).diagnostics@,
                line,
                old(self).max_diagnostics as nat,
            ),
            final(self).pending == old(self).pending,
            same_but_traffic(*final(self), *old(self)),
    {
        push_diagnostic(&mut self.diagnostics, self.max_diagnostics, line);
    }

    /// Notes a line of the server's errors.
    pub fn note_line(&mut self, line: &str, truncated: bool)
        ensures
            final(self).pending == old(self).pending,
            same_but_traffic(*final(self), *old(self)),
            noted(final(self).diagnostics@) == ring_after(
                noted(old(self).diagnostics@),
                if truncated {
                    line@ + " [truncated]"@
                } else {
                    line@
                },
                old(self).max_diagnostics as nat,
            ),
    {
        let mut full = text::owned(line);
        if truncated {
            full.push_str(" [truncated]");
        }
        let ghost before = self.diagnostics@;
        let ghost shown = full;
        self.note(full);
        proof {
            lemma_noted(before, shown, self.max_diagnostics as nat);
        }
    }

    /// Notes that the output of the server makes no message.
    pub fn note_framing_error(&mut self, error: FrameError)
        ensures
            final(self).pending == old(self).pending,
            same_but_traffic(*final(self), *old(self)),
            noted(final(self).diagnostics@) == ring_after(
                noted(old(self).diagnostics@),
                "stdout framing error: "@ + mcp_frame::frame_complaint(error),
                old(self).max_diagnostics as nat,
            ),
    {
        self.note_output_error(error.message());
    }

    /// Notes that reading the output of the server failed, and how.
    pub fn note_output_error(&mut self, error: &str)
        ensures
            final(self).pending == old(self).pending,
            same_but_traffic(*final(self), *old(self)),
            noted(final(self).diagnostics@) == ring_after(
                noted(old(self).diagnostics@),
                "stdout framing error: "@ + error@,
                old(self).max_diagnostics as nat,
            ),
    {
        let line = text::cat2("stdout framing error: ", error);
        let ghost before = self.diagnostics@;
        let ghost shown = line;
        self.note(line);
        proof {
            lemma_noted(before, shown, self.max_diagnostics as nat);
        }
    }

    fn bad(&mut self, line: String) -> (r: Incoming)
        ensures
            r == Incoming::Nothing,
            final(self).pending == old(self).pending,
            same_but_traffic(*final(self), *old(self)),
            noted(final(self).diagnostics@) == ring_after(
                noted(old(self).diagnostics@),
                line@,
                old(self).max_diagnostics as nat,
            ),
    {
        let ghost before = self.diagnostics@;
        let ghost shown = line;
        self.note(line);
        proof {
            lemma_noted(before, shown, self.max_diagnostics as nat);
        }
        Incoming::Nothing
    }

    /// Takes in a message whose JSON has been read.
    pub fn receive_value(&mut self, message: core::result::Result<Json, String>) -> (r: Incoming)
        ensures
            same_but_traffic(*final(self), *old(self)),
            ({
                let shown = match message {
                    Ok(v) => Ok::<json::JsonView, Seq<char>>(v@),
                    Err(m) => Err::<json::JsonView, Seq<char>>(m@),
                };
                match incoming(shown, old(self).pending@) {
                    IncomingView::Nothing => {
                        &&& r == Incoming::Nothing
                        &&& final(self).pending == old(self).pending
                        &&& final(self).diagnostics == old(self).diagnostics
                    },
                    IncomingView::Answer(answer) => {
                        &&& r is Answer
                        &&& r->Answer_0@ == answer
                        &&& final(self).pending == old(self).pending
                        &&& final(self).diagnostics == old(self).diagnostics
                    },
                    IncomingView::Reply(id, reply) => {
                        &&& r is Reply
                        &&& r->Reply_0 == id
                        &&& match reply {
                            Ok(v) => r->Reply_1 is Ok && r->Reply_1->Ok_0@ == v,
                            Err(m) => r->Reply_1 is Err && r->Reply_1->Err_0@ == m,
                        }
                        &&& final(self).pending@ == without(old(self).pending@, id)
                        &&& final(self).diagnostics == old(self).diagnostics
                    },
                    IncomingView::Bad(line) => {
                        &&& r == Incoming::Nothing
                        &&& final(self).pending == old(self).pending
                        &&& noted(final(self).diagnostics@) == ring_after(
                            noted(old(self).diagnostics@),
                            line,
                            old(self).max_diagnostics as nat,
                        )
                    },
                }
            }),
    {
        let value = match message {
            Ok(v) => v,
            Err(m) => return self.bad(text::cat2("malformed JSON-RPC message: ", m.as_str())),
        };
        let declared = match value.get_str("jsonrpc") {
            Some(t) => text::same_text(t, "2.0"),
            None => false,
        };
        if !declared {
            return self.bad(text::owned("message does not declare JSON-RPC 2.0"));
        }
        if value.get("method").is_some() {
            return match value.get("id") {
                Some(id) => Incoming::Answer(rejection(id.clone())),
                None => Incoming::Nothing,
            };
        }
        let id: u64 = match value.get_u64("id") {
            Some(id) => id,
            None => return self.bad(text::owned("response has no numeric id")),
        };
        if !waits(&self.pending, id) {
            return self.bad(
                text::cat2("response for unknown id ", text::decimal_text(id as u128).as_str()),
            );
        }
        self.pending = remove_pending(&self.pending, id);
        let reply = match value.get("error") {
            Some(e) => Err(text::cat2("MCP JSON-RPC error: ", json::spell_json(e).as_str())),
            None => match value.get("result") {
                Some(v) => Ok(v.clone()),
                None => Err(text::owned("MCP response has neither result nor error")),
            },
        };
        Incoming::Reply(id, reply)
    }

    /// Takes in a message.
    pub fn receive(&mut self, message: &[u8]) -> (r: Incoming)
        ensures
            same_but_traffic(*final(self), *old(self)),
            match incoming(json::json_parse_bytes(message@), old(self).pending@) {
                IncomingView::Nothing => {
                    &&& r == Incoming::Nothing
                    &&& final(self).pending == old(self).pending
                    &&& final(self).diagnostics == old(self).diagnostics
                },
                IncomingView::Answer(answer) => {
                    &&& r is Answer
                    &&& r->Answer_0@ == answer
                    &&& final(self).pending == old(self).pending
                    &&& final(self).diagnostics == old(self).diagnostics
                },
                IncomingView::Reply(id, reply) => {
                    &&& r is Reply
                    &&& r->Reply_0 == id
                    &&& match reply {
                        Ok(v) => r->Reply_1 is Ok && r->Reply_1->Ok_0@ == v,
                        Err(m) => r->Reply_1 is Err && r->Reply_1->Err_0@ == m,
                    }
                    &&& final(self).pending@ == without(old(self).pending@, id)
                    &&& final(self).diagnostics == old(self).diagnostics
                },
                IncomingView::Bad(line) => {
                    &&& r == Incoming::Nothing
                    &&& final(self).pending == old(self).pending
                    &&& noted(final(self).diagnostics@) == ring_after(
                        noted(old(self).diagnostics@),
                        line,
                        old(self).max_diagnostics as nat,
                    )
                },
            },
    {
        self.receive_value(json::parse_json_bytes(message))
    }

    /// Gives up on all requests that wait: their numbers.
    pub fn fail_pending(&mut self) -> (r: Vec<u64>)
        ensures
            r@ == old(self).pending@,
            final(self).pending@.len() == 0,
            final(self).diagnostics == old(self).diagnostics,
            same_but_traffic(*final(self), *old(self)),
    {
        let mut waiting: Vec<u64> = Vec::new();
        let mut i: usize = 0;
        while i < self.pending.len()
            invariant
                i <= self.pending@.len(),
                waiting@ == self.pending@.take(i as int),
            decreases self.pending@.len() - i,
        {
            waiting.push(self.pending[i]);
            i += 1;
        }
        self.pending = Vec::new();
        waiting
    }

    /// Closes the connection. Returns whether it was open until now.
    pub fn close(&mut self) -> (r: bool)
        ensures
            r == (old(self).state != State::Closed),
            *final(self) == (McpClient { state: State::Closed, ..*old(self) }),
    {
        let open = self.state != State::Closed;
        self.state = State::Closed;
        open
    }

    /// The tools of the server, under the names by which they are called here.
    pub fn tool_adapters(&self, definitions: Vec<McpToolDefinition>) -> (r: model::Result<
        Vec<McpToolAdapter>,
    >)
        ensures
            if self.state != State::Ready {
                r is Err && r->Err_0@ == model::ErrorView::Plugin("MCP client is not initialized"@)
            } else {
                match exposed_names(self.server_name@, tool_names(definitions@)) {
                    Err(m) => r is Err && r->Err_0@ == model::ErrorView::Plugin(m),
                    Ok(names) => {
                        &&& r is Ok
                        &&& adapter_names(r->Ok_0@) == names
                        &&& adapter_tools(r->Ok_0@) == definitions@
                    },
                }
            },
    {
        if let Err(e) = self.require_ready() {
            return Err(e);
        }
        let ghost all = definitions@;
        let ghost names = tool_names(all);
        let mut rest = definitions;
        let mut adapters: Vec<McpToolAdapter> = Vec::new();
        let ghost mut i: int = 0;
        proof {
            assert(names.take(0) =~= Seq::empty());
            assert(adapter_names(adapters@) =~= Seq::empty());
            assert(adapter_tools(adapters@) =~= all.take(0));
            assert(all.skip(0) =~= all);
        }
        while rest.len() > 0
            invariant
                self.state == State::Ready,
                all == definitions@,
                0 <= i <= all.len(),
                names == tool_names(all),
                rest@ == all.skip(i),
                exposed_names(self.server_name@, names.take(i)) is Ok,
                adapter_names(adapters@) == exposed_names(self.server_name@, names.take(i))->Ok_0,
                adapter_tools(adapters@) == all.take(i),
            decreases rest@.len(),
        {
            let ghost before = adapters@;
            let definition = rest.remove(0);
            proof {
                assert(definition == all[i]);
                assert(rest@ =~= all.skip(i + 1));
                assert(names.take(i + 1).drop_last() =~= names.take(i));
                assert(names.take(i + 1).last() == definition.name@);
                if exposed_names(self.server_name@, names.take(i + 1)) is Err {
                    lemma_exposed_err(self.server_name@, names, i + 1);
                }
            }
            if text::blank(definition.name.as_str()) {
                return Err(Error::Plugin(text::owned("MCP tool has an empty name")));
            }
            let name = namespaced_name(self.server_name.as_str(), definition.name.as_str());
            if has_adapter(&adapters, name.as_str()) {
                return Err(
                    Error::Plugin(text::cat2("duplicate namespaced MCP tool: ", name.as_str())),
                );
            }
            let ghost shown = name@;
            let ghost tool = definition;
            adapters.push(McpToolAdapter { exposed_name: name, remote: definition });
            proof {
                assert(adapter_names(adapters@) =~= adapter_names(before).push(shown));
                assert(adapter_tools(adapters@) =~= adapter_tools(before).push(tool));
                assert(all.take(i + 1) =~= all.take(i).push(all[i]));
                i = i + 1;
            }
        }
        proof {
            assert(names.take(i) =~= names);
            assert(all.take(i) =~= all);
        }
        Ok(adapters)
    }
}

proof fn lemma_noted(lines: Seq<String>, line: String, max: nat)
    ensures
        noted(ring_after(lines, line, max)) == ring_after(noted(lines), line@, max),
{
    assert(noted(ring_after(lines, line, max)) =~= ring_after(noted(lines), line@, max));
}

/// The plugin that connects a server.
pub struct McpPlugin {
    pub config: McpConfig,
    /// Whether the server is connected.
    pub initialized: bool,
}

/// Makes the plugin.
pub fn mcp_plugin(config: McpConfig) -> (r: McpPlugin)
    ensures
        r.config == config,
        !r.initialized,
{
    McpPlugin { config, initialized: false }
}

impl McpPlugin {
    /// The identifier of the plugin.
    pub fn id(&self) -> (r: String)
        ensures
            r@ == PLUGIN_ID_PREFIX@ + "."@ + identified(self.config.server_name@),
    {
        text::cat3(PLUGIN_ID_PREFIX, ".", identifier(self.config.server_name.as_str()).as_str())
    }

    /// A client for the server, unless one is connected.
    pub fn begin(&self) -> (r: model::Result<McpClient>)
        ensures
            if self.initialized {
                r is Err && r->Err_0@ == model::ErrorView::Plugin(
                    "MCP plugin is already initialized"@,
                )
            } else if !is_valid(self.config) {
                r is Err && r->Err_0@ == model::ErrorView::Plugin(
                    "invalid MCP process configuration"@,
                )
            } else {
                &&& r is Ok
                &&& r->Ok_0.server_name@ == self.config.server_name@
                &&& r->Ok_0.state == State::New
                &&& r->Ok_0.next_id == 1
                &&& r->Ok_0.pending@.len() == 0
                &&& r->Ok_0.diagnostics@.len() == 0
                &&& r->Ok_0.max_diagnostics == self.config.max_diagnostics
                &&& r->Ok_0.max_message_bytes == self.config.max_message_bytes
            },
    {
        if self.initialized {
            return Err(Error::Plugin(text::owned("MCP plugin is already initialized")));
        }
        McpClient::new(&self.config)
    }

    /// Keeps that the server is connected and its tools are registered: from now on
    /// `begin` gives no other client.
    pub fn connected(&mut self)
        ensures
            final(self).initialized,
            final(self).config == old(self).config,
    {
        self.initialized = true;
    }
}

/// What the plugin registers: each tool of the server, under the name by which it is
/// called here.
pub open spec fn registered(names: Seq<Seq<char>>) -> Seq<RegistrationView> {
    names.map_values(|name: Seq<char>| (RegistrationKind::Tool, "external.mcp."@ + name, 0int))
}

impl McpPlugin {
    /// What the plugin registers once the server told its tools.
    pub fn registrations(&self, adapters: &[McpToolAdapter]) -> (r: Vec<Registration>)
        ensures
            registration::registration_views(r@) == registered(adapter_names(adapters@)),
    {
        let ghost names = adapter_names(adapters@);
        let mut list: Vec<Registration> = Vec::new();
        let mut i: usize = 0;
        proof {
            assert(registration::registration_views(list@) =~= registered(names.take(0)));
        }
        while i < adapters.len()
            invariant
                i <= adapters@.len(),
                names == adapter_names(adapters@),
                registration::registration_views(list@) == registered(names.take(i as int)),
            decreases adapters@.len() - i,
        {
            let id = adapters[i].id();
            registration::register(&mut list, RegistrationKind::Tool, id.as_str(), 0);
            proof {
                assert(names[i as int] == adapters@[i as int].exposed_name@);
                assert(registration::registration_views(list@) =~= registered(
                    names.take(i + 1),
                ));
            }
            i += 1;
        }
        proof {
            assert(names.take(i as int) =~= names);
        }
        list
    }
}

/// A reply settles one request: the request waited for it, it waits no longer,
/// and all others still wait.
pub proof fn law_replies_settle_one_request(
    message: Result<json::JsonView, Seq<char>>,
    pending: Seq<u64>,
    other: u64,
)
    ensures
        incoming(message, pending) matches IncomingView::Reply(id, _) ==> {
            &&& pending.contains(id)
            &&& !without(pending, id).contains(id)
            &&& other != id ==> (without(pending, id).contains(other) <==> pending.contains(other))
        },
{
    if let IncomingView::Reply(id, _) = incoming(message, pending) {
        lemma_without(pending, id, id);
        lemma_without(pending, id, other);
    }
}

proof fn lemma_without(pending: Seq<u64>, id: u64, n: u64)
    ensures
        without(pending, id).contains(n) <==> pending.contains(n) && n != id,
    decreases pending.len(),
{
    reveal(Seq::filter);
    if pending.len() > 0 {
        let rest = pending.drop_last();
        lemma_without(rest, id, n);
        let kept = without(rest, id);
        if pending.contains(n) {
            let i = choose|i: int| 0 <= i < pending.len() && pending[i] == n;
            if i < rest.len() {
                assert(rest[i] == n);
            }
        }
        if rest.contains(n) {
            let i = choose|i: int| 0 <= i < rest.len() && rest[i] == n;
            assert(pending[i] == n);
        }
        if pending.last() != id {
            let all = kept.push(pending.last());
            assert(without(pending, id) == all);
            if kept.contains(n) {
                let i = choose|i: int| 0 <= i < kept.len() && kept[i] == n;
                assert(all[i] == n);
            }
            if n == pending.last() {
                assert(all[kept.len() as int] == n);
            }
            if all.contains(n) {
                let i = choose|i: int| 0 <= i < all.len() && all[i] == n;
                if i < kept.len() {
                    assert(kept[i] == n);
                } else {
                    assert(pending[pending.len() - 1] == n);
                }
            }
        }
    }
}

/// A request tells its number, its method and what it is called with; a call tells the
/// tool and its arguments.
pub proof fn law_requests_are_told(
    id: u64,
    method: Seq<char>,
    params: json::JsonView,
    name: Seq<char>,
)
    ensures
        json::text_at(request_view(id, method, params), "jsonrpc"@) == Some("2.0"@),
        json::number_of(json::field(request_view(id, method, params), "id"@)) == Some(id),
        json::text_at(request_view(id, method, params), "method"@) == Some(method),
        json::field(request_view(id, method, params), "params"@) == Some(params),
        json::text_at(notification_view(method, params), "method"@) == Some(method),
        json::field(notification_view(method, params), "params"@) == Some(params),
        json::field(notification_view(method, params), "id"@) is None,
        json::text_at(call_view(name, params), "name"@) == Some(name),
        json::field(call_view(name, params), "arguments"@) == Some(params),
{
    lemma_field_names();
    reveal_with_fuel(json::field_from, 5);
}

proof fn lemma_field_names()
    ensures
        "jsonrpc"@.len() == 7,
        "id"@.len() == 2,
        "method"@.len() == 6,
        "params"@.len() == 6,
        "method"@ != "params"@,
        "error"@.len() == 5,
        "result"@.len() == 6,
        "result"@ != "method"@,
        "name"@.len() == 4,
        "arguments"@.len() == 9,
{
    reveal_strlit("jsonrpc");
    reveal_strlit("id");
    reveal_strlit("method");
    reveal_strlit("params");
    reveal_strlit("error");
    reveal_strlit("result");
    reveal_strlit("name");
    reveal_strlit("arguments");
    assert("method"@[0] == 'm' && "params"@[0] == 'p' && "result"@[0] == 'r');
}

/// A reply goes to the request that has its number: its result as it is, or its error. A
/// request that is not waited for is not answered by it. What the server asks for is
/// refused under the number that it gave.
pub proof fn law_replies_go_where_they_belong(
    value: json::JsonView,
    id: u64,
    result: json::JsonView,
    given: json::JsonView,
    pending: Seq<u64>,
)
    requires
        json::text_at(value, "jsonrpc"@) == Some("2.0"@),
    ensures
        json::field(value, "method"@) is None && json::field(value, "id"@) == Some(
            json::JsonView::Number(json::NumberView::Unsigned(id)),
        ) && pending.contains(id) && json::field(value, "error"@) is None && json::field(
            value,
            "result"@,
        ) == Some(result) ==> incoming(Ok(value), pending) == IncomingView::Reply(
            id,
            Ok::<json::JsonView, Seq<char>>(result),
        ),
        json::field(value, "method"@) is None && json::field(value, "id"@) == Some(
            json::JsonView::Number(json::NumberView::Unsigned(id)),
        ) && pending.contains(id) && json::field(value, "error"@) is Some ==> (incoming(
            Ok(value),
            pending,
        ) matches IncomingView::Reply(to, answer) && to == id && answer is Err),
        json::field(value, "method"@) is None && json::field(value, "id"@) == Some(
            json::JsonView::Number(json::NumberView::Unsigned(id)),
        ) && !pending.contains(id) ==> incoming(Ok(value), pending) is Bad,
        json::field(value, "method"@) is Some && json::field(value, "id"@) == Some(given) ==> (
        incoming(Ok(value), pending) matches IncomingView::Answer(answer) && json::field(
            answer,
            "id"@,
        ) == Some(given) && json::field(answer, "error"@) is Some && json::field(
            answer,
            "result"@,
        ) is None),
        json::field(value, "method"@) is Some && json::field(value, "id"@) is None ==> incoming(
            Ok(value),
            pending,
        ) == IncomingView::Nothing,
{
    lemma_field_names();
    reveal_with_fuel(json::field_from, 5);
}

/// The result of a call holds its texts line by line and is a failure exactly where the
/// server says so; without a content it is no result.
pub proof fn law_results_are_read(
    value: json::JsonView,
    items: Seq<json::JsonView>,
    item: json::JsonView,
    t: Seq<char>,
)
    ensures
        json::text_at(item, "type"@) == Some("text"@) && json::text_at(item, "text"@) == Some(t)
            ==> pieces_of(seq![item]) == seq![t],
        json::text_at(item, "type"@) != Some("text"@) ==> pieces_of(seq![item]) == seq![
            json::json_spelling(item),
        ],
        pieces_of(items.push(item)) == pieces_of(items) + pieces_of(seq![item]),
        json::field(value, "content"@) == Some(json::JsonView::Array(items)) && json::field(
            value,
            "isError"@,
        ) == Some(json::JsonView::Bool(true)) ==> result_view(value) == Some(
            model::OutputView::Failure(text::joined(pieces_of(items), seq!['\n'])),
        ),
        json::field(value, "content"@) == Some(json::JsonView::Array(items)) && json::field(
            value,
            "isError"@,
        ) != Some(json::JsonView::Bool(true)) ==> result_view(value) == Some(
            model::OutputView::Success(text::joined(pieces_of(items), seq!['\n'])),
        ),
        json::field(value, "content"@) is None ==> result_view(value) is None,
{
    reveal_strlit("\n");
    assert("\n"@ =~= seq!['\n']);
    assert(pieces_of(seq![item]) =~= seq![piece_of(item)]);
    assert(pieces_of(items.push(item)) =~= pieces_of(items) + pieces_of(seq![item]));
}

/// Every tool is offered under a name that tells the server and the tool, in the order of
/// the server; a tool without a name is refused.
pub proof fn law_tools_are_offered_by_server_and_name(
    server: Seq<char>,
    tools: Seq<Seq<char>>,
    i: int,
)
    requires
        0 <= i < tools.len(),
    ensures
        exposed_names(server, tools) matches Ok(names) ==> names.len() == tools.len() && names[i]
            == "mcp__"@ + identified(server) + "__"@ + identified(tools[i]),
        text::is_blank(tools[i]) ==> exposed_names(server, tools) is Err,
    decreases tools.len(),
{
    let front = tools.drop_last();
    law_exposed_names_are_distinct(server, front);
    if i < front.len() {
        law_tools_are_offered_by_server_and_name(server, front, i);
    }
}

/// A line is taken up to its end, which does not belong to it; what follows is left. As
/// much of it is kept as there is room for.
pub proof fn law_lines_are_taken_whole(
    line: Seq<u8>,
    content: Seq<u8>,
    rest: Seq<u8>,
    max: nat,
)
    requires
        !content.contains(10u8),
        content.len() == 0 || content.last() != 13u8,
        line.len() + content.len() <= max,
    ensures
        line_taken(line, false, content.push(10u8) + rest, max) == (Taken {
            used: content.len() + 1,
            done: true,
            bytes: line + content,
            truncated: false,
        }),
        line_taken(line, false, content + seq![13u8, 10u8] + rest, max) == (Taken {
            used: content.len() + 2,
            done: true,
            bytes: line + content,
            truncated: false,
        }),
{
    let a = content.push(10u8) + rest;
    let b = content + seq![13u8, 10u8] + rest;
    let n = content.len() as int;
    lemma_feed_at(a, n);
    assert(!b.take(n + 1).contains(10u8)) by {
        if b.take(n + 1).contains(10u8) {
            let k = b.take(n + 1).index_of(10u8);
            if k < n {
                assert(content[k] == 10u8);
            }
        }
    }
    lemma_feed_at(b, n + 1);
    assert(a.take(n) =~= content);
    assert(b.take(n) =~= content);
    assert(content.take(n) =~= content);
    if n > 0 {
        assert(a[n - 1] == content.last());
    }
}

proof fn lemma_feed_at(b: Seq<u8>, n: int)
    requires
        0 <= n < b.len(),
        !b.take(n).contains(10u8),
        b[n] == 10,
    ensures
        bytes::byte_index(b, 10) == n,
    decreases n,
{
    if n > 0 {
        let rest = b.drop_first();
        assert(b.take(n)[0] == b[0]);
        assert(b.take(n).contains(b[0]));
        assert(!rest.take(n - 1).contains(10u8)) by {
            if rest.take(n - 1).contains(10u8) {
                let k = rest.take(n - 1).index_of(10u8);
                assert(b.take(n)[k + 1] == 10u8);
            }
        }
        lemma_feed_at(rest, n - 1);
    }
}

/// Of the diagnostics the latest are kept, in their order.
pub proof fn law_latest_diagnostics_are_kept<T>(lines: Seq<T>, line: T, max: nat)
    requires
        0 < max,
    ensures
        lines.len() < max ==> ring_after(lines, line, max) == lines.push(line),
        lines.len() == max ==> ring_after(lines, line, max) == lines.skip(1).push(line),
{
    if lines.len() == max {
        assert(lines.drop_first() =~= lines.skip(1));
    }
}

/// Line ends behind a line are taken off, and nothing else.
pub proof fn law_line_ends_are_taken_off(line: Seq<u8>)
    ensures
        bare_bytes(line.push(10u8)) == bare_bytes(line),
        bare_bytes(line.push(13u8)) == bare_bytes(line),
        line.len() == 0 || (line.last() != 10u8 && line.last() != 13u8) ==> bare_bytes(line) == line,
{
    assert(line.push(10u8).drop_last() =~= line);
    assert(line.push(13u8).drop_last() =~= line);
}

/// A client introduces itself with its name and its version, and refuses what it is asked
/// for with the code of a method that is not there.
pub proof fn law_clients_introduce_themselves(
    client: Seq<char>,
    version: Seq<char>,
    id: json::JsonView,
)
    ensures
        json::text_at(initialize_view(client, version), "protocolVersion"@) == Some(
            PROTOCOL_VERSION@,
        ),
        json::field(initialize_view(client, version), "clientInfo"@) matches Some(info)
            && json::text_at(info, "name"@) == Some(client) && json::text_at(info, "version"@)
            == Some(version),
        json::field(rejection_view(id), "error"@) matches Some(error) && json::field(error, "code"@)
            == Some(json::JsonView::Number(json::NumberView::Negative((-32601) as i64))),
{
    lemma_field_names();
    reveal_strlit("protocolVersion");
    reveal_strlit("capabilities");
    reveal_strlit("clientInfo");
    reveal_strlit("version");
    assert("protocolVersion"@.len() == 15 && "capabilities"@.len() == 12 && "clientInfo"@.len()
        == 10 && "version"@.len() == 7);
    reveal_with_fuel(json::field_from, 4);
}

} // verus!
