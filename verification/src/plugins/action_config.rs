//! The action that edits the configuration, with a schema that is served while the
//! editor is open.
use crate::bytes;
use crate::ids;
use crate::ids::{fresh, PluginId, ShellActionId};
use crate::json;
use crate::json::{Json, ObjectBuilder};
use crate::model;
use crate::model::Error;
use crate::text;
use vstd::prelude::*;

verus! {

pub const NAME: &'static str = "config";

pub const DESCRIPTION: &'static str = "Edit Airicode configuration with its generated JSON schema.";

/// How many bytes of a request are read.
pub const MAX_REQUEST_BYTES: usize = 8192;

/// The action.
pub struct ActionConfig {
    pub id: ShellActionId,
    pub schema: Json,
}

/// Which file is edited, or why none is.
pub open spec fn target_of(
    arguments: Seq<Seq<char>>,
    project: Seq<char>,
    global: Option<Seq<char>>,
) -> Result<Seq<char>, model::ErrorView> {
    if arguments.len() == 0 {
        Ok(project)
    } else if arguments.len() == 1 && arguments[0] == "--global"@ {
        match global {
            Some(path) => Ok(path),
            None => Err(
                model::ErrorView::Config(
                    "XDG_CONFIG_HOME or HOME is required for global configuration"@,
                ),
            ),
        }
    } else {
        Err(model::ErrorView::Command("usage: config [--global]"@))
    }
}

/// Fields without those of a name.
pub open spec fn without_field(fields: Seq<(Seq<char>, json::JsonView)>, key: Seq<char>) -> Seq<
    (Seq<char>, json::JsonView),
>
    decreases fields.len(),
{
    if fields.len() == 0 {
        Seq::empty()
    } else {
        let before = without_field(fields.drop_last(), key);
        if fields.last().0 == key {
            before
        } else {
            before.push(fields.last())
        }
    }
}

/// The fields of an object without those of a name.
fn remove_field(fields: &[(String, Json)], key: &str) -> (r: Vec<(String, Json)>)
    ensures
        json::field_views(r@) == without_field(json::field_views(fields@), key@),
{
    let ghost all = json::field_views(fields@);
    let mut r: Vec<(String, Json)> = Vec::new();
    let mut i: usize = 0;
    proof {
        assert(all.take(0) =~= Seq::empty());
        assert(json::field_views(r@) =~= Seq::empty());
    }
    while i < fields.len()
        invariant
            i <= fields@.len(),
            all == json::field_views(fields@),
            json::field_views(r@) == without_field(all.take(i as int), key@),
        decreases fields@.len() - i,
    {
        let ghost before = json::field_views(r@);
        proof {
            assert(all.take(i + 1).drop_last() =~= all.take(i as int));
            assert(all.take(i + 1).last() == (fields@[i as int].0@, fields@[i as int].1@));
        }
        if !text::same_text(fields[i].0.as_str(), key) {
            let name = text::owned(fields[i].0.as_str());
            let value = fields[i].1.clone();
            let ghost field = (name@, value@);
            r.push((name, value));
            proof {
                assert(json::field_views(r@) =~= before.push(field));
            }
        }
        i += 1;
    }
    proof {
        assert(all.take(i as int) =~= all);
    }
    r
}

/// What was made of the configuration in the editor, or why it is not saved.
pub open spec fn edited(parsed: Result<json::JsonView, Seq<char>>) -> Result<
    json::JsonView,
    Seq<char>,
> {
    match parsed {
        Err(e) => Err("editor output is not valid JSON; configuration was not saved: "@ + e),
        Ok(json::JsonView::Object(fields)) => Ok(
            json::JsonView::Object(without_field(fields, "$schema"@)),
        ),
        Ok(_) => Err("editor output must be a JSON object; configuration was not saved"@),
    }
}

/// Takes the reference to the schema out of what was made in the editor.
pub fn without_schema(parsed: core::result::Result<Json, String>) -> (r: model::Result<Json>)
    ensures
        match edited(json::result_view(parsed)) {
            Ok(v) => r is Ok && r->Ok_0@ == v,
            Err(m) => r is Err && r->Err_0@ == model::ErrorView::Config(m),
        },
{
    match parsed {
        Err(e) => Err(
            Error::Config(
                text::cat2(
                    "editor output is not valid JSON; configuration was not saved: ",
                    e.as_str(),
                ),
            ),
        ),
        Ok(value) => {
            if let Json::Object(fields) = &value {
                proof {
                    assert(value@->Object_0 =~= json::field_views(fields@));
                }
                let kept = remove_field(fields.as_slice(), "$schema");
                return Ok(json::object(kept));
            }
            Err(
                Error::Config(
                    text::owned("editor output must be a JSON object; configuration was not saved"),
                ),
            )
        },
    }
}

/// Reads what was made of the configuration in the editor.
pub fn read_edited(content: &[u8]) -> (r: model::Result<Json>)
    ensures
        match edited(json::json_parse_bytes(content@)) {
            Ok(v) => r is Ok && r->Ok_0@ == v,
            Err(m) => r is Err && r->Err_0@ == model::ErrorView::Config(m),
        },
{
    without_schema(json::parse_json_bytes(content))
}

/// What is reported after the configuration was saved.
pub open spec fn report(target: Seq<char>, diagnostics: Seq<Seq<char>>) -> Seq<char> {
    let saved = "saved "@ + target;
    if diagnostics.len() == 0 {
        saved
    } else {
        saved + "\nWarnings:\n"@ + text::joined(diagnostics, "\n"@)
    }
}

/// A configuration without its reference to the schema is what it was before the
/// reference was put in, where it had none.
pub proof fn law_the_schema_leaves_no_trace(
    fields: Seq<(Seq<char>, json::JsonView)>,
    url: json::JsonView,
)
    requires
        forall|i: int| 0 <= i < fields.len() ==> (#[trigger] fields[i]).0 != "$schema"@,
    ensures
        without_field(json::with_field(fields, "$schema"@, url), "$schema"@) == fields,
{
    lemma_with_new_field(fields, "$schema"@, url);
    let more = fields.push(("$schema"@, url));
    assert(more.drop_last() =~= fields);
    lemma_without_no_field(fields, "$schema"@);
}

proof fn lemma_with_new_field(
    fields: Seq<(Seq<char>, json::JsonView)>,
    key: Seq<char>,
    value: json::JsonView,
)
    requires
        forall|i: int| 0 <= i < fields.len() ==> (#[trigger] fields[i]).0 != key,
    ensures
        json::with_field(fields, key, value) == fields.push((key, value)),
    decreases fields.len(),
{
    if fields.len() == 0 {
        assert(fields.push((key, value)) =~= seq![(key, value)]);
    } else {
        let rest = fields.drop_first();
        assert forall|i: int| 0 <= i < rest.len() implies (#[trigger] rest[i]).0 != key by {
            assert(rest[i] == fields[i + 1]);
        }
        assert(fields[0].0 != key);
        lemma_with_new_field(rest, key, value);
        assert(seq![fields[0]] + rest.push((key, value)) =~= fields.push((key, value)));
    }
}

proof fn lemma_without_no_field(fields: Seq<(Seq<char>, json::JsonView)>, key: Seq<char>)
    requires
        forall|i: int| 0 <= i < fields.len() ==> (#[trigger] fields[i]).0 != key,
    ensures
        without_field(fields, key) == fields,
    decreases fields.len(),
{
    if fields.len() > 0 {
        let front = fields.drop_last();
        assert forall|i: int| 0 <= i < front.len() implies (#[trigger] front[i]).0 != key by {
            assert(front[i] == fields[i]);
        }
        assert(fields[fields.len() - 1].0 != key);
        lemma_without_no_field(front, key);
        assert(front.push(fields.last()) =~= fields);
    } else {
        assert(without_field(fields, key) =~= fields);
    }
}

impl ActionConfig {
    pub fn new(schema: Json) -> (r: Self)
        ensures
            ids::is_random(r.id.0),
            r.schema == schema,
    {
        ActionConfig { id: ShellActionId(fresh()), schema }
    }

    /// The identifier of the action.
    pub fn id(&self) -> (r: ShellActionId)
        ensures
            r == self.id,
    {
        self.id
    }

    /// How the arguments of the action are described.
    pub fn arguments_schema(&self) -> (r: Json)
        ensures
            r@ == json::JsonView::Object(
                seq![
                    (
                        "arguments"@,
                        json::JsonView::Object(
                            seq![
                                ("type"@, json::JsonView::Text("string"@)),
                                ("enum"@, json::texts_view(seq!["--global"@])),
                                (
                                    "maxItems"@,
                                    json::JsonView::Number(json::NumberView::Unsigned(1)),
                                ),
                            ],
                        ),
                    ),
                ],
            ),
    {
        let arguments = ObjectBuilder::new().with("type", Json::text("string")).with(
            "enum",
            json::text_array(&["--global"]),
        ).with("maxItems", Json::Number(json::JsonNumber::Unsigned(1)));
        let ghost inner = arguments@;
        let fields = ObjectBuilder::new().with("arguments", arguments.done());
        proof {
            let wanted = seq![
                ("type"@, json::JsonView::Text("string"@)),
                ("enum"@, json::texts_view(seq!["--global"@])),
                ("maxItems"@, json::JsonView::Number(json::NumberView::Unsigned(1))),
            ];
            assert(inner[1].1->Array_0 =~= wanted[1].1->Array_0);
            assert(inner =~= wanted);
            assert(fields@ =~= seq![("arguments"@, json::JsonView::Object(wanted))]);
        }
        fields.done()
    }

    /// Which file is edited.
    pub fn target(&self, arguments: &[String], project: &str, global: Option<&str>) -> (r:
        model::Result<String>)
        ensures
            match target_of(text::texts(arguments@), project@, json::opt_str(global)) {
                Ok(path) => r is Ok && r->Ok_0@ == path,
                Err(e) => r is Err && r->Err_0@ == e,
            },
    {
        proof {
            if arguments@.len() > 0 {
                assert(text::texts(arguments@)[0] == arguments@[0]@);
            }
        }
        if arguments.len() == 0 {
            return Ok(text::owned(project));
        }
        if arguments.len() == 1 && text::same_text(arguments[0].as_str(), "--global") {
            return match global {
                Some(path) => Ok(text::owned(path)),
                None => Err(
                    Error::Config(
                        text::owned("XDG_CONFIG_HOME or HOME is required for global configuration"),
                    ),
                ),
            };
        }
        Err(Error::Command(text::owned("usage: config [--global]")))
    }

    /// What the editor is given: the configuration with a reference to its schema.
    pub fn with_schema(&self, config: Vec<(String, Json)>, url: &str) -> (r: Json)
        ensures
            r@ == json::JsonView::Object(
                json::with_field(
                    json::field_views(config@),
                    "$schema"@,
                    json::JsonView::Text(url@),
                ),
            ),
    {
        let mut fields = config;
        json::set_field(&mut fields, "$schema", Json::text(url));
        json::object(fields)
    }

    /// What is reported after the configuration was saved and checked.
    pub fn conclude(
        &self,
        target: &str,
        diagnostics: &[String],
        validation: core::result::Result<(), String>,
    ) -> (r: model::Result<String>)
        ensures
            match validation {
                Ok(_) => r is Ok && r->Ok_0@ == report(target@, text::texts(diagnostics@)),
                Err(e) => r is Err && r->Err_0@ == model::ErrorView::Config(
                    "saved "@ + target@ + ", but configuration validation failed: "@ + e@,
                ),
            },
    {
        match validation {
            Err(e) => Err(
                Error::Config(
                    text::cat4(
                        "saved ",
                        target,
                        ", but configuration validation failed: ",
                        e.as_str(),
                    ),
                ),
            ),
            Ok(_) => {
                if diagnostics.len() == 0 {
                    return Ok(text::cat2("saved ", target));
                }
                let warnings = text::join(diagnostics, "\n");
                Ok(text::cat4("saved ", target, "\nWarnings:\n", warnings.as_str()))
            },
        }
    }
}

/// The plugin that offers the action.
pub struct ActionConfigPlugin {
    pub id: PluginId,
}

impl Default for ActionConfigPlugin {
    fn default() -> (r: Self)
        ensures
            ids::is_random(r.id.0),
    {
        ActionConfigPlugin::new()
    }
}

impl ActionConfigPlugin {
    pub fn new() -> (r: Self)
        ensures
            ids::is_random(r.id.0),
    {
        ActionConfigPlugin { id: PluginId(fresh()) }
    }

    pub fn name(&self) -> (r: &'static str)
        ensures
            r@ == "action_config"@,
    {
        "action_config"
    }
}

// ---------------------------------------------------------------------------
// Serving the schema
// ---------------------------------------------------------------------------

/// Where the schema is served.
pub fn schema_url(address: &str) -> (r: String)
    ensures
        r@ == "http://"@ + address@ + "/schema.json"@,
{
    text::cat3("http://", address, "/schema.json")
}

/// Whether bytes hold the end of a line of a request.
pub open spec fn has_line_end(b: Seq<u8>) -> bool {
    exists|i: int| 0 <= i && i + 1 < b.len() && #[trigger] b[i] == 13 && b[i + 1] == 10
}

fn holds_line_end(b: &[u8]) -> (r: bool)
    ensures
        r == has_line_end(b@),
{
    let n: usize = b.len();
    let mut i: usize = 0;
    while i < n && i + 1 < n
        invariant
            i <= n,
            n == b@.len(),
            forall|k: int| 0 <= k < i && k + 1 < n ==> !(#[trigger] b@[k] == 13 && b@[k + 1] == 10),
        decreases n - i,
    {
        if b[i] == 13 && b[i + 1] == 10 {
            return true;
        }
        i += 1;
    }
    false
}

/// Whether more of a request is read.
pub fn wants_more(request: &[u8]) -> (r: bool)
    ensures
        r == (request@.len() < MAX_REQUEST_BYTES && !has_line_end(request@)),
{
    request.len() < MAX_REQUEST_BYTES && !holds_line_end(request)
}

/// Whether a request asks for the schema.
pub open spec fn asks_for_schema(request: Seq<u8>) -> bool {
    &&& vstd::utf8::valid_utf8(request)
    &&& text::lines_of(vstd::utf8::decode_utf8(request)).len() > 0
    &&& text::starts_with(
        text::lines_of(vstd::utf8::decode_utf8(request))[0],
        "GET /schema.json "@,
    )
}

fn is_for_schema(request: &[u8]) -> (r: bool)
    ensures
        r == asks_for_schema(request@),
{
    match text::utf8_text(bytes::copy_bytes(request)) {
        Err(_) => false,
        Ok(content) => {
            proof {
                vstd::utf8::encode_utf8_decode_utf8(content@);
            }
            let lines = text::split_lines(content.as_str());
            proof {
                if lines@.len() > 0 {
                    assert(text::texts(lines@)[0] == lines@[0]@);
                }
            }
            lines.len() > 0 && text::begins(lines[0].as_str(), "GET /schema.json ")
        },
    }
}

/// The head of a response.
pub open spec fn response_head(status: Seq<char>, content_type: Seq<char>, length: nat) -> Seq<
    char,
> {
    "HTTP/1.1 "@ + status + "\r\nContent-Type: "@ + content_type + "\r\nContent-Length: "@
        + text::decimal(length)
        + "\r\nCache-Control: no-store\r\nConnection: close\r\n\r\n"@
}

/// The response to a request.
pub open spec fn response(request: Seq<u8>, schema: Seq<u8>) -> Seq<u8> {
    if asks_for_schema(request) {
        vstd::utf8::encode_utf8(
            response_head("200 OK"@, "application/schema+json"@, schema.len()),
        ) + schema
    } else {
        let body = vstd::utf8::encode_utf8("not found"@);
        vstd::utf8::encode_utf8(
            response_head("404 Not Found"@, "text/plain; charset=utf-8"@, body.len()),
        ) + body
    }
}

/// Answers a request.
pub fn respond_schema(request: &[u8], schema: &[u8]) -> (r: Vec<u8>)
    ensures
        r@ == response(request@, schema@),
{
    let (status, content_type, body) = if is_for_schema(request) {
        ("200 OK", "application/schema+json", schema)
    } else {
        ("404 Not Found", "text/plain; charset=utf-8", "not found".as_bytes())
    };
    let length = text::usize_text(body.len());
    let line = text::cat4("HTTP/1.1 ", status, "\r\nContent-Type: ", content_type);
    let head = text::cat4(
        line.as_str(),
        "\r\nContent-Length: ",
        length.as_str(),
        "\r\nCache-Control: no-store\r\nConnection: close\r\n\r\n",
    );
    proof {
        assert(head@ =~= response_head(status@, content_type@, body@.len()));
    }
    let mut out = bytes::copy_bytes(head.as_str().as_bytes());
    bytes::extend(&mut out, body);
    out
}

/// The arguments with which the shell opens the editor.
pub fn editor_arguments(path: &str) -> (r: Vec<String>)
    ensures
        text::texts(r@) == seq!["-c"@, "exec $EDITOR \"$1\""@, "airicode-config-editor"@, path@],
{
    let mut arguments = text::no_texts();
    text::push_all(&mut arguments, &["-c", "exec $EDITOR \"$1\"", "airicode-config-editor", path]);
    proof {
        assert(text::texts(arguments@) =~= seq![
            "-c"@,
            "exec $EDITOR \"$1\""@,
            "airicode-config-editor"@,
            path@,
        ]);
    }
    arguments
}

/// The editor that the environment names.
pub fn chosen_editor(editor: Option<String>) -> (r: model::Result<String>)
    ensures
        match editor {
            Some(e) => r == Ok::<String, Error>(e),
            None => r is Err && r->Err_0@ == model::ErrorView::Config("EDITOR is not set"@),
        },
{
    match editor {
        Some(e) => Ok(e),
        None => Err(Error::Config(text::owned("EDITOR is not set"))),
    }
}

/// What is made of the editor's end.
pub fn editor_ended(success: bool, status: &str) -> (r: model::Result<()>)
    ensures
        if success {
            r is Ok
        } else {
            r is Err && r->Err_0@ == model::ErrorView::Config("EDITOR exited with "@ + status@)
        },
{
    if success {
        return Ok(());
    }
    Err(Error::Config(text::cat2("EDITOR exited with ", status)))
}

/// A field that is taken out is gone, and the others stay, in their order.
pub proof fn law_other_fields_stay(
    a: Seq<(Seq<char>, json::JsonView)>,
    b: Seq<(Seq<char>, json::JsonView)>,
    key: Seq<char>,
    name: Seq<char>,
    value: json::JsonView,
)
    ensures
        without_field(a + b, key) == without_field(a, key) + without_field(b, key),
        name != key ==> without_field(seq![(name, value)], key) == seq![(name, value)],
        without_field(seq![(key, value)], key).len() == 0,
    decreases b.len(),
{
    assert(seq![(name, value)].drop_last() =~= Seq::empty());
    assert(seq![(key, value)].drop_last() =~= Seq::empty());
    reveal_with_fuel(without_field, 2);
    if name != key {
        assert(without_field(seq![(name, value)], key) =~= seq![(name, value)]);
    }
    if b.len() == 0 {
        assert(a + b =~= a);
        assert(without_field(a, key) + without_field(b, key) =~= without_field(a, key));
    } else {
        law_other_fields_stay(a, b.drop_last(), key, name, value);
        assert((a + b).drop_last() =~= a + b.drop_last());
        assert((a + b).last() == b.last());
        assert(without_field(a + b, key) =~= without_field(a, key) + without_field(b, key));
    }
}

/// Only an object is saved, without the reference to its schema; the configuration is that
/// of the project, or the global one where that is asked for.
pub proof fn law_only_objects_are_saved(
    parsed: Result<json::JsonView, Seq<char>>,
    project: Seq<char>,
    global: Seq<char>,
    other: Seq<char>,
)
    ensures
        edited(parsed) is Ok <==> (parsed matches Ok(v) && v is Object),
        edited(parsed) matches Ok(v) ==> v is Object && json::field(v, "$schema"@) is None,
        target_of(Seq::empty(), project, Some(global)) == Ok::<Seq<char>, model::ErrorView>(project),
        target_of(seq!["--global"@], project, Some(global)) == Ok::<Seq<char>, model::ErrorView>(
            global,
        ),
        target_of(seq!["--global"@], project, None) is Err,
        other != "--global"@ ==> target_of(seq![other], project, Some(global)) is Err,
{
    if let Ok(json::JsonView::Object(fields)) = parsed {
        lemma_field_gone(fields, "$schema"@);
        let left = without_field(fields, "$schema"@);
        json::law_fields_are_found(left, "$schema"@, json::JsonView::Null, left, Seq::empty(), ""@);
    }
}

proof fn lemma_field_gone(fields: Seq<(Seq<char>, json::JsonView)>, key: Seq<char>)
    ensures
        forall|i: int|
            0 <= i < without_field(fields, key).len() ==> (#[trigger] without_field(
                fields,
                key,
            )[i]).0 != key,
    decreases fields.len(),
{
    if fields.len() > 0 {
        lemma_field_gone(fields.drop_last(), key);
        let before = without_field(fields.drop_last(), key);
        let all = without_field(fields, key);
        assert forall|i: int| 0 <= i < all.len() implies (#[trigger] all[i]).0 != key by {
            if i < before.len() {
                assert(all[i] == before[i]);
            }
        }
    }
}

/// Whoever asks for the schema gets it, whole and with its length told; whoever asks for
/// something else is told that there is none.
pub proof fn law_the_schema_is_served(request: Seq<u8>, schema: Seq<u8>)
    ensures
        asks_for_schema(request) ==> response(request, schema) == vstd::utf8::encode_utf8(
            "HTTP/1.1 "@ + "200 OK"@ + "\r\nContent-Type: "@ + "application/schema+json"@
                + "\r\nContent-Length: "@ + text::decimal(schema.len())
                + "\r\nCache-Control: no-store\r\nConnection: close\r\n\r\n"@,
        ) + schema,
        !asks_for_schema(request) ==> response(request, schema) == vstd::utf8::encode_utf8(
            "HTTP/1.1 "@ + "404 Not Found"@ + "\r\nContent-Type: "@ + "text/plain; charset=utf-8"@
                + "\r\nContent-Length: "@ + text::decimal(
                vstd::utf8::encode_utf8("not found"@).len(),
            ) + "\r\nCache-Control: no-store\r\nConnection: close\r\n\r\n"@,
        ) + vstd::utf8::encode_utf8("not found"@),
{
}

} // verus!
