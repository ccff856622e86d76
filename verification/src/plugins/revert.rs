//! Undoing what a tool call did to files: their contents are captured before and
//! after the call, and put back where nothing changed them since.
use crate::bytes;
use crate::history;
use crate::history::HistoryEdit;
use crate::ids;
use crate::ids::MessageId;
use crate::json;
use crate::json::Json;
use crate::model;
use crate::model::{Error, Message, MessagePartContent};
use crate::paths;
use crate::plugins::registration;
use crate::plugins::registration::{Registration, RegistrationKind, RegistrationView};
use crate::text;
use vstd::prelude::*;

verus! {

pub const PLUGIN_ID: &'static str = "builtin.revert";

pub const COMMAND_ID: &'static str = "builtin.revert";

pub const BEFORE_HOOK_ID: &'static str = "builtin.revert.capture-preimages";

pub const AFTER_HOOK_ID: &'static str = "builtin.revert.capture-postimages";

#[derive(Clone, Debug, PartialEq, Eq)]
pub struct RevertConfig {
    /// Maximum completed operations retained for each session.
    pub max_records_per_session: usize,
}

impl Default for RevertConfig {
    fn default() -> (r: Self)
        ensures
            r.max_records_per_session == 100,
    {
        RevertConfig { max_records_per_session: 100 }
    }
}

// ---------------------------------------------------------------------------
// Paths in arguments
// ---------------------------------------------------------------------------

/// Whether a field with this name holds paths.
pub open spec fn names_paths(key: Seq<char>) -> bool {
    let k = text::ascii_lowered(key);
    k == "path"@ || k == "paths"@ || text::ends_with(k, "_path"@) || text::ends_with(k, "_paths"@)
}

/// The texts in `value` that stand where paths do, in their order. `here` says
/// that `value` itself stands there.
pub open spec fn path_texts(value: json::JsonView, here: bool) -> Seq<Seq<char>>
    decreases value,
{
    match value {
        json::JsonView::Object(fields) => field_paths(fields),
        json::JsonView::Array(items) => item_paths(items, here),
        json::JsonView::Text(t) => if here {
            seq![t]
        } else {
            Seq::empty()
        },
        _ => Seq::empty(),
    }
}

pub open spec fn field_paths(fields: Seq<(Seq<char>, json::JsonView)>) -> Seq<Seq<char>>
    decreases fields,
{
    if fields.len() == 0 {
        Seq::empty()
    } else {
        field_paths(fields.drop_last()) + path_texts(
            fields.last().1,
            names_paths(fields.last().0),
        )
    }
}

pub open spec fn item_paths(items: Seq<json::JsonView>, here: bool) -> Seq<Seq<char>>
    decreases items,
{
    if items.len() == 0 {
        Seq::empty()
    } else {
        item_paths(items.drop_last(), here) + path_texts(items.last(), here)
    }
}

/// Whether a path is one within the project.
pub open spec fn is_project_path(path: Seq<char>) -> bool {
    path.len() > 0 && !paths::is_absolute(path) && paths::stays_inside(path)
}

/// The place of a path in a sorted list: that of the first which is not less.
pub open spec fn path_slot(list: Seq<Seq<char>>, path: Seq<char>) -> int
    decreases list.len(),
{
    if list.len() == 0 || !paths::parts_less(paths::parts(list[0]), paths::parts(path)) {
        0
    } else {
        1 + path_slot(list.drop_first(), path)
    }
}

/// A sorted list with another path, unless it is there.
pub open spec fn with_path(list: Seq<Seq<char>>, path: Seq<char>) -> Seq<Seq<char>> {
    let k = path_slot(list, path);
    if k < list.len() && paths::is_same(list[k], path) {
        list
    } else {
        list.insert(k, path)
    }
}

/// Paths in order, each once, or what is wrong with the first bad one.
pub open spec fn path_set(list: Seq<Seq<char>>) -> Result<Seq<Seq<char>>, Seq<char>>
    decreases list.len(),
{
    if list.len() == 0 {
        Ok(Seq::empty())
    } else {
        match path_set(list.drop_last()) {
            Err(m) => Err(m),
            Ok(earlier) => if is_project_path(list.last()) {
                Ok(with_path(earlier, list.last()))
            } else {
                Err("revert path must be project-relative: "@ + list.last())
            },
        }
    }
}

fn add_path(list: &mut Vec<String>, path: &str)
    ensures
        text::texts(final(list)@) == with_path(text::texts(old(list)@), path@),
{
    let ghost all = text::texts(list@);
    let mut k: usize = 0;
    proof {
        assert(all.skip(0) =~= all);
    }
    while k < list.len() && paths::less_path(list[k].as_str(), path)
        invariant
            k <= list@.len(),
            all == text::texts(list@),
            path_slot(all, path@) == k + path_slot(all.skip(k as int), path@),
        decreases list@.len() - k,
    {
        proof {
            assert(all.skip(k as int)[0] == list@[k as int]@);
            assert(all.skip(k as int).drop_first() =~= all.skip(k + 1));
        }
        k += 1;
    }
    proof {
        if k < list@.len() {
            assert(all.skip(k as int)[0] == list@[k as int]@);
        }
    }
    if k < list.len() && paths::same_path(list[k].as_str(), path) {
        return;
    }
    list.insert(k, text::owned(path));
    proof {
        assert(text::texts(list@) =~= all.insert(k as int, path@));
    }
}

fn is_path_field(key: &str) -> (r: bool)
    ensures
        r == names_paths(key@),
{
    let k = text::lower_text(key);
    text::same_text(k.as_str(), "path") || text::same_text(k.as_str(), "paths") || text::finishes(
        k.as_str(),
        "_path",
    ) || text::finishes(k.as_str(), "_paths")
}

fn collect(value: &Json, here: bool, out: &mut Vec<String>)
    ensures
        text::texts(final(out)@) == text::texts(old(out)@) + path_texts(value@, here),
    decreases value,
{
    let ghost start = text::texts(out@);
    match value {
        Json::Object(fields) => {
            let ghost all = json::field_views(fields@);
            let mut i: usize = 0;
            proof {
                assert(value@->Object_0 =~= all);
                assert(all.take(0) =~= Seq::empty());
                assert(start + field_paths(all.take(0)) =~= start);
            }
            while i < fields.len()
                invariant
                    i <= fields@.len(),
                    *value == Json::Object(*fields),
                    value@ == json::JsonView::Object(all),
                    all == json::field_views(fields@),
                    text::texts(out@) == start + field_paths(all.take(i as int)),
                decreases fields@.len() - i,
            {
                let inner = is_path_field(fields[i].0.as_str());
                proof {
                    assert(decreases_to!(*value => value->Object_0));
                    assert(decreases_to!(value->Object_0 => value->Object_0[i as int]));
                    assert(decreases_to!(value->Object_0[i as int] => value->Object_0[i as int].1));
                }
                collect(&fields[i].1, inner, out);
                proof {
                    assert(all.take(i + 1).drop_last() =~= all.take(i as int));
                    assert(all.take(i + 1).last() == (
                        fields@[i as int].0@,
                        fields@[i as int].1@,
                    ));
                    assert(text::texts(out@) =~= start + field_paths(all.take(i + 1)));
                }
                i += 1;
            }
            proof {
                assert(all.take(i as int) =~= all);
            }
        },
        Json::Array(items) => {
            let ghost all = json::json_views(items@);
            let mut i: usize = 0;
            proof {
                assert(value@->Array_0 =~= all);
                assert(all.take(0) =~= Seq::empty());
                assert(start + item_paths(all.take(0), here) =~= start);
            }
            while i < items.len()
                invariant
                    i <= items@.len(),
                    *value == Json::Array(*items),
                    value@ == json::JsonView::Array(all),
                    all == json::json_views(items@),
                    text::texts(out@) == start + item_paths(all.take(i as int), here),
                decreases items@.len() - i,
            {
                proof {
                    assert(decreases_to!(*value => value->Array_0));
                    assert(decreases_to!(value->Array_0 => value->Array_0[i as int]));
                }
                collect(&items[i], here, out);
                proof {
                    assert(all.take(i + 1).drop_last() =~= all.take(i as int));
                    assert(all.take(i + 1).last() == items@[i as int]@);
                    assert(text::texts(out@) =~= start + item_paths(all.take(i + 1), here));
                }
                i += 1;
            }
            proof {
                assert(all.take(i as int) =~= all);
            }
        },
        Json::Text(t) => {
            if here {
                text::push_text(out, t.as_str());
                proof {
                    assert(start + seq![t@] =~= start.push(t@));
                }
            } else {
                proof {
                    assert(start + path_texts(value@, here) =~= start);
                }
            }
        },
        _ => {
            proof {
                assert(start + path_texts(value@, here) =~= start);
            }
        },
    }
}

proof fn lemma_path_set_err(list: Seq<Seq<char>>, n: int)
    requires
        0 <= n <= list.len(),
        path_set(list.take(n)) is Err,
    ensures
        path_set(list) == path_set(list.take(n)),
    decreases list.len() - n,
{
    if n < list.len() {
        assert(list.take(n + 1).drop_last() =~= list.take(n));
        lemma_path_set_err(list, n + 1);
    } else {
        assert(list.take(n) =~= list);
    }
}

/// Checks that a path is one within the project.
pub fn validate_path(path: &str) -> (r: model::Result<()>)
    ensures
        r is Ok == is_project_path(path@),
        r matches Err(e) ==> e@ == model::ErrorView::Plugin(
            "revert path must be project-relative: "@ + path@,
        ),
{
    if path.is_empty() || paths::absolute(path) || !paths::inside(path) {
        return Err(
            Error::Plugin(text::cat2("revert path must be project-relative: ", path)),
        );
    }
    Ok(())
}

/// The paths that the arguments of a tool name, in order, each once.
pub fn explicit_paths(arguments: &Json) -> (r: model::Result<Vec<String>>)
    ensures
        match path_set(path_texts(arguments@, false)) {
            Ok(list) => r is Ok && text::texts(r->Ok_0@) == list,
            Err(m) => r is Err && r->Err_0@ == model::ErrorView::Plugin(m),
        },
{
    let mut found = text::no_texts();
    collect(arguments, false, &mut found);
    let ghost all = path_texts(arguments@, false);
    proof {
        assert(text::texts(found@) =~= all);
    }
    let mut list = text::no_texts();
    let mut i: usize = 0;
    proof {
        assert(all.take(0) =~= Seq::empty());
    }
    while i < found.len()
        invariant
            i <= found@.len(),
            all == text::texts(found@),
            all == path_texts(arguments@, false),
            path_set(all.take(i as int)) is Ok,
            text::texts(list@) == path_set(all.take(i as int))->Ok_0,
        decreases found@.len() - i,
    {
        proof {
            assert(all.take(i + 1).drop_last() =~= all.take(i as int));
            assert(all.take(i + 1).last() == found@[i as int]@);
            if path_set(all.take(i + 1)) is Err {
                lemma_path_set_err(all, i + 1);
            }
        }
        if let Err(e) = validate_path(found[i].as_str()) {
            return Err(e);
        }
        add_path(&mut list, found[i].as_str());
        i += 1;
    }
    proof {
        assert(all.take(i as int) =~= all);
    }
    Ok(list)
}

/// Whether paths are in order, each once.
pub open spec fn in_order(list: Seq<Seq<char>>) -> bool {
    forall|i: int, j: int|
        0 <= i < j < list.len() ==> paths::parts_less(
            paths::parts(#[trigger] list[i]),
            paths::parts(#[trigger] list[j]),
        )
}

proof fn lemma_path_slot(list: Seq<Seq<char>>, path: Seq<char>)
    ensures
        0 <= path_slot(list, path) <= list.len(),
        forall|i: int|
            0 <= i < path_slot(list, path) ==> paths::parts_less(
                paths::parts(#[trigger] list[i]),
                paths::parts(path),
            ),
        path_slot(list, path) < list.len() ==> !paths::parts_less(
            paths::parts(list[path_slot(list, path)]),
            paths::parts(path),
        ),
    decreases list.len(),
{
    if list.len() > 0 && paths::parts_less(paths::parts(list[0]), paths::parts(path)) {
        let rest = list.drop_first();
        lemma_path_slot(rest, path);
        assert forall|i: int| 0 <= i < path_slot(list, path) implies paths::parts_less(
            paths::parts(#[trigger] list[i]),
            paths::parts(path),
        ) by {
            if i > 0 {
                assert(rest[i - 1] == list[i]);
            }
        }
    }
}

proof fn lemma_with_path(list: Seq<Seq<char>>, path: Seq<char>)
    requires
        in_order(list),
    ensures
        in_order(with_path(list, path)),
{
    let k = path_slot(list, path);
    let all = with_path(list, path);
    lemma_path_slot(list, path);
    if !(k < list.len() && paths::is_same(list[k], path)) {
        assert forall|i: int, j: int| 0 <= i < j < all.len() implies paths::parts_less(
            paths::parts(#[trigger] all[i]),
            paths::parts(#[trigger] all[j]),
        ) by {
            if k < list.len() {
                paths::lemma_parts_less(paths::parts(list[k]), paths::parts(path));
            }
            if i < k && j < k {
                assert(all[i] == list[i] && all[j] == list[j]);
            } else if i < k && j > k {
                assert(all[i] == list[i] && all[j] == list[j - 1]);
            } else if i > k {
                assert(all[i] == list[i - 1] && all[j] == list[j - 1]);
            } else if i == k {
                assert(all[j] == list[j - 1]);
                if j - 1 > k {
                    paths::lemma_parts_less_trans(
                        paths::parts(path),
                        paths::parts(list[k]),
                        paths::parts(list[j - 1]),
                    );
                }
            } else {
                assert(all[i] == list[i]);
            }
        }
    }
}

/// The paths of a tool call come in order, no file twice, and none leads out of
/// the project.
pub proof fn law_paths_are_in_order(list: Seq<Seq<char>>)
    ensures
        path_set(list) matches Ok(set) ==> {
            &&& in_order(set)
            &&& forall|i: int, j: int|
                0 <= i < j < set.len() ==> !paths::is_same(#[trigger] set[i], #[trigger] set[j])
            &&& forall|i: int| 0 <= i < set.len() ==> is_project_path(#[trigger] set[i])
        },
    decreases list.len(),
{
    if list.len() > 0 {
        law_paths_are_in_order(list.drop_last());
        if let Ok(earlier) = path_set(list.drop_last()) {
            if is_project_path(list.last()) {
                lemma_with_path(earlier, list.last());
                let set = with_path(earlier, list.last());
                lemma_path_slot(earlier, list.last());
                assert forall|i: int, j: int| 0 <= i < j < set.len() implies !paths::is_same(
                    #[trigger] set[i],
                    #[trigger] set[j],
                ) by {
                    paths::lemma_parts_less(paths::parts(set[i]), paths::parts(set[j]));
                }
                assert forall|i: int| 0 <= i < set.len() implies is_project_path(
                    #[trigger] set[i],
                ) by {
                    let k = path_slot(earlier, list.last());
                    if set != earlier {
                        if i < k {
                            assert(set[i] == earlier[i]);
                        } else if i > k {
                            assert(set[i] == earlier[i - 1]);
                        }
                    }
                }
            }
        }
    }
}

// ---------------------------------------------------------------------------
// Captures
// ---------------------------------------------------------------------------

/// What a file held.
#[derive(Clone, Debug, PartialEq, Eq)]
pub struct FileState {
    /// `None` means the path did not exist.
    pub contents: Option<Vec<u8>>,
}

impl View for FileState {
    type V = Option<Seq<u8>>;

    open spec fn view(&self) -> Option<Seq<u8>> {
        match self.contents {
            Some(c) => Some(c@),
            None => None,
        }
    }
}

/// What was found at a path.
pub enum Found {
    File(Vec<u8>),
    Missing,
    /// It could not be read, for this reason.
    Unreadable(String),
}

/// What was found, as the state of a file.
pub open spec fn state_of(path: Seq<char>, found: Found) -> Result<Option<Seq<u8>>, Seq<char>> {
    match found {
        Found::File(c) => Ok(Some(c@)),
        Found::Missing => Ok(None),
        Found::Unreadable(m) => Err("could not capture revert state for "@ + path + ": "@ + m@),
    }
}

/// Makes the state of a file of what was found.
pub fn read_state(path: &str, found: Found) -> (r: model::Result<FileState>)
    ensures
        match state_of(path@, found) {
            Ok(s) => r is Ok && r->Ok_0@ == s,
            Err(m) => r is Err && r->Err_0@ == model::ErrorView::Plugin(m),
        },
{
    match found {
        Found::File(c) => Ok(FileState { contents: Some(c) }),
        Found::Missing => Ok(FileState { contents: None }),
        Found::Unreadable(m) => Err(
            Error::Plugin(
                text::cat4("could not capture revert state for ", path, ": ", m.as_str()),
            ),
        ),
    }
}

fn same_state(a: &FileState, b: &FileState) -> (r: bool)
    ensures
        r == (a@ == b@),
{
    match (&a.contents, &b.contents) {
        (Some(x), Some(y)) => bytes::same_bytes(x.as_slice(), y.as_slice()),
        (None, None) => true,
        _ => false,
    }
}

/// A file before a tool call.
pub struct Captured {
    pub path: String,
    pub preimage: FileState,
}

/// The files before a tool call.
pub struct RevertCapture {
    pub call_id: String,
    pub assistant_message_id: MessageId,
    /// The message before that of the call.
    pub history_anchor: Option<MessageId>,
    pub files: Vec<Captured>,
}

pub open spec fn captured_views(files: Seq<Captured>) -> Seq<(Seq<char>, Option<Seq<u8>>)> {
    files.map_values(|f: Captured| (f.path@, f.preimage@))
}

/// The files among what was found at paths, or why one of them cannot be captured.
/// Directories are passed over: nothing is found there.
pub open spec fn captured(found: Seq<(String, Option<Found>)>) -> Result<
    Seq<(Seq<char>, Option<Seq<u8>>)>,
    Seq<char>,
>
    decreases found.len(),
{
    if found.len() == 0 {
        Ok(Seq::empty())
    } else {
        match captured(found.drop_last()) {
            Err(m) => Err(m),
            Ok(earlier) => match found.last().1 {
                None => Ok(earlier),
                Some(one) => match state_of(found.last().0@, one) {
                    Err(m) => Err(m),
                    Ok(s) => Ok(earlier.push((found.last().0@, s))),
                },
            },
        }
    }
}

proof fn lemma_captured_err(found: Seq<(String, Option<Found>)>, n: int)
    requires
        0 <= n <= found.len(),
        captured(found.take(n)) is Err,
    ensures
        captured(found) == captured(found.take(n)),
    decreases found.len() - n,
{
    if n < found.len() {
        assert(found.take(n + 1).drop_last() =~= found.take(n));
        lemma_captured_err(found, n + 1);
    } else {
        assert(found.take(n) =~= found);
    }
}

/// Captures the files among what was found at paths. Directories are passed over:
/// nothing is found there.
pub fn capture_files(found: Vec<(String, Option<Found>)>) -> (r: model::Result<Vec<Captured>>)
    ensures
        match captured(found@) {
            Ok(files) => r is Ok && captured_views(r->Ok_0@) == files,
            Err(m) => r is Err && r->Err_0@ == model::ErrorView::Plugin(m),
        },
{
    let ghost all = found@;
    let mut rest = found;
    let mut files: Vec<Captured> = Vec::new();
    let ghost mut i: int = 0;
    proof {
        assert(all.take(0) =~= Seq::empty());
        assert(all.skip(0) =~= all);
        assert(captured_views(files@) =~= Seq::empty());
    }
    while rest.len() > 0
        invariant
            0 <= i <= all.len(),
            all == found@,
            rest@ == all.skip(i),
            captured(all.take(i)) is Ok,
            captured_views(files@) == captured(all.take(i))->Ok_0,
        decreases rest@.len(),
    {
        let ghost before = captured_views(files@);
        let (path, one) = rest.remove(0);
        proof {
            assert((path, one) == all[i]);
            assert(rest@ =~= all.skip(i + 1));
            assert(all.take(i + 1).drop_last() =~= all.take(i));
            assert(all.take(i + 1).last() == all[i]);
            if captured(all.take(i + 1)) is Err {
                lemma_captured_err(all, i + 1);
            }
            i = i + 1;
        }
        if let Some(seen) = one {
            match read_state(path.as_str(), seen) {
                Ok(preimage) => {
                    let ghost shown = (path@, preimage@);
                    files.push(Captured { path, preimage });
                    proof {
                        assert(captured_views(files@) =~= before.push(shown));
                    }
                },
                Err(e) => return Err(e),
            }
        }
    }
    proof {
        assert(all.take(i) =~= all);
    }
    Ok(files)
}

/// Whether a part of a message calls a tool with the identifier `id`.
pub open spec fn calls(part: model::PartView, id: Seq<char>) -> bool {
    match part.content {
        Some(model::ContentView::ToolCall(call, _, _)) => call == id,
        _ => false,
    }
}

pub open spec fn any_calls(parts: Seq<model::PartView>, id: Seq<char>) -> bool {
    exists|i: int| 0 <= i < parts.len() && calls(#[trigger] parts[i], id)
}

fn holds_call(message: &Message, id: &str) -> (r: bool)
    ensures
        r == any_calls(message@.content, id@),
{
    let mut i: usize = 0;
    while i < message.content.len()
        invariant
            i <= message.content@.len(),
            forall|j: int| 0 <= j < i ==> !calls(#[trigger] message@.content[j], id@),
        decreases message.content@.len() - i,
    {
        proof {
            assert(message@.content[i as int] == message.content@[i as int]@);
        }
        if let Some(MessagePartContent::ToolCall { id: call, .. }) = &message.content[i].content {
            if text::same_text(call.as_str(), id) {
                assert(calls(message@.content[i as int], id@));
                return true;
            }
        }
        i += 1;
    }
    false
}

/// The message before the one that calls a tool.
pub fn history_anchor(messages: &[Message], assistant: MessageId, call_id: &str) -> (r: model::Result<
    Option<MessageId>,
>)
    ensures
        ({
            let list = history::id_views(messages@);
            let place = history::place_of(list, assistant);
            if place >= list.len() {
                r is Err && r->Err_0@ == model::ErrorView::Plugin(
                    "could not locate assistant message "@ + ids::uuid_spelling(assistant.0)
                        + " for revert capture"@,
                )
            } else if !any_calls(messages@[place]@.content, call_id@) {
                r is Err && r->Err_0@ == model::ErrorView::Plugin(
                    "assistant message "@ + ids::uuid_spelling(assistant.0)
                        + " does not contain tool call "@ + call_id@,
                )
            } else if place == 0 {
                r == Ok::<Option<MessageId>, Error>(None)
            } else {
                r == Ok::<Option<MessageId>, Error>(Some(list[place - 1]))
            }
        }),
{
    let list = history::ids_of(messages);
    let place: usize = history::position(list.as_slice(), assistant);
    if place >= messages.len() {
        return Err(
            Error::Plugin(
                text::cat3(
                    "could not locate assistant message ",
                    assistant.spelled().as_str(),
                    " for revert capture",
                ),
            ),
        );
    }
    if !holds_call(&messages[place], call_id) {
        return Err(
            Error::Plugin(
                text::cat4(
                    "assistant message ",
                    assistant.spelled().as_str(),
                    " does not contain tool call ",
                    call_id,
                ),
            ),
        );
    }
    if place == 0 {
        Ok(None)
    } else {
        Ok(Some(list[place - 1]))
    }
}

// ---------------------------------------------------------------------------
// Records
// ---------------------------------------------------------------------------

/// A file that a tool call changed.
#[derive(Clone, Debug, PartialEq, Eq)]
pub struct RevertEntry {
    pub path: String,
    pub preimage: FileState,
    pub postimage: FileState,
}

/// What a tool call changed.
#[derive(Clone, Debug, PartialEq, Eq)]
pub struct RevertRecord {
    pub id: u128,
    pub tool_name: String,
    pub recorded_at_ms: u64,
    pub assistant_message_id: MessageId,
    pub history_anchor: Option<MessageId>,
    pub entries: Vec<RevertEntry>,
}

pub ghost struct EntryView {
    pub path: Seq<char>,
    pub before: Option<Seq<u8>>,
    pub after: Option<Seq<u8>>,
}

impl View for RevertEntry {
    type V = EntryView;

    open spec fn view(&self) -> EntryView {
        EntryView { path: self.path@, before: self.preimage@, after: self.postimage@ }
    }
}

pub open spec fn entry_views(entries: Seq<RevertEntry>) -> Seq<EntryView> {
    entries.map_values(|e: RevertEntry| e@)
}

/// The files that changed, or why one of them cannot be read.
pub open spec fn changes(
    files: Seq<(Seq<char>, Option<Seq<u8>>)>,
    found: Seq<Found>,
) -> Result<Seq<EntryView>, Seq<char>>
    decreases files.len(),
{
    if files.len() == 0 || files.len() != found.len() {
        Ok(Seq::empty())
    } else {
        match changes(files.drop_last(), found.drop_last()) {
            Err(m) => Err(m),
            Ok(earlier) => match state_of(files.last().0, found.last()) {
                Err(m) => Err(m),
                Ok(s) => if s == files.last().1 {
                    Ok(earlier)
                } else {
                    Ok(
                        earlier.push(
                            EntryView { path: files.last().0, before: files.last().1, after: s },
                        ),
                    )
                },
            },
        }
    }
}

proof fn lemma_changes_err(files: Seq<(Seq<char>, Option<Seq<u8>>)>, found: Seq<Found>, n: int)
    requires
        files.len() == found.len(),
        0 <= n <= files.len(),
        changes(files.take(n), found.take(n)) is Err,
    ensures
        changes(files, found) == changes(files.take(n), found.take(n)),
    decreases files.len() - n,
{
    if n < files.len() {
        assert(files.take(n + 1).drop_last() =~= files.take(n));
        assert(found.take(n + 1).drop_last() =~= found.take(n));
        lemma_changes_err(files, found, n + 1);
    } else {
        assert(files.take(n) =~= files);
        assert(found.take(n) =~= found);
    }
}

/// What has been done in a session that can be undone.
pub struct RevertState {
    /// Calls that have begun, each once.
    pub pending: Vec<RevertCapture>,
    /// Calls that changed something, once there has been one.
    pub records: Option<Vec<RevertRecord>>,
}

/// What keeps track of changes.
pub struct RevertService {
    pub max_records_per_session: usize,
}

/// Makes the plugin, where its configuration is usable.
pub fn revert_plugin(config: RevertConfig) -> (r: model::Result<RevertService>)
    ensures
        r is Ok == (config.max_records_per_session > 0),
        r matches Ok(s) ==> s.max_records_per_session == config.max_records_per_session,
        r matches Err(e) ==> e@ == model::ErrorView::Plugin(
            "revert max_records_per_session must be greater than zero"@,
        ),
{
    if config.max_records_per_session == 0 {
        return Err(
            Error::Plugin(
                text::owned("revert max_records_per_session must be greater than zero"),
            ),
        );
    }
    Ok(RevertService { max_records_per_session: config.max_records_per_session })
}

/// The place of a call among those that have begun.
pub open spec fn pending_place(pending: Seq<RevertCapture>, call: Seq<char>) -> int
    decreases pending.len(),
{
    if pending.len() == 0 || pending[0].call_id@ == call {
        0
    } else {
        1 + pending_place(pending.drop_first(), call)
    }
}

/// The records with another at the end, the oldest going where there are too many.
pub open spec fn with_record(records: Seq<RevertRecord>, record: RevertRecord, max: nat) -> Seq<
    RevertRecord,
> {
    let all = records.push(record);
    if all.len() > max {
        all.drop_first()
    } else {
        all
    }
}

pub open spec fn known(records: Option<Vec<RevertRecord>>) -> Seq<RevertRecord> {
    match records {
        Some(list) => list@,
        None => Seq::empty(),
    }
}

fn find_pending(pending: &Vec<RevertCapture>, call: &str) -> (k: usize)
    ensures
        k == pending_place(pending@, call@),
        k <= pending@.len(),
{
    let mut k: usize = 0;
    proof {
        assert(pending@.skip(0) =~= pending@);
    }
    while k < pending.len() && !text::same_text(pending[k].call_id.as_str(), call)
        invariant
            k <= pending@.len(),
            pending_place(pending@, call@) == k + pending_place(pending@.skip(k as int), call@),
        decreases pending@.len() - k,
    {
        proof {
            assert(pending@.skip(k as int)[0] == pending@[k as int]);
            assert(pending@.skip(k as int).drop_first() =~= pending@.skip(k + 1));
        }
        k += 1;
    }
    proof {
        if k < pending@.len() {
            assert(pending@.skip(k as int)[0] == pending@[k as int]);
        }
    }
    k
}

/// The record that `id` names, or the last one.
pub open spec fn chosen(records: Seq<RevertRecord>, id: Option<u128>) -> Option<RevertRecord>
    decreases records.len(),
{
    match id {
        None => if records.len() == 0 {
            None
        } else {
            Some(records.last())
        },
        Some(v) => if records.len() == 0 {
            None
        } else if records[0].id == v {
            Some(records[0])
        } else {
            chosen(records.drop_first(), id)
        },
    }
}

impl RevertState {
    pub fn new() -> (r: Self)
        ensures
            r.pending@.len() == 0,
            r.records is None,
    {
        RevertState { pending: Vec::new(), records: None }
    }

    /// Notes that a call begins. A call without files leaves nothing to note.
    pub fn begin_call(&mut self, capture: RevertCapture)
        ensures
            final(self).records == old(self).records,
            ({
                let place = pending_place(old(self).pending@, capture.call_id@);
                if capture.files@.len() == 0 {
                    final(self).pending@ == old(self).pending@
                } else if place < old(self).pending@.len() {
                    final(self).pending@ == old(self).pending@.update(place, capture)
                } else {
                    final(self).pending@ == old(self).pending@.push(capture)
                }
            }),
    {
        if capture.files.len() == 0 {
            return;
        }
        let k: usize = find_pending(&self.pending, capture.call_id.as_str());
        if k < self.pending.len() {
            self.pending.set(k, capture);
        } else {
            self.pending.push(capture);
        }
    }

    /// Takes what was noted when a call began.
    pub fn take_capture(&mut self, call: &str) -> (r: Option<RevertCapture>)
        ensures
            final(self).records == old(self).records,
            ({
                let place = pending_place(old(self).pending@, call@);
                if place < old(self).pending@.len() {
                    &&& r == Some(old(self).pending@[place])
                    &&& final(self).pending@ == old(self).pending@.remove(place)
                } else {
                    r is None && final(self).pending@ == old(self).pending@
                }
            }),
    {
        let k: usize = find_pending(&self.pending, call);
        if k < self.pending.len() {
            Some(self.pending.remove(k))
        } else {
            None
        }
    }

    /// Notes what a call changed: which of its files are different now.
    pub fn end_call(
        &mut self,
        service: &RevertService,
        capture: RevertCapture,
        found: Vec<Found>,
        id: u128,
        tool_name: &str,
        now_ms: u64,
    ) -> (r: model::Result<()>)
        requires
            found@.len() == capture.files@.len(),
        ensures
            final(self).pending == old(self).pending,
            match changes(captured_views(capture.files@), found@) {
                Err(m) => {
                    &&& r is Err
                    &&& r->Err_0@ == model::ErrorView::Plugin(m)
                    &&& final(self).records == old(self).records
                },
                Ok(entries) => {
                    &&& r is Ok
                    &&& if entries.len() == 0 {
                        final(self).records == old(self).records
                    } else {
                        exists|record: RevertRecord|
                            {
                                &&& record.id == id
                                &&& record.tool_name@ == tool_name@
                                &&& record.recorded_at_ms == now_ms
                                &&& record.assistant_message_id == capture.assistant_message_id
                                &&& record.history_anchor == capture.history_anchor
                                &&& entry_views(record.entries@) == entries
                                &&& final(self).records is Some
                                &&& known(final(self).records) == #[trigger] with_record(
                                    known(old(self).records),
                                    record,
                                    service.max_records_per_session as nat,
                                )
                            }
                    }
                },
            },
    {
        let ghost files = captured_views(capture.files@);
        let ghost all_files = capture.files@;
        let ghost all = found@;
        let mut rest = found;
        let mut left = capture.files;
        let mut entries: Vec<RevertEntry> = Vec::new();
        let ghost mut i: int = 0;
        proof {
            assert(files.take(0) =~= Seq::empty());
            assert(all.skip(0) =~= all);
            assert(all_files.skip(0) =~= all_files);
            assert(entry_views(entries@) =~= Seq::empty());
        }
        while left.len() > 0
            invariant
                0 <= i <= all.len(),
                all.len() == all_files.len(),
                files == captured_views(all_files),
                files == captured_views(capture.files@),
                all == found@,
                rest@ == all.skip(i),
                left@ == all_files.skip(i),
                self.pending == old(self).pending,
                self.records == old(self).records,
                changes(files.take(i), all.take(i)) is Ok,
                entry_views(entries@) == changes(files.take(i), all.take(i))->Ok_0,
            decreases left@.len(),
        {
            let ghost before = entry_views(entries@);
            let file = left.remove(0);
            let one = rest.remove(0);
            proof {
                assert(file == all_files[i]);
                assert(one == all[i]);
                assert(left@ =~= all_files.skip(i + 1));
                assert(rest@ =~= all.skip(i + 1));
                assert(files.take(i + 1).drop_last() =~= files.take(i));
                assert(all.take(i + 1).drop_last() =~= all.take(i));
                assert(files.take(i + 1).last() == (file.path@, file.preimage@));
                assert(all.take(i + 1).last() == one);
                if changes(files.take(i + 1), all.take(i + 1)) is Err {
                    lemma_changes_err(files, all, i + 1);
                }
                i = i + 1;
            }
            let postimage = match read_state(file.path.as_str(), one) {
                Ok(s) => s,
                Err(e) => return Err(e),
            };
            if !same_state(&file.preimage, &postimage) {
                let entry = RevertEntry { path: file.path, preimage: file.preimage, postimage };
                let ghost shown = entry@;
                entries.push(entry);
                proof {
                    assert(entry_views(entries@) =~= before.push(shown));
                }
            }
        }
        proof {
            assert(files.take(i) =~= files);
            assert(all.take(i) =~= all);
        }
        if entries.len() == 0 {
            return Ok(());
        }
        let record = RevertRecord {
            id,
            tool_name: text::owned(tool_name),
            recorded_at_ms: now_ms,
            assistant_message_id: capture.assistant_message_id,
            history_anchor: capture.history_anchor,
            entries,
        };
        let ghost added = record;
        let mut records: Vec<RevertRecord> = match self.records.take() {
            Some(list) => list,
            None => Vec::new(),
        };
        records.push(record);
        if records.len() > service.max_records_per_session {
            let _ = records.remove(0);
        }
        self.records = Some(records);
        proof {
            assert(known(self.records) =~= with_record(
                known(old(self).records),
                added,
                service.max_records_per_session as nat,
            ));
        }
        Ok(())
    }

    /// The record that is to be undone.
    pub fn select(&self, id: Option<u128>) -> (r: model::Result<&RevertRecord>)
        ensures
            match self.records {
                None => r is Err && r->Err_0@ == model::ErrorView::Plugin(
                    "this session has no recorded file changes to revert"@,
                ),
                Some(records) => match chosen(records@, id) {
                    Some(record) => r is Ok && *r->Ok_0 == record,
                    None => r is Err && r->Err_0@ == model::ErrorView::Plugin(
                        "revert record was not found in this session"@,
                    ),
                },
            },
    {
        let records = match &self.records {
            Some(list) => list,
            None => return Err(
                Error::Plugin(text::owned("this session has no recorded file changes to revert")),
            ),
        };
        match id {
            None => {
                if records.len() > 0 {
                    return Ok(&records[records.len() - 1]);
                }
            },
            Some(v) => {
                let mut i: usize = 0;
                proof {
                    assert(records@.skip(0) =~= records@);
                }
                while i < records.len()
                    invariant
                        i <= records@.len(),
                        id == Some(v),
                        self.records == Some(*records),
                        chosen(records@, id) == chosen(records@.skip(i as int), id),
                    decreases records@.len() - i,
                {
                    proof {
                        assert(records@.skip(i as int)[0] == records@[i as int]);
                        assert(records@.skip(i as int).drop_first() =~= records@.skip(i + 1));
                    }
                    if records[i].id == v {
                        return Ok(&records[i]);
                    }
                    i += 1;
                }
            },
        }
        Err(Error::Plugin(text::owned("revert record was not found in this session")))
    }

    /// Forgets a record.
    pub fn forget(&mut self, id: u128)
        ensures
            final(self).pending == old(self).pending,
            final(self).records is Some == old(self).records is Some,
            known(final(self).records) == known(old(self).records).filter(
                |r: RevertRecord| r.id != id,
            ),
    {
        let ghost p = |r: RevertRecord| r.id != id;
        let ghost all = known(self.records);
        let mut rest: Vec<RevertRecord> = match self.records.take() {
            Some(list) => list,
            None => {
                proof {
                    reveal(Seq::filter);
                    assert(all.filter(p) =~= Seq::empty());
                }
                return;
            },
        };
        let mut kept: Vec<RevertRecord> = Vec::new();
        let ghost mut i: int = 0;
        proof {
            reveal(Seq::filter);
            assert(all.take(0).filter(p) =~= Seq::empty());
            assert(all.skip(0) =~= all);
        }
        while rest.len() > 0
            invariant
                0 <= i <= all.len(),
                rest@ == all.skip(i),
                p == (|r: RevertRecord| r.id != id),
                kept@ == all.take(i).filter(p),
                self.pending == old(self).pending,
            decreases rest@.len(),
        {
            let record = rest.remove(0);
            proof {
                reveal(Seq::filter);
                assert(record == all[i]);
                assert(rest@ =~= all.skip(i + 1));
                assert(all.take(i + 1).drop_last() =~= all.take(i));
                assert(all.take(i + 1).last() == record);
                i = i + 1;
            }
            if record.id != id {
                kept.push(record);
            }
        }
        proof {
            assert(all.take(i) =~= all);
        }
        self.records = Some(kept);
    }
}

/// There are never more records than are to be kept, and the newest is among them.
pub proof fn law_records_are_bounded(records: Seq<RevertRecord>, record: RevertRecord, max: nat)
    requires
        0 < max,
        records.len() <= max,
    ensures
        with_record(records, record, max).len() <= max,
        with_record(records, record, max).last() == record,
{
}

/// The record that an argument names, or what is wrong with it.
pub open spec fn argument_id(arguments: Seq<char>) -> Result<Option<u128>, Seq<char>> {
    let argument = text::trimmed(arguments);
    if argument.len() == 0 {
        Ok(None)
    } else if text::has_blank(argument) {
        Err("usage: /revert [record-id]"@)
    } else {
        match ids::parsed_uuid(argument) {
            Some(v) => Ok(Some(v)),
            None => Err("invalid revert record id: "@ + argument),
        }
    }
}

/// Reads the argument of the command.
pub fn parse_optional_record_id(arguments: &str) -> (r: model::Result<Option<u128>>)
    ensures
        match argument_id(arguments@) {
            Ok(id) => r == Ok::<Option<u128>, Error>(id),
            Err(m) => r is Err && r->Err_0@ == model::ErrorView::Plugin(m),
        },
{
    let argument = text::trim(arguments);
    if argument.is_empty() {
        return Ok(None);
    }
    if text::any_blank(argument) {
        return Err(Error::Plugin(text::owned("usage: /revert [record-id]")));
    }
    match ids::parse_uuid(argument) {
        Ok(v) => Ok(Some(v)),
        Err(_) => Err(Error::Plugin(text::cat2("invalid revert record id: ", argument))),
    }
}

/// How the conversation is cut when a record is undone, or why it cannot be.
pub open spec fn history_cut(record: RevertRecord, list: Seq<MessageId>) -> Result<
    HistoryEdit,
    Seq<char>,
> {
    let place = history::place_of(list, record.assistant_message_id);
    let name = ids::uuid_spelling(record.id);
    if place >= list.len() {
        Err(
            "cannot revert record "@ + name
                + ": its assistant message is no longer in canonical history"@,
        )
    } else {
        match record.history_anchor {
            Some(anchor) => if place == 0 || list[place - 1] != anchor {
                Err("cannot revert record "@ + name + ": its canonical history anchor changed"@)
            } else {
                Ok(HistoryEdit::TruncateAfter(anchor))
            },
            None => if place != 0 {
                Err("cannot revert record "@ + name + " without its original history anchor"@)
            } else {
                Ok(HistoryEdit::RemoveAll(record.assistant_message_id, list.last()))
            },
        }
    }
}

/// Plans how the conversation is cut when a record is undone.
pub fn plan_history(record: &RevertRecord, list: &[MessageId]) -> (r: model::Result<HistoryEdit>)
    ensures
        match history_cut(*record, list@) {
            Ok(edit) => r == Ok::<HistoryEdit, Error>(edit),
            Err(m) => r is Err && r->Err_0@ == model::ErrorView::Plugin(m),
        },
{
    let place: usize = history::position(list, record.assistant_message_id);
    let name = ids::spell_uuid(record.id);
    if place >= list.len() {
        return Err(
            Error::Plugin(
                text::cat3(
                    "cannot revert record ",
                    name.as_str(),
                    ": its assistant message is no longer in canonical history",
                ),
            ),
        );
    }
    match record.history_anchor {
        Some(anchor) => {
            if place == 0 || list[place - 1] != anchor {
                return Err(
                    Error::Plugin(
                        text::cat3(
                            "cannot revert record ",
                            name.as_str(),
                            ": its canonical history anchor changed",
                        ),
                    ),
                );
            }
            Ok(HistoryEdit::TruncateAfter(anchor))
        },
        None => {
            if place != 0 {
                return Err(
                    Error::Plugin(
                        text::cat3(
                            "cannot revert record ",
                            name.as_str(),
                            " without its original history anchor",
                        ),
                    ),
                );
            }
            Ok(HistoryEdit::RemoveAll(record.assistant_message_id, list[list.len() - 1]))
        },
    }
}

// ---------------------------------------------------------------------------
// Restoring
// ---------------------------------------------------------------------------

/// What is done with a file when a record is undone.
#[derive(Debug, PartialEq, Eq)]
pub enum Restore {
    /// It was changed since, and is left alone.
    Conflict,
    /// These contents are written.
    Write(Vec<u8>),
    /// It is removed.
    Remove,
}

/// What undoing a record did.
pub struct RevertOutcome {
    pub record_id: Option<u128>,
    pub restored: Vec<String>,
    pub conflicts: Vec<String>,
}

/// What a file holds once an entry is undone.
pub open spec fn undone(entry: EntryView, current: Option<Seq<u8>>) -> Option<Seq<u8>> {
    if current == entry.after {
        entry.before
    } else {
        current
    }
}

impl RevertOutcome {
    pub fn new(record_id: u128) -> (r: Self)
        ensures
            r.record_id == Some(record_id),
            text::texts(r.restored@) == Seq::<Seq<char>>::empty(),
            text::texts(r.conflicts@) == Seq::<Seq<char>>::empty(),
    {
        RevertOutcome {
            record_id: Some(record_id),
            restored: text::no_texts(),
            conflicts: text::no_texts(),
        }
    }

    /// Decides what is done with a file, by what it holds now.
    pub fn restore(&mut self, entry: &RevertEntry, current: &FileState) -> (r: Restore)
        ensures
            final(self).record_id == old(self).record_id,
            if current@ == entry@.after {
                &&& text::texts(final(self).restored@) == text::texts(old(self).restored@).push(
                    entry@.path,
                )
                &&& final(self).conflicts == old(self).conflicts
                &&& match entry@.before {
                    Some(contents) => r is Write && r->Write_0@ == contents,
                    None => r is Remove,
                }
            } else {
                &&& r is Conflict
                &&& final(self).restored == old(self).restored
                &&& text::texts(final(self).conflicts@) == text::texts(old(self).conflicts@).push(
                    entry@.path,
                )
            },
    {
        if !same_state(current, &entry.postimage) {
            text::push_text(&mut self.conflicts, entry.path.as_str());
            return Restore::Conflict;
        }
        text::push_text(&mut self.restored, entry.path.as_str());
        match &entry.preimage.contents {
            Some(contents) => Restore::Write(bytes::copy_bytes(contents.as_slice())),
            None => Restore::Remove,
        }
    }
}

/// The entries of a record in the order in which they are undone: the last one first.
pub open spec fn restore_order(entries: Seq<EntryView>) -> Seq<EntryView> {
    entries.reverse()
}

impl RevertRecord {
    /// The entry that is undone when `done` others have been; none where all have been.
    pub fn entry_to_restore(&self, done: usize) -> (r: Option<&RevertEntry>)
        ensures
            match r {
                Some(entry) => {
                    &&& done < self.entries@.len()
                    &&& entry@ == restore_order(entry_views(self.entries@))[done as int]
                },
                None => done >= self.entries@.len(),
            },
    {
        let n: usize = self.entries.len();
        if done < n {
            proof {
                assert(entry_views(self.entries@)[n - 1 - done] == self.entries@[n - 1 - done]@);
            }
            Some(&self.entries[n - 1 - done])
        } else {
            None
        }
    }
}

/// The files once entries are undone, in the order in which they stand.
pub open spec fn undone_in_order(
    files: Map<Seq<char>, Option<Seq<u8>>>,
    order: Seq<EntryView>,
) -> Map<Seq<char>, Option<Seq<u8>>>
    decreases order.len(),
{
    if order.len() == 0 {
        files
    } else {
        let e = order[0];
        undone_in_order(files.insert(e.path, undone(e, files[e.path])), order.drop_first())
    }
}

/// The files once the entries of a record are undone.
pub open spec fn undone_files(
    files: Map<Seq<char>, Option<Seq<u8>>>,
    entries: Seq<EntryView>,
) -> Map<Seq<char>, Option<Seq<u8>>> {
    undone_in_order(files, restore_order(entries))
}

proof fn lemma_last_first(files: Map<Seq<char>, Option<Seq<u8>>>, entries: Seq<EntryView>)
    requires
        entries.len() > 0,
    ensures
        undone_files(files, entries) == undone_files(
            files.insert(
                entries.last().path,
                undone(entries.last(), files[entries.last().path]),
            ),
            entries.drop_last(),
        ),
{
    let order = restore_order(entries);
    assert(order[0] == entries.last());
    assert(order.drop_first() =~= restore_order(entries.drop_last()));
}

/// Undoing a record puts back each file that is as the call left it, leaves each
/// file alone that was changed since, and touches no other file.
pub proof fn law_undoing_keeps_later_changes(
    files: Map<Seq<char>, Option<Seq<u8>>>,
    entries: Seq<EntryView>,
    path: Seq<char>,
)
    requires
        forall|i: int, j: int|
            0 <= i < j < entries.len() ==> (#[trigger] entries[i]).path != (
            #[trigger] entries[j]).path,
    ensures
        (forall|i: int| 0 <= i < entries.len() ==> (#[trigger] entries[i]).path != path)
            ==> undone_files(files, entries)[path] == files[path],
        forall|i: int|
            0 <= i < entries.len() && (#[trigger] entries[i]).path == path ==> undone_files(
                files,
                entries,
            )[path] == undone(entries[i], files[path]),
    decreases entries.len(),
{
    if entries.len() > 0 {
        let e = entries.last();
        let rest = entries.drop_last();
        let next = files.insert(e.path, undone(e, files[e.path]));
        assert forall|i: int, j: int| 0 <= i < j < rest.len() implies (#[trigger] rest[i]).path != (
        #[trigger] rest[j]).path by {
            assert(rest[i] == entries[i] && rest[j] == entries[j]);
        }
        lemma_last_first(files, entries);
        law_undoing_keeps_later_changes(next, rest, path);
        assert(entries[entries.len() - 1] == e);
        if e.path == path {
            assert forall|i: int| 0 <= i < rest.len() implies (#[trigger] rest[i]).path != path by {
                assert(rest[i] == entries[i]);
            }
            assert forall|i: int|
                0 <= i < entries.len() && (#[trigger] entries[i]).path == path implies undone_files(
                files,
                entries,
            )[path] == undone(entries[i], files[path]) by {
                if i < rest.len() {
                    assert(rest[i] == entries[i]);
                }
            }
        } else {
            assert forall|i: int|
                0 <= i < entries.len() && (#[trigger] entries[i]).path == path implies undone_files(
                files,
                entries,
            )[path] == undone(entries[i], files[path]) by {
                assert(rest[i] == entries[i]);
            }
            if forall|i: int| 0 <= i < entries.len() ==> (#[trigger] entries[i]).path != path {
                assert forall|i: int| 0 <= i < rest.len() implies (
                #[trigger] rest[i]).path != path by {
                    assert(rest[i] == entries[i]);
                }
            }
        }
    }
}

/// What `changes` finds where each file holds what `now` says: an entry for each
/// file that is different, and no other.
proof fn lemma_changes(
    files: Seq<(Seq<char>, Option<Seq<u8>>)>,
    found: Seq<Found>,
    now: Map<Seq<char>, Option<Seq<u8>>>,
)
    requires
        files.len() == found.len(),
        forall|i: int, j: int|
            0 <= i < j < files.len() ==> (#[trigger] files[i]).0 != (#[trigger] files[j]).0,
        forall|i: int|
            0 <= i < files.len() ==> state_of((#[trigger] files[i]).0, found[i]) == Ok::<
                Option<Seq<u8>>,
                Seq<char>,
            >(now[files[i].0]),
    ensures
        changes(files, found) is Ok,
        ({
            let entries = changes(files, found)->Ok_0;
            &&& forall|i: int, j: int|
                0 <= i < j < entries.len() ==> (#[trigger] entries[i]).path != (
                #[trigger] entries[j]).path
            &&& forall|j: int|
                0 <= j < entries.len() ==> {
                    let e = #[trigger] entries[j];
                    &&& e.before != e.after
                    &&& e.after == now[e.path]
                    &&& files.contains((e.path, e.before))
                }
            &&& forall|i: int|
                0 <= i < files.len() && (#[trigger] files[i]).1 != now[files[i].0] ==> exists|
                    j: int,
                |
                    0 <= j < entries.len() && (#[trigger] entries[j]).path == files[i].0
        }),
    decreases files.len(),
{
    if files.len() > 0 {
        let rest = files.drop_last();
        let before = found.drop_last();
        let last = files.len() - 1;
        assert forall|i: int, j: int| 0 <= i < j < rest.len() implies (#[trigger] rest[i]).0 != (
        #[trigger] rest[j]).0 by {
            assert(rest[i] == files[i] && rest[j] == files[j]);
        }
        assert forall|i: int| 0 <= i < rest.len() implies state_of(
            (#[trigger] rest[i]).0,
            before[i],
        ) == Ok::<Option<Seq<u8>>, Seq<char>>(now[rest[i].0]) by {
            assert(rest[i] == files[i]);
        }
        lemma_changes(rest, before, now);
        let earlier = changes(rest, before)->Ok_0;
        let entries = changes(files, found)->Ok_0;
        assert(files[last] == files.last());
        assert forall|j: int| 0 <= j < earlier.len() implies {
            &&& entries[j] == #[trigger] earlier[j]
            &&& files.contains((earlier[j].path, earlier[j].before))
            &&& earlier[j].path != files[last].0
        } by {
            let k = choose|k: int|
                0 <= k < rest.len() && rest[k] == (earlier[j].path, earlier[j].before);
            assert(rest[k] == files[k]);
        }
        assert forall|j: int| 0 <= j < entries.len() implies {
            let e = #[trigger] entries[j];
            &&& e.before != e.after
            &&& e.after == now[e.path]
            &&& files.contains((e.path, e.before))
        } by {
            if j < earlier.len() {
                assert(entries[j] == earlier[j]);
            } else {
                assert(files[last] == (entries[j].path, entries[j].before));
            }
        }
        assert forall|i: int, j: int| 0 <= i < j < entries.len() implies (
        #[trigger] entries[i]).path != (#[trigger] entries[j]).path by {
            assert(entries[i] == earlier[i]);
            if j < earlier.len() {
                assert(entries[j] == earlier[j]);
            }
        }
        assert forall|i: int|
            0 <= i < files.len() && (#[trigger] files[i]).1 != now[files[i].0] implies exists|
            j: int,
        |
            0 <= j < entries.len() && (#[trigger] entries[j]).path == files[i].0 by {
            if i < last {
                assert(rest[i] == files[i]);
                let j = choose|j: int|
                    0 <= j < earlier.len() && (#[trigger] earlier[j]).path == rest[i].0;
                assert(entries[j] == earlier[j]);
            } else {
                assert(entries[earlier.len() as int].path == files[i].0);
            }
        }
    }
}

/// Undoing a call at once puts back every file that was captured: each one holds
/// what it held before the call.
pub proof fn law_undoing_restores_the_files(
    files: Seq<(Seq<char>, Option<Seq<u8>>)>,
    found: Seq<Found>,
    now: Map<Seq<char>, Option<Seq<u8>>>,
)
    requires
        files.len() == found.len(),
        forall|i: int, j: int|
            0 <= i < j < files.len() ==> (#[trigger] files[i]).0 != (#[trigger] files[j]).0,
        forall|i: int|
            0 <= i < files.len() ==> state_of((#[trigger] files[i]).0, found[i]) == Ok::<
                Option<Seq<u8>>,
                Seq<char>,
            >(now[files[i].0]),
    ensures
        changes(files, found) is Ok,
        forall|i: int|
            0 <= i < files.len() ==> undone_files(now, changes(files, found)->Ok_0)[(
            #[trigger] files[i]).0] == files[i].1,
{
    lemma_changes(files, found, now);
    let entries = changes(files, found)->Ok_0;
    assert forall|i: int| 0 <= i < files.len() implies undone_files(now, entries)[(
    #[trigger] files[i]).0] == files[i].1 by {
        let path = files[i].0;
        law_undoing_keeps_later_changes(now, entries, path);
        assert forall|j: int|
            0 <= j < entries.len() && (#[trigger] entries[j]).path
                == path implies entries[j].before == files[i].1 by {
            let k = choose|k: int|
                0 <= k < files.len() && files[k] == (entries[j].path, entries[j].before);
            assert(files[k].0 == files[i].0);
            if k < i {
                assert(files[k].0 != files[i].0);
            }
            if i < k {
                assert(files[i].0 != files[k].0);
            }
        }
        if files[i].1 != now[path] {
            let j = choose|j: int|
                0 <= j < entries.len() && (#[trigger] entries[j]).path == path;
            assert(undone_files(now, entries)[path] == undone(entries[j], now[path]));
        } else {
            assert forall|j: int| 0 <= j < entries.len() implies (
            #[trigger] entries[j]).path != path by {
                if entries[j].path == path {
                    assert(entries[j].before == files[i].1);
                }
            }
        }
    }
}

impl RevertService {
    pub fn name(&self) -> (r: &'static str)
        ensures
            r@ == "revert"@,
    {
        "revert"
    }

    pub fn description(&self) -> (r: &'static str)
        ensures
            r@
                == "Restore files changed by a previous tool call when they have not changed again."@,
    {
        "Restore files changed by a previous tool call when they have not changed again."
    }

    pub fn usage(&self) -> (r: &'static str)
        ensures
            r@ == "/revert [record-id]"@,
    {
        "/revert [record-id]"
    }
}

/// What the plugin registers, in this order.
pub open spec fn registered() -> Seq<RegistrationView> {
    seq![
        (RegistrationKind::BeforeToolExecution, BEFORE_HOOK_ID@, 0int),
        (RegistrationKind::AfterToolExecution, AFTER_HOOK_ID@, 0int),
        (RegistrationKind::Command, COMMAND_ID@, 0int),
    ]
}

impl RevertService {
    /// What the plugin registers, in this order.
    pub fn registrations(&self) -> (r: Vec<Registration>)
        ensures
            registration::registration_views(r@) == registered(),
    {
        let mut list: Vec<Registration> = Vec::new();
        proof {
            assert(registration::registration_views(list@) =~= Seq::empty());
        }
        registration::register(&mut list, RegistrationKind::BeforeToolExecution, BEFORE_HOOK_ID, 0);
        registration::register(&mut list, RegistrationKind::AfterToolExecution, AFTER_HOOK_ID, 0);
        registration::register(&mut list, RegistrationKind::Command, COMMAND_ID, 0);
        proof {
            assert(registration::registration_views(list@) =~= registered());
        }
        list
    }
}

/// What an input names as paths is what stands under such a name, wherever in the input
/// that is, in its order.
pub proof fn law_named_paths_are_found(
    key: Seq<char>,
    path: Seq<char>,
    a: Seq<(Seq<char>, json::JsonView)>,
    b: Seq<(Seq<char>, json::JsonView)>,
    here: bool,
)
    ensures
        names_paths(key) ==> path_texts(
            json::JsonView::Object(seq![(key, json::JsonView::Text(path))]),
            here,
        ) == seq![path],
        !names_paths(key) ==> path_texts(
            json::JsonView::Object(seq![(key, json::JsonView::Text(path))]),
            here,
        ).len() == 0,
        path_texts(json::JsonView::Object(a + b), here) == path_texts(
            json::JsonView::Object(a),
            here,
        ) + path_texts(json::JsonView::Object(b), here),
        text::ascii_lowered(key) == "path"@ ==> names_paths(key),
        text::ascii_lowered(key) == "paths"@ ==> names_paths(key),
        text::ends_with(text::ascii_lowered(key), "_path"@) ==> names_paths(key),
        text::ends_with(text::ascii_lowered(key), "_paths"@) ==> names_paths(key),
    decreases b.len(),
{
    let one = seq![(key, json::JsonView::Text(path))];
    assert(one.drop_last() =~= Seq::empty());
    reveal_with_fuel(field_paths, 2);
    assert(field_paths(Seq::<(Seq<char>, json::JsonView)>::empty()) =~= Seq::empty());
    assert(field_paths(one) =~= path_texts(one.last().1, names_paths(key)));
    if b.len() == 0 {
        assert(a + b =~= a);
        assert(field_paths(a) + field_paths(b) =~= field_paths(a));
    } else {
        law_named_paths_are_found(key, path, a, b.drop_last(), here);
        assert((a + b).drop_last() =~= a + b.drop_last());
        assert((a + b).last() == b.last());
        assert(path_texts(json::JsonView::Object(a + b.drop_last()), here) == field_paths(
            a + b.drop_last(),
        ));
        assert(field_paths(a + b) =~= field_paths(a) + field_paths(b));
    }
}

/// A list under the name of paths holds paths; one elsewhere holds none itself.
pub proof fn law_lists_of_paths_are_read(
    a: Seq<json::JsonView>,
    b: Seq<json::JsonView>,
    path: Seq<char>,
    here: bool,
)
    ensures
        path_texts(json::JsonView::Array(a + b), here) == path_texts(
            json::JsonView::Array(a),
            here,
        ) + path_texts(json::JsonView::Array(b), here),
        path_texts(json::JsonView::Array(seq![json::JsonView::Text(path)]), true) == seq![path],
        path_texts(json::JsonView::Array(seq![json::JsonView::Text(path)]), false).len() == 0,
    decreases b.len(),
{
    let one = seq![json::JsonView::Text(path)];
    assert(one.drop_last() =~= Seq::empty());
    reveal_with_fuel(item_paths, 2);
    assert(item_paths(one, true) =~= seq![path]);
    assert(item_paths(Seq::<json::JsonView>::empty(), false) =~= Seq::empty());
    assert(item_paths(one, false) =~= path_texts(one.last(), false));
    if b.len() == 0 {
        assert(a + b =~= a);
        assert(item_paths(a, here) + item_paths(b, here) =~= item_paths(a, here));
    } else {
        law_lists_of_paths_are_read(a, b.drop_last(), path, here);
        assert((a + b).drop_last() =~= a + b.drop_last());
        assert((a + b).last() == b.last());
        assert(path_texts(json::JsonView::Array(a + b.drop_last()), here) == item_paths(
            a + b.drop_last(),
            here,
        ));
        assert(item_paths(a + b, here) =~= item_paths(a, here) + item_paths(b, here));
    }
}

/// Every path that is named is watched, and a path that leaves the project is refused.
pub proof fn law_every_named_path_is_watched(list: Seq<Seq<char>>, i: int)
    requires
        0 <= i < list.len(),
    ensures
        path_set(list) matches Ok(set) ==> exists|j: int|
            0 <= j < set.len() && paths::is_same(#[trigger] set[j], list[i]),
        path_set(list) is Ok ==> list[i].len() > 0 && !paths::is_absolute(list[i])
            && paths::stays_inside(list[i]),
    decreases list.len(),
{
    if let Ok(set) = path_set(list) {
        let front = list.drop_last();
        let earlier = path_set(front)->Ok_0;
        let last = list.last();
        let k = path_slot(earlier, last);
        lemma_path_slot(earlier, last);
        if i < front.len() {
            law_every_named_path_is_watched(front, i);
            let j = choose|j: int|
                0 <= j < earlier.len() && paths::is_same(#[trigger] earlier[j], front[i]);
            if set == earlier {
                assert(paths::is_same(set[j], list[i]));
            } else if j < k {
                assert(set[j] == earlier[j]);
            } else {
                assert(set[j + 1] == earlier[j]);
            }
        } else {
            assert(paths::is_same(set[k], list[i]));
        }
    }
}

/// What a file held before a call is kept: its bytes, or that there was none.
pub proof fn law_files_are_captured_as_they_are(found: Seq<(String, Option<Found>)>, i: int)
    requires
        0 <= i < found.len(),
    ensures
        captured(found) matches Ok(list) ==> {
            &&& found[i].1 matches Some(Found::File(c)) ==> list.contains((found[i].0@, Some(c@)))
            &&& found[i].1 matches Some(Found::Missing) ==> list.contains(
                (found[i].0@, None::<Seq<u8>>),
            )
            &&& !(found[i].1 matches Some(Found::Unreadable(_)))
        },
    decreases found.len(),
{
    if let Ok(list) = captured(found) {
        let front = found.drop_last();
        let earlier = captured(front)->Ok_0;
        if i < front.len() {
            law_files_are_captured_as_they_are(front, i);
            assert forall|x: (Seq<char>, Option<Seq<u8>>)| #[trigger]
                earlier.contains(x) implies list.contains(x) by {
                let j = earlier.index_of(x);
                assert(list[j] == x);
            }
        } else if found[i].1 is Some {
            assert(list[list.len() - 1] == list.last());
        }
    }
}

/// The latest records are kept, in their order.
pub proof fn law_latest_records_are_kept(records: Seq<RevertRecord>, record: RevertRecord, max: nat)
    requires
        0 < max,
    ensures
        records.len() < max ==> with_record(records, record, max) == records.push(record),
        records.len() == max ==> with_record(records, record, max) == records.skip(1).push(record),
{
    if records.len() == max {
        assert(records.push(record).drop_first() =~= records.skip(1).push(record));
    }
}

/// A record is chosen by its identifier; without one the latest is.
pub proof fn law_records_are_chosen_by_identifier(
    before: Seq<RevertRecord>,
    record: RevertRecord,
    after: Seq<RevertRecord>,
)
    requires
        forall|i: int| 0 <= i < before.len() ==> (#[trigger] before[i]).id != record.id,
    ensures
        chosen(before.push(record) + after, Some(record.id)) == Some(record),
        chosen(before, Some(record.id)) is None,
        chosen(before.push(record), None) == Some(record),
        chosen(Seq::empty(), None) is None,
    decreases before.len(),
{
    let all = before.push(record) + after;
    if before.len() > 0 {
        let rest = before.drop_first();
        assert forall|i: int| 0 <= i < rest.len() implies (#[trigger] rest[i]).id
            != record.id by {
            assert(rest[i] == before[i + 1]);
        }
        law_records_are_chosen_by_identifier(rest, record, after);
        assert(all.drop_first() =~= rest.push(record) + after);
        assert(all[0] == before[0]);
    } else {
        assert(all[0] == record);
    }
}

/// Going back takes the message that made the call and all that follow it out of the
/// conversation. It is refused where what came before that message is no longer what it
/// was, or where the message is gone.
pub proof fn law_going_back_cuts_at_the_call(
    record: RevertRecord,
    before: Seq<MessageId>,
    after: Seq<MessageId>,
)
    requires
        !before.contains(record.assistant_message_id),
    ensures
        ({
            let list = before.push(record.assistant_message_id) + after;
            &&& record.history_anchor matches Some(anchor) ==> {
                &&& before.len() > 0 && before.last() == anchor ==> history_cut(record, list)
                    == Ok::<HistoryEdit, Seq<char>>(HistoryEdit::TruncateAfter(anchor))
                &&& before.len() == 0 || before.last() != anchor ==> history_cut(record, list)
                    is Err
            }
            &&& record.history_anchor is None ==> {
                &&& before.len() == 0 ==> history_cut(record, list) == Ok::<
                    HistoryEdit,
                    Seq<char>,
                >(HistoryEdit::RemoveAll(record.assistant_message_id, list.last()))
                &&& before.len() > 0 ==> history_cut(record, list) is Err
            }
        }),
        history_cut(record, before) is Err,
{
    let id = record.assistant_message_id;
    let list = before.push(id) + after;
    history::law_messages_are_found(before, id, after);
    if before.len() > 0 {
        assert(list[before.len() - 1] == before.last());
    }
}

/// A file is put back as it was unless it has changed since.
pub proof fn law_later_changes_are_kept(entry: EntryView, current: Option<Seq<u8>>)
    ensures
        undone(entry, entry.after) == entry.before,
        current != entry.after ==> undone(entry, current) == current,
{
}

/// Going back is asked for without a record or with the identifier of one.
pub proof fn law_arguments_name_one_record(arguments: Seq<char>, id: u128)
    ensures
        text::is_blank(arguments) ==> argument_id(arguments) == Ok::<Option<u128>, Seq<char>>(None),
        !text::is_blank(arguments) && !text::has_blank(text::trimmed(arguments)) && ids::parsed_uuid(
            text::trimmed(arguments),
        ) == Some(id) ==> argument_id(arguments) == Ok::<Option<u128>, Seq<char>>(Some(id)),
        text::has_blank(text::trimmed(arguments)) ==> argument_id(arguments) is Err,
        !text::is_blank(arguments) && ids::parsed_uuid(text::trimmed(arguments)) is None
            ==> argument_id(arguments) is Err,
{
}

/// A call that is under way is found at its place.
pub proof fn law_pending_calls_are_found(
    before: Seq<RevertCapture>,
    capture: RevertCapture,
    after: Seq<RevertCapture>,
)
    requires
        forall|i: int| 0 <= i < before.len() ==> (#[trigger] before[i]).call_id@ != capture.call_id@,
    ensures
        pending_place(before.push(capture) + after, capture.call_id@) == before.len(),
        pending_place(before, capture.call_id@) == before.len(),
    decreases before.len(),
{
    let all = before.push(capture) + after;
    if before.len() > 0 {
        let rest = before.drop_first();
        assert forall|i: int| 0 <= i < rest.len() implies (#[trigger] rest[i]).call_id@
            != capture.call_id@ by {
            assert(rest[i] == before[i + 1]);
        }
        law_pending_calls_are_found(rest, capture, after);
        assert(all.drop_first() =~= rest.push(capture) + after);
        assert(all[0] == before[0]);
    } else {
        assert(all[0] == capture);
    }
}

} // verus!
