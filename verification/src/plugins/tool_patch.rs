//! Exact replacements in one file: every text to replace occurs once in the
//! original, and all replacements are made together.
use crate::ids;
use crate::ids::fresh;
use crate::ids::{PluginId, ToolId};
use crate::json;
use crate::json::{Json, ObjectBuilder};
use crate::model;
use crate::model::{Error, NoteContent, ToolDefinition, ToolOutput};
use crate::plugins::tool_patch_hashline as edits;
use crate::plugins::tool_patch_hashline::LineEdit;
use crate::text;
use crate::ui::cursor;
use vstd::prelude::*;
use vstd::string::StrSliceExecFns;

verus! {

pub const DESCRIPTION: &'static str = "Apply one or more exact, non-overlapping replacements to an existing UTF-8 file. Every `oldText` must occur exactly once in the original file. All edits are matched against the same original snapshot and are applied atomically.";

const PATH: &'static str = "Path to the file to edit (relative or absolute)";

const OLD_TEXT: &'static str = "Exact text for one unique targeted replacement in the original file.";

const NEW_TEXT: &'static str = "Replacement text for this targeted edit.";

/// How the list of edits is described.
pub open spec fn edits_schema() -> json::JsonView {
    json::JsonView::Object(
        seq![
            ("type"@, json::JsonView::Text("array"@)),
            ("minItems"@, json::JsonView::Number(json::NumberView::Unsigned(1))),
            (
                "items"@,
                json::object_type(
                    seq![
                        (
                            "oldText"@,
                            json::described_string(
                                "Exact text for one unique targeted replacement in the original file."@,
                            ),
                        ),
                        (
                            "newText"@,
                            json::described_string("Replacement text for this targeted edit."@),
                        ),
                    ],
                    seq!["oldText"@, "newText"@],
                ),
            ),
        ],
    )
}

/// How the input of the tool is described.
pub open spec fn input_schema() -> json::JsonView {
    json::object_type(
        seq![
            (
                "path"@,
                json::described_string("Path to the file to edit (relative or absolute)"@),
            ),
            ("edits"@, edits_schema()),
        ],
        seq!["path"@, "edits"@],
    )
}

pub struct ToolPatch {
    pub id: ToolId,
    pub max_bytes: usize,
}

/// What is wrong with the bytes of a file that is to be patched. `suffix` ends
/// each message.
pub open spec fn file_complaint(bytes: Seq<u8>, max_bytes: nat, suffix: Seq<char>) -> Option<
    Seq<char>,
> {
    if bytes.contains(0u8) {
        Some("cannot patch binary/NUL-containing input"@ + suffix)
    } else if bytes.len() > max_bytes {
        Some("file exceeds patch limit of "@ + text::decimal(max_bytes) + " bytes"@ + suffix)
    } else if !vstd::utf8::valid_utf8(bytes) {
        Some("cannot patch non-UTF-8 input"@ + suffix)
    } else {
        None
    }
}

/// Reads the bytes of a file that is to be patched.
pub fn file_text(bytes: Vec<u8>, max_bytes: usize, suffix: &str) -> (r: Result<String, String>)
    ensures
        match r {
            Ok(s) => file_complaint(bytes@, max_bytes as nat, suffix@) is None && s@
                == vstd::utf8::decode_utf8(bytes@),
            Err(m) => file_complaint(bytes@, max_bytes as nat, suffix@) == Some(m@),
        },
{
    if edits::has_nul(bytes.as_slice()) {
        return Err(text::cat2("cannot patch binary/NUL-containing input", suffix));
    }
    if bytes.len() > max_bytes {
        return Err(
            text::cat4(
                "file exceeds patch limit of ",
                text::usize_text(max_bytes).as_str(),
                " bytes",
                suffix,
            ),
        );
    }
    match text::utf8_text(bytes) {
        Ok(s) => {
            proof {
                vstd::utf8::encode_utf8_decode_utf8(s@);
            }
            Ok(s)
        },
        Err(_) => Err(text::cat2("cannot patch non-UTF-8 input", suffix)),
    }
}

/// The positions, in order, at which `needle` stands in `source`.
pub open spec fn positions(source: Seq<char>, needle: Seq<char>, upto: int) -> Seq<int>
    decreases upto,
{
    if upto <= 0 {
        Seq::empty()
    } else if text::matches_at(source, needle, upto - 1) {
        positions(source, needle, upto - 1).push(upto - 1)
    } else {
        positions(source, needle, upto - 1)
    }
}

proof fn lemma_positions(source: Seq<char>, needle: Seq<char>, upto: int)
    requires
        0 <= upto,
    ensures
        positions(source, needle, upto).len() <= upto,
        forall|k: int|
            0 <= k < positions(source, needle, upto).len() ==> 0 <= #[trigger] positions(
                source,
                needle,
                upto,
            )[k] < upto && text::matches_at(source, needle, positions(source, needle, upto)[k]),
    decreases upto,
{
    if upto > 0 {
        lemma_positions(source, needle, upto - 1);
    }
}

/// How many bytes stand before each of some positions.
pub open spec fn bytes_before(source: Seq<char>, places: Seq<int>) -> Seq<int> {
    Seq::new(places.len(), |k: int| text::utf8_len(source.take(places[k])) as int)
}

/// The bytes of `source` at which `needle` stands in it.
pub fn occurrences(source: &str, needle: &str) -> (r: Vec<usize>)
    ensures
        r@.map_values(|i: usize| i as int) == bytes_before(
            source@,
            positions(source@, needle@, source@.len() as int),
        ),
{
    let s = text::to_chars(source);
    let p = text::to_chars(needle);
    let total: usize = text::byte_len(source);
    let mut out: Vec<usize> = Vec::new();
    let mut i: usize = 0;
    let mut at: usize = 0;
    proof {
        assert(out@.map_values(|i: usize| i as int) =~= Seq::empty());
        assert(source@.take(0) =~= Seq::empty());
        assert(bytes_before(source@, positions(source@, needle@, 0)) =~= Seq::empty());
    }
    while i < s.len()
        invariant
            i <= s@.len(),
            s@ == source@,
            p@ == needle@,
            total == text::utf8_len(source@),
            at == text::utf8_len(source@.take(i as int)),
            out@.map_values(|i: usize| i as int) == bytes_before(
                source@,
                positions(source@, needle@, i as int),
            ),
        decreases s@.len() - i,
    {
        let ghost before = out@.map_values(|i: usize| i as int);
        let ghost earlier = positions(source@, needle@, i as int);
        proof {
            text::lemma_utf8_len_push(source@.take(i as int), source@[i as int]);
            assert(source@.take(i as int).push(source@[i as int]) =~= source@.take(i + 1));
            text::lemma_utf8_len_take(source@, i + 1);
        }
        if text::chars_match_at(s.as_slice(), p.as_slice(), i) {
            out.push(at);
            proof {
                assert(out@.map_values(|i: usize| i as int) =~= before.push(at as int));
                assert(bytes_before(source@, earlier.push(i as int)) =~= bytes_before(
                    source@,
                    earlier,
                ).push(at as int));
            }
        }
        at += text::width_of(s[i]);
        i += 1;
    }
    out
}

/// The replacement that edit number `index` asks for, or what is wrong with it.
pub open spec fn read_edit(edit: json::JsonView, index: nat, source: Seq<char>) -> Result<
    edits::EditView,
    Seq<char>,
> {
    let number = text::decimal(index + 1);
    if !(edit is Object) {
        Err("edit "@ + number + " must be an object"@)
    } else {
        match json::text_at(edit, "oldText"@) {
            None => Err("edit "@ + number + " requires non-empty oldText"@),
            Some(old) => if old.len() == 0 {
                Err("edit "@ + number + " requires non-empty oldText"@)
            } else {
                match json::text_at(edit, "newText"@) {
                    None => Err("edit "@ + number + " requires newText"@),
                    Some(new) => {
                        let found = positions(source, old, source.len() as int);
                        if found.len() != 1 {
                            Err(
                                "edit "@ + number
                                    + " oldText must occur exactly once in the original file; found "@
                                    + text::decimal(found.len()) + " matches"@,
                            )
                        } else {
                            Ok(
                                edits::EditView {
                                    start: found[0],
                                    end: found[0] + old.len(),
                                    replacement: new,
                                },
                            )
                        }
                    },
                }
            },
        }
    }
}

/// The replacements in the order in which they stand in the file, or what is
/// wrong with the first bad one.
pub open spec fn read_edits(list: Seq<json::JsonView>, source: Seq<char>) -> Result<
    Seq<edits::Placed>,
    Seq<char>,
>
    decreases list.len(),
{
    if list.len() == 0 {
        Ok(Seq::empty())
    } else {
        match read_edits(list.drop_last(), source) {
            Err(m) => Err(m),
            Ok(earlier) => match read_edit(list.last(), (list.len() - 1) as nat, source) {
                Err(m) => Err(m),
                Ok(edit) => Ok(edits::insert_edit(earlier, (list.len() - 1, edit))),
            },
        }
    }
}

/// The replacements `k` and `k + 1` overlap.
pub open spec fn overlap_at(list: Seq<edits::Placed>, k: int) -> bool {
    list[k].1.end > list[k + 1].1.start
}

/// Two neighbouring replacements overlap.
pub open spec fn overlapping(list: Seq<edits::Placed>) -> bool {
    exists|k: int| 0 <= k < list.len() - 1 && #[trigger] overlap_at(list, k)
}

/// What a request makes of a file: the new content, or the error.
pub open spec fn patched(list: Seq<json::JsonView>, bytes: Seq<u8>, max_bytes: nat) -> Result<
    Seq<char>,
    Seq<char>,
> {
    match file_complaint(bytes, max_bytes, Seq::empty()) {
        Some(m) => Err(m),
        None => {
            let source = vstd::utf8::decode_utf8(bytes);
            match read_edits(list, source) {
                Err(m) => Err(m),
                Ok(all) => if overlapping(all) {
                    Err("patch edits overlap in the original file"@)
                } else {
                    let new = edits::edited(source, all);
                    if text::utf8_len(new) > max_bytes {
                        Err(edits::limit_message(max_bytes))
                    } else {
                        Ok(new)
                    }
                },
            }
        },
    }
}

/// The path and the edits of a request, or what is wrong with it.
pub open spec fn read_request(input: json::JsonView) -> Result<
    (Seq<char>, Seq<json::JsonView>),
    Seq<char>,
> {
    if !(input is Object) {
        Err("patch input must be an object"@)
    } else {
        match json::text_at(input, "path"@) {
            None => Err("patch requires a non-empty path"@),
            Some(path) => if path.len() == 0 {
                Err("patch requires a non-empty path"@)
            } else {
                match json::items_of(json::field(input, "edits"@)) {
                    None => Err("patch requires one or more edits"@),
                    Some(list) => if list.len() == 0 {
                        Err("patch requires one or more edits"@)
                    } else {
                        Ok((path, list))
                    },
                }
            },
        }
    }
}

fn parse_edit(edit: &Json, index: usize, source: &str) -> (r: Result<LineEdit, String>)
    ensures
        match r {
            Ok(e) => read_edit(edit@, index as nat, source@) == Ok::<edits::EditView, Seq<char>>(
                e@,
            ) && e.start < e.end <= source@.len(),
            Err(m) => read_edit(edit@, index as nat, source@) == Err::<edits::EditView, Seq<char>>(
                m@,
            ),
        },
{
    let number = text::successor_text(index);
    if !edit.is_object() {
        return Err(text::cat3("edit ", number.as_str(), " must be an object"));
    }
    let old = match edit.get_str("oldText") {
        Some(s) => s,
        None => return Err(text::cat3("edit ", number.as_str(), " requires non-empty oldText")),
    };
    if old.is_empty() {
        return Err(text::cat3("edit ", number.as_str(), " requires non-empty oldText"));
    }
    let new = match edit.get_str("newText") {
        Some(s) => s,
        None => return Err(text::cat3("edit ", number.as_str(), " requires newText")),
    };
    let found = occurrences(source, old);
    let ghost all = positions(source@, old@, source@.len() as int);
    proof {
        assert(found@.map_values(|i: usize| i as int).len() == found@.len());
        lemma_positions(source@, old@, source@.len() as int);
    }
    if found.len() != 1 {
        return Err(
            text::cat5(
                "edit ",
                number.as_str(),
                " oldText must occur exactly once in the original file; found ",
                text::usize_text(found.len()).as_str(),
                " matches",
            ),
        );
    }
    proof {
        assert(found@.map_values(|i: usize| i as int)[0] == text::utf8_len(source@.take(all[0])));
        cursor::lemma_position(source@, all[0]);
        assert(text::matches_at(source@, old@, all[0]));
    }
    let start: usize = cursor::position_of(source, found[0]);
    let total: usize = source.unicode_len();
    let end: usize = start + old.unicode_len();
    Ok(LineEdit { start, end, replacement: text::owned(new) })
}

fn comes_before(a: &LineEdit, b: &LineEdit) -> (r: bool)
    ensures
        r == (edits::edit_key(a@) < edits::edit_key(b@)),
{
    a.start < b.start || (a.start == b.start && a.start == a.end && b.start != b.end)
}

fn parse_edits(list: &Vec<Json>, source: &str) -> (r: Result<Vec<(usize, LineEdit)>, String>)
    ensures
        match r {
            Ok(v) => read_edits(json::json_views(list@), source@) == Ok::<
                Seq<edits::Placed>,
                Seq<char>,
            >(edits::placed(v@)) && (forall|k: int|
                0 <= k < v@.len() ==> (#[trigger] v@[k]).1.start < v@[k].1.end <= source@.len()),
            Err(m) => read_edits(json::json_views(list@), source@) == Err::<
                Seq<edits::Placed>,
                Seq<char>,
            >(m@),
        },
{
    let ghost all = json::json_views(list@);
    let mut out: Vec<(usize, LineEdit)> = Vec::new();
    let mut i: usize = 0;
    proof {
        assert(all.take(0) =~= Seq::empty());
        assert(edits::placed(out@) =~= Seq::empty());
    }
    while i < list.len()
        invariant
            i <= list@.len(),
            all == json::json_views(list@),
            read_edits(all.take(i as int), source@) == Ok::<Seq<edits::Placed>, Seq<char>>(
                edits::placed(out@),
            ),
            forall|k: int|
                0 <= k < out@.len() ==> (#[trigger] out@[k]).1.start < out@[k].1.end
                    <= source@.len(),
        decreases list@.len() - i,
    {
        proof {
            assert(all.take(i + 1).drop_last() =~= all.take(i as int));
            assert(all.take(i + 1).last() == list@[i as int]@);
        }
        let edit = match parse_edit(&list[i], i, source) {
            Ok(e) => e,
            Err(m) => {
                proof {
                    lemma_read_edits_err(all, source@, i as int + 1);
                }
                return Err(m);
            },
        };
        let mut k: usize = out.len();
        while k > 0 && comes_before(&edit, &out[k - 1].1)
            invariant
                k <= out@.len(),
                forall|j: int|
                    k <= j < out@.len() ==> edits::edit_key(edit@) < edits::edit_key(
                        (#[trigger] edits::placed(out@)[j]).1,
                    ),
            decreases k,
        {
            k -= 1;
        }
        let ghost before = edits::placed(out@);
        let ghost before_exec = out@;
        proof {
            if k > 0 {
                assert(before[k - 1].1 == out@[k - 1].1@);
            }
            edits::lemma_insert_edit(before, (i as int, edit@), k as int);
        }
        let ghost shown = edit@;
        out.insert(k, (i, edit));
        proof {
            assert(edits::placed(out@) =~= before.insert(k as int, (i as int, shown)));
            assert forall|m: int| 0 <= m < out@.len() implies (#[trigger] out@[m]).1.start
                < out@[m].1.end <= source@.len() by {
                if m < k {
                    assert(out@[m] == before_exec[m]);
                } else if m > k {
                    assert(out@[m] == before_exec[m - 1]);
                }
            }
        }
        i += 1;
    }
    proof {
        assert(all.take(i as int) =~= all);
    }
    Ok(out)
}

proof fn lemma_read_edits_err(list: Seq<json::JsonView>, source: Seq<char>, n: int)
    requires
        0 <= n <= list.len(),
        read_edits(list.take(n), source) is Err,
    ensures
        read_edits(list, source) == read_edits(list.take(n), source),
    decreases list.len() - n,
{
    if n < list.len() {
        assert(list.take(n + 1).drop_last() =~= list.take(n));
        lemma_read_edits_err(list, source, n + 1);
    } else {
        assert(list.take(n) =~= list);
    }
}

/// Replacements of which no two neighbours overlap lie one behind the other.
proof fn lemma_in_order(list: Seq<edits::Placed>, source: Seq<char>)
    requires
        !overlapping(list),
        forall|k: int|
            0 <= k < list.len() ==> 0 <= (#[trigger] list[k]).1.start <= list[k].1.end
                <= source.len(),
    ensures
        edits::in_order(source, list),
    decreases list.len(),
{
    if list.len() > 1 {
        let p = list.drop_last();
        assert(!overlapping(p)) by {
            assert forall|k: int| 0 <= k < p.len() - 1 implies !#[trigger] overlap_at(p, k) by {
                assert(p[k] == list[k] && p[k + 1] == list[k + 1]);
                assert(!overlap_at(list, k));
            }
        }
        assert forall|k: int| 0 <= k < p.len() implies 0 <= (#[trigger] p[k]).1.start <= p[k].1.end
            <= source.len() by {
            assert(p[k] == list[k]);
        }
        lemma_in_order(p, source);
        let n = list.len() - 1;
        assert forall|i: int, j: int| 0 <= i < j < list.len() implies (#[trigger] list[i]).1.end
            <= (#[trigger] list[j]).1.start by {
            assert(p[i] == list[i]);
            if j < n {
                assert(p[j] == list[j]);
            } else {
                assert(!overlap_at(list, n - 1));
                if i < n - 1 {
                    assert(p[n - 1] == list[n - 1]);
                    assert(p[i].1.end <= p[n - 1].1.start);
                }
            }
        }
    }
}

fn any_overlap(list: &Vec<(usize, LineEdit)>) -> (r: bool)
    ensures
        r == overlapping(edits::placed(list@)),
{
    let ghost all = edits::placed(list@);
    let mut k: usize = 1;
    while k < list.len()
        invariant
            1 <= k,
            k <= list@.len() || list@.len() == 0,
            all == edits::placed(list@),
            forall|j: int| 0 <= j < k - 1 ==> !#[trigger] overlap_at(all, j),
        decreases list@.len() - k,
    {
        if list[k - 1].1.end > list[k].1.start {
            proof {
                assert(overlap_at(all, k - 1));
            }
            return true;
        }
        k += 1;
    }
    false
}

fn patch_text(list: &Vec<Json>, source: &str, max_bytes: usize) -> (r: Result<String, String>)
    ensures
        match read_edits(json::json_views(list@), source@) {
            Err(m) => r is Err && r->Err_0@ == m,
            Ok(all) => if overlapping(all) {
                r is Err && r->Err_0@ == "patch edits overlap in the original file"@
            } else if text::utf8_len(edits::edited(source@, all)) > max_bytes {
                r is Err && r->Err_0@ == edits::limit_message(max_bytes as nat)
            } else {
                r is Ok && r->Ok_0@ == edits::edited(source@, all)
            },
        },
{
    let all = match parse_edits(list, source) {
        Ok(v) => v,
        Err(m) => return Err(m),
    };
    if any_overlap(&all) {
        return Err(text::owned("patch edits overlap in the original file"));
    }
    proof {
        let placed = edits::placed(all@);
        assert forall|k: int| 0 <= k < placed.len() implies 0 <= (#[trigger] placed[k]).1.start
            <= placed[k].1.end <= source@.len() by {
            assert(placed[k].1 == all@[k].1@);
        }
        lemma_in_order(placed, source@);
    }
    let (new, _ranges) = edits::apply_edits(source, &all);
    if text::byte_len(new.as_str()) > max_bytes {
        return Err(
            text::cat3(
                "patched file exceeds limit of ",
                text::usize_text(max_bytes).as_str(),
                " bytes",
            ),
        );
    }
    Ok(new)
}

fn patch_bytes(list: &Vec<Json>, bytes: Vec<u8>, max_bytes: usize) -> (r: Result<String, String>)
    ensures
        match patched(json::json_views(list@), bytes@, max_bytes as nat) {
            Ok(new) => r is Ok && r->Ok_0@ == new,
            Err(m) => r is Err && r->Err_0@ == m,
        },
{
    proof {
        reveal_strlit("");
        assert(""@ =~= Seq::<char>::empty());
    }
    match file_text(bytes, max_bytes, "") {
        Ok(source) => patch_text(list, source.as_str(), max_bytes),
        Err(m) => Err(m),
    }
}

impl Default for ToolPatch {
    fn default() -> (r: Self)
        ensures
            ids::is_random(r.id.0),
            r.max_bytes == 1024 * 1024,
    {
        ToolPatch::new()
    }
}

impl ToolPatch {
    pub fn new() -> (r: Self)
        ensures
            ids::is_random(r.id.0),
            r.max_bytes == 1024 * 1024,
    {
        ToolPatch { id: ToolId(fresh()), max_bytes: 1024 * 1024 }
    }

    pub fn with_max_bytes(self, max_bytes: usize) -> (r: Self)
        ensures
            r.max_bytes == max_bytes,
            r.id == self.id,
    {
        ToolPatch { id: self.id, max_bytes }
    }

    /// What a provider is told of the tool.
    pub fn definition(&self) -> (r: ToolDefinition)
        ensures
            r.name@ == "patch"@,
            r.description@ == DESCRIPTION@,
            r.schema@ == input_schema(),
            r.freeform is None,
    {
        let edit = ObjectBuilder::new().with(
            "oldText",
            json::described_string_schema(OLD_TEXT),
        ).with("newText", json::described_string_schema(NEW_TEXT));
        proof {
            assert(edit@ =~= seq![
                ("oldText"@, json::described_string(OLD_TEXT@)),
                ("newText"@, json::described_string(NEW_TEXT@)),
            ]);
        }
        let item = json::object_schema(edit, &["oldText", "newText"]);
        proof {
            assert(text::slice_texts(["oldText", "newText"]@) =~= seq!["oldText"@, "newText"@]);
        }
        let edits = ObjectBuilder::new().with("type", Json::text("array")).with(
            "minItems",
            Json::Number(json::JsonNumber::Unsigned(1)),
        ).with("items", item);
        proof {
            assert(edits@ =~= edits_schema()->Object_0);
        }
        let properties = ObjectBuilder::new().with(
            "path",
            json::described_string_schema(PATH),
        ).with("edits", edits.done());
        proof {
            assert(properties@ =~= seq![
                ("path"@, json::described_string(PATH@)),
                ("edits"@, edits_schema()),
            ]);
            assert(text::slice_texts(["path", "edits"]@) =~= seq!["path"@, "edits"@]);
        }
        ToolDefinition {
            name: text::owned("patch"),
            description: text::owned(DESCRIPTION),
            schema: json::object_schema(properties, &["path", "edits"]),
            freeform: None,
        }
    }

    pub fn name(&self) -> (r: &'static str)
        ensures
            r@ == "patch"@,
    {
        "patch"
    }

    /// The file that a request is about.
    pub fn target(&self, input: &Json) -> (r: model::Result<String>)
        ensures
            match r {
                Ok(path) => read_request(input@) is Ok && read_request(input@)->Ok_0.0 == path@,
                Err(e) => read_request(input@) is Err && e@ == model::ErrorView::Tool(
                    read_request(input@)->Err_0,
                ),
            },
    {
        if !input.is_object() {
            return Err(Error::Tool(text::owned("patch input must be an object")));
        }
        let path = match input.get_str("path") {
            Some(p) => p,
            None => return Err(Error::Tool(text::owned("patch requires a non-empty path"))),
        };
        if path.is_empty() {
            return Err(Error::Tool(text::owned("patch requires a non-empty path")));
        }
        match input.get_array("edits") {
            Some(list) => {
                proof {
                    assert(json::json_views(list@).len() == list@.len());
                }
                if list.len() == 0 {
                    return Err(Error::Tool(text::owned("patch requires one or more edits")));
                }
                Ok(text::owned(path))
            },
            None => Err(Error::Tool(text::owned("patch requires one or more edits"))),
        }
    }

    /// The new content of the file that a request is about.
    pub fn apply(&self, input: &Json, bytes: Vec<u8>) -> (r: model::Result<String>)
        ensures
            match read_request(input@) {
                Err(m) => r is Err && r->Err_0@ == model::ErrorView::Tool(m),
                Ok((path, list)) => match patched(list, bytes@, self.max_bytes as nat) {
                    Ok(new) => r is Ok && r->Ok_0@ == new,
                    Err(m) => r is Err && r->Err_0@ == model::ErrorView::Tool(m),
                },
            },
    {
        if let Err(e) = self.target(input) {
            return Err(e);
        }
        let list = match input.get_array("edits") {
            Some(list) => list,
            None => {
                proof {
                    assert(false);
                }
                return Err(Error::Tool(String::new()));
            },
        };
        match patch_bytes(list, bytes, self.max_bytes) {
            Ok(new) => Ok(new),
            Err(m) => Err(Error::Tool(m)),
        }
    }

    /// What is answered once the file has been written.
    pub fn summary(&self, input: &Json) -> (r: String)
        requires
            read_request(input@) is Ok,
        ensures
            ({
                let (path, list) = read_request(input@)->Ok_0;
                r@ == "Applied "@ + text::decimal(list.len()) + " replacement(s) to "@ + path
            }),
    {
        match (input.get_str("path"), input.get_array("edits")) {
            (Some(path), Some(list)) => {
                proof {
                    assert(json::json_views(list@).len() == list@.len());
                }
                text::cat4(
                    "Applied ",
                    text::usize_text(list.len()).as_str(),
                    " replacement(s) to ",
                    path,
                )
            },
            _ => {
                proof {
                    assert(false);
                }
                String::new()
            },
        }
    }

    /// The answer and the note for a patch that ended in a summary or an error text.
    pub fn conclude(&self, result: Result<String, String>) -> (r: (ToolOutput, NoteContent))
        ensures
            match result {
                Ok(content) => r.0@ == model::OutputView::Success(content@) && r.1@
                    == model::NoteView::Subtle(content@),
                Err(reason) => r.0@ == model::OutputView::Failure(reason@) && r.1@
                    == model::NoteView::Alert("Patch failed: "@ + reason@),
            },
    {
        match result {
            Ok(content) => {
                let note = text::owned(content.as_str());
                (ToolOutput::Success { content }, NoteContent::Subtle { content: note })
            },
            Err(content) => {
                let note = text::cat2("Patch failed: ", content.as_str());
                (ToolOutput::Failure { content }, NoteContent::Alert { content: note })
            },
        }
    }
}

pub struct ToolPatchPlugin {
    pub id: PluginId,
}

impl ToolPatchPlugin {
    pub fn new() -> (r: Self)
        ensures
            ids::is_random(r.id.0),
    {
        ToolPatchPlugin { id: PluginId(fresh()) }
    }

    pub fn name(&self) -> (r: &'static str)
        ensures
            r@ == "tool_patch"@,
    {
        "tool_patch"
    }

    /// The tool is offered where line anchors are not.
    pub fn offers_tool(&self, enable_hashline: bool) -> (r: bool)
        ensures
            r == !enable_hashline,
    {
        !enable_hashline
    }
}

/// A text that stands exactly once in a file is replaced there, and all else of the file
/// stays; one that stands there more than once, or not at all, is not replaced.
pub proof fn law_texts_are_replaced_once(
    before: Seq<char>,
    old: Seq<char>,
    new: Seq<char>,
    after: Seq<char>,
    index: nat,
    i: int,
    j: int,
)
    requires
        old.len() > 0,
    ensures
        ({
            let source = before + old + after;
            let edit = edit_of(old, new);
            &&& (forall|k: int| text::matches_at(source, old, k) ==> k == before.len()) ==> read_edit(
                edit,
                index,
                source,
            ) == Ok::<edits::EditView, Seq<char>>(
                edits::EditView {
                    start: before.len() as int,
                    end: before.len() as int + old.len(),
                    replacement: new,
                },
            ) && edits::edited(source, seq![(0int, read_edit(edit, index, source)->Ok_0)]) == before
                + new + after
            &&& i != j && text::matches_at(source, old, i) && text::matches_at(source, old, j)
                ==> read_edit(edit, index, source) is Err
            &&& !text::has_text(before, old) ==> read_edit(edit, index, before) is Err
        }),
{
    let source = before + old + after;
    let edit = edit_of(old, new);
    reveal_strlit("oldText");
    reveal_strlit("newText");
    assert("oldText"@[0] == 'o' && "newText"@[0] == 'n');
    reveal_with_fuel(json::field_from, 3);
    assert(json::text_at(edit, "oldText"@) == Some(old));
    assert(json::text_at(edit, "newText"@) == Some(new));
    let at = before.len() as int;
    assert(source.subrange(at, at + old.len()) =~= old);
    lemma_all_positions(source, old, source.len() as int);
    lemma_all_positions(before, old, before.len() as int);
    let found = positions(source, old, source.len() as int);
    assert(text::matches_at(source, old, at));
    if forall|k: int| text::matches_at(source, old, k) ==> k == before.len() {
        assert(found.contains(at));
        let p = found.index_of(at);
        if found.len() > 1 {
            assert(found[0] < found[1]);
            assert(text::matches_at(source, old, found[0]));
            assert(text::matches_at(source, old, found[1]));
        }
        assert(found.len() == 1 && found[0] == at);
        let e = read_edit(edit, index, source)->Ok_0;
        let list = seq![(0int, e)];
        assert(list.drop_last() =~= Seq::empty());
        assert(edits::edited_head(source, list.drop_last()) =~= Seq::empty());
        assert(source.skip(at + old.len()) =~= after);
        assert(edits::edited(source, list) =~= before + new + after);
    }
    if i != j && text::matches_at(source, old, i) && text::matches_at(source, old, j) {
        assert(found.contains(i) && found.contains(j));
        let a = found.index_of(i);
        let b = found.index_of(j);
        assert(found[a] == i && found[b] == j);
    }
    let none = positions(before, old, before.len() as int);
    if !text::has_text(before, old) && none.len() > 0 {
        assert(text::matches_at(before, old, none[0]));
    }
}

/// A request to replace one text by another.
pub open spec fn edit_of(old: Seq<char>, new: Seq<char>) -> json::JsonView {
    json::JsonView::Object(
        seq![("oldText"@, json::JsonView::Text(old)), ("newText"@, json::JsonView::Text(new))],
    )
}

proof fn lemma_all_positions(source: Seq<char>, needle: Seq<char>, upto: int)
    requires
        0 <= upto <= source.len(),
        needle.len() > 0,
    ensures
        forall|k: int|
            0 <= k < upto && text::matches_at(source, needle, k) ==> #[trigger] positions(
                source,
                needle,
                upto,
            ).contains(k),
        upto == source.len() ==> forall|k: int| #[trigger]
            text::matches_at(source, needle, k) ==> positions(source, needle, upto).contains(k),
        forall|a: int|
            0 <= a < positions(source, needle, upto).len() ==> text::matches_at(
                source,
                needle,
                #[trigger] positions(source, needle, upto)[a],
            ) && positions(source, needle, upto)[a] < upto,
        forall|a: int, b: int|
            0 <= a < b < positions(source, needle, upto).len() ==> (#[trigger] positions(
                source,
                needle,
                upto,
            )[a]) < (#[trigger] positions(source, needle, upto)[b]),
    decreases upto,
{
    if upto > 0 {
        lemma_all_positions(source, needle, upto - 1);
        let all = positions(source, needle, upto);
        let earlier = positions(source, needle, upto - 1);
        assert forall|k: int|
            0 <= k < upto && text::matches_at(source, needle, k) implies #[trigger] all.contains(
            k,
        ) by {
            if k < upto - 1 {
                assert(earlier.contains(k));
                let p = earlier.index_of(k);
                assert(all[p] == k);
            } else {
                assert(all[all.len() - 1] == k);
            }
        }
    }
}

/// A file that holds the old text once is patched there. One that is not text, or is too
/// long before or after, is refused.
pub proof fn law_files_are_patched(
    bytes: Seq<u8>,
    before: Seq<char>,
    old: Seq<char>,
    new: Seq<char>,
    after: Seq<char>,
    max_bytes: nat,
)
    requires
        old.len() > 0,
        vstd::utf8::decode_utf8(bytes) == before + old + after,
        forall|k: int| text::matches_at(before + old + after, old, k) ==> k == before.len(),
    ensures
        !bytes.contains(0u8) && bytes.len() <= max_bytes && vstd::utf8::valid_utf8(bytes)
            && text::utf8_len(before + new + after) <= max_bytes ==> patched(
            seq![edit_of(old, new)],
            bytes,
            max_bytes,
        ) == Ok::<Seq<char>, Seq<char>>(before + new + after),
        bytes.contains(0u8) || bytes.len() > max_bytes || !vstd::utf8::valid_utf8(bytes)
            || text::utf8_len(before + new + after) > max_bytes ==> patched(
            seq![edit_of(old, new)],
            bytes,
            max_bytes,
        ) is Err,
{
    let source = before + old + after;
    law_texts_are_replaced_once(before, old, new, after, 0, 0, 0);
    let list = seq![edit_of(old, new)];
    assert(list.drop_last() =~= Seq::empty());
    reveal_with_fuel(read_edits, 2);
    let e = read_edit(edit_of(old, new), 0, source)->Ok_0;
    assert(edits::insert_edit(Seq::empty(), (0int, e)) =~= seq![(0int, e)]);
    assert(read_edits(list, source) == Ok::<Seq<edits::Placed>, Seq<char>>(seq![(0int, e)]));
    assert(!overlapping(seq![(0int, e)]));
}

/// Edits at two places are both made, whichever is asked for first; edits that overlap are
/// refused.
pub proof fn law_edits_are_made_in_any_order(
    bytes: Seq<u8>,
    a: Seq<char>,
    x: Seq<char>,
    b: Seq<char>,
    y: Seq<char>,
    c: Seq<char>,
    p: Seq<char>,
    q: Seq<char>,
    max_bytes: nat,
)
    requires
        x.len() > 0,
        y.len() > 0,
        vstd::utf8::decode_utf8(bytes) == a + x + b + y + c,
        forall|k: int| text::matches_at(a + x + b + y + c, x, k) ==> k == a.len(),
        forall|k: int|
            text::matches_at(a + x + b + y + c, y, k) ==> k == a.len() + x.len() + b.len(),
        !bytes.contains(0u8) && bytes.len() <= max_bytes && vstd::utf8::valid_utf8(bytes),
        text::utf8_len(a + p + b + q + c) <= max_bytes,
    ensures
        patched(seq![edit_of(x, p), edit_of(y, q)], bytes, max_bytes) == Ok::<
            Seq<char>,
            Seq<char>,
        >(a + p + b + q + c),
        patched(seq![edit_of(y, q), edit_of(x, p)], bytes, max_bytes) == Ok::<
            Seq<char>,
            Seq<char>,
        >(a + p + b + q + c),
{
    let source = a + x + b + y + c;
    let s = a.len() as int;
    let t = a.len() as int + x.len() + b.len();
    assert(source =~= a + x + (b + y + c));
    assert(source =~= (a + x + b) + y + c);
    law_texts_are_replaced_once(a, x, p, b + y + c, 0, 0, 0);
    law_texts_are_replaced_once(a, x, p, b + y + c, 1, 0, 0);
    law_texts_are_replaced_once(a + x + b, y, q, c, 0, 0, 0);
    law_texts_are_replaced_once(a + x + b, y, q, c, 1, 0, 0);
    let e = edits::EditView { start: s, end: s + x.len(), replacement: p };
    let f = edits::EditView { start: t, end: t + y.len(), replacement: q };
    reveal_with_fuel(read_edits, 3);
    let one = seq![edit_of(x, p), edit_of(y, q)];
    let two = seq![edit_of(y, q), edit_of(x, p)];
    assert(one.drop_last() =~= seq![edit_of(x, p)]);
    assert(two.drop_last() =~= seq![edit_of(y, q)]);
    assert(seq![edit_of(x, p)].drop_last() =~= Seq::empty());
    assert(seq![edit_of(y, q)].drop_last() =~= Seq::empty());
    assert(edits::insert_edit(Seq::empty(), (0int, e)) =~= seq![(0int, e)]);
    assert(edits::insert_edit(Seq::empty(), (0int, f)) =~= seq![(0int, f)]);
    edits::lemma_insert_edit(seq![(0int, e)], (1int, f), 1);
    edits::lemma_insert_edit(seq![(0int, f)], (1int, e), 0);
    let first = seq![(0int, e), (1int, f)];
    let second = seq![(1int, e), (0int, f)];
    assert(seq![(0int, e)].insert(1, (1int, f)) =~= first);
    assert(seq![(0int, f)].insert(0, (1int, e)) =~= second);
    assert(read_edits(one, source) == Ok::<Seq<edits::Placed>, Seq<char>>(first));
    assert(read_edits(two, source) == Ok::<Seq<edits::Placed>, Seq<char>>(second));
    lemma_two_edits(source, first, a, x, b, y, c);
    lemma_two_edits(source, second, a, x, b, y, c);
}

proof fn lemma_two_edits(
    source: Seq<char>,
    list: Seq<edits::Placed>,
    a: Seq<char>,
    x: Seq<char>,
    b: Seq<char>,
    y: Seq<char>,
    c: Seq<char>,
)
    requires
        source == a + x + b + y + c,
        list.len() == 2,
        list[0].1.start == a.len(),
        list[0].1.end == a.len() + x.len(),
        list[1].1.start == a.len() + x.len() + b.len(),
        list[1].1.end == a.len() + x.len() + b.len() + y.len(),
    ensures
        !overlapping(list),
        edits::edited(source, list) == a + list[0].1.replacement + b + list[1].1.replacement + c,
{
    let t = a.len() as int + x.len() + b.len();
    assert(!overlap_at(list, 0));
    let front = list.drop_last();
    assert(front.drop_last() =~= Seq::empty());
    assert(edits::edited_head(source, front.drop_last()) =~= Seq::empty());
    assert(source.subrange(0, a.len() as int) =~= a);
    assert(source.subrange(a.len() as int + x.len(), t) =~= b);
    assert(source.skip(t + y.len()) =~= c);
    assert(edits::edited_head(source, front) =~= a + list[0].1.replacement);
    assert(edits::edited_head(source, list) =~= a + list[0].1.replacement + b
        + list[1].1.replacement);
}

/// A request names a path and at least one edit.
pub proof fn law_requests_name_path_and_edits(input: json::JsonView)
    ensures
        read_request(input) matches Ok(r) ==> {
            &&& r.0.len() > 0 && r.1.len() > 0
            &&& json::text_at(input, "path"@) == Some(r.0)
            &&& json::field(input, "edits"@) == Some(json::JsonView::Array(r.1))
        },
        input is Object && (json::text_at(input, "path"@) matches Some(p) && p.len() > 0) && (
        json::field(input, "edits"@) matches Some(json::JsonView::Array(list)) && list.len() > 0)
            ==> read_request(input) is Ok,
{
}

} // verus!
