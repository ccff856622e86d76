//! Skills: instructions in directories of their own, which a session can select.
use crate::ids::SessionId;
use crate::json;
use crate::json::{Json, ObjectBuilder};
use crate::model;
use crate::model::{ContextPart, ContextPriority, Error, ToolDefinition};
use crate::paths;
use crate::plugins::file_tools::{FileFacts, FileProbe};
use crate::plugins::registration;
use crate::plugins::registration::{Registration, RegistrationKind, RegistrationView};
use crate::text;
use vstd::prelude::*;

verus! {

pub const PLUGIN_ID: &'static str = "builtin.skills";

pub const TOOL_ID: &'static str = "builtin.skills";

pub const TOOL_NAME: &'static str = "skills";

pub const HOOK_ID: &'static str = "builtin.skills.context";

/// How many bytes a file with a skill may have while skills are looked for.
pub const MAX_METADATA_BYTES: usize = 16384;

/// How many directories are looked through.
pub const MAX_SKILL_DIRECTORIES: usize = 10_000;

#[derive(Clone, Debug, PartialEq, Eq)]
pub struct SkillsConfig {
    pub root: String,
    pub max_skill_bytes: usize,
}

impl Default for SkillsConfig {
    fn default() -> (r: Self)
        ensures
            r.root@ == ".opencode/skills"@,
            r.max_skill_bytes == 256 * 1024,
    {
        SkillsConfig { root: text::owned(".opencode/skills"), max_skill_bytes: 256 * 1024 }
    }
}

impl SkillsConfig {
    pub fn new(root: String) -> (r: Self)
        ensures
            r.root == root,
            r.max_skill_bytes == 256 * 1024,
    {
        SkillsConfig { root, max_skill_bytes: 256 * 1024 }
    }
}

/// What is known of a skill.
#[derive(Clone, Debug, PartialEq, Eq)]
pub struct SkillMetadata {
    pub name: String,
    pub description: String,
    pub directory: String,
}

/// What is known of a skill, in mathematical terms.
pub ghost struct SkillView {
    pub name: Seq<char>,
    pub description: Seq<char>,
    pub directory: Seq<char>,
}

impl View for SkillMetadata {
    type V = SkillView;

    open spec fn view(&self) -> SkillView {
        SkillView {
            name: self.name@,
            description: self.description@,
            directory: self.directory@,
        }
    }
}

pub open spec fn skill_views(list: Seq<SkillMetadata>) -> Seq<SkillView> {
    Seq::new(list.len(), |i: int| list[i]@)
}

// ---------------------------------------------------------------------------
// The head of a skill
// ---------------------------------------------------------------------------

/// A value without the quotes around it.
pub open spec fn unquoted(value: Seq<char>) -> Seq<char> {
    text::trim_by(
        text::trim_by(text::trimmed(value), |c: char| c == '"'),
        |c: char| c == '\'',
    )
}

/// What the lines from the one at `i` on say, up to the line that ends the head.
pub open spec fn head_from(
    path: Seq<char>,
    lines: Seq<Seq<char>>,
    i: int,
    name: Option<Seq<char>>,
    description: Option<Seq<char>>,
) -> Result<(Option<Seq<char>>, Option<Seq<char>>), Seq<char>>
    decreases lines.len() - i,
{
    if i < 0 || i >= lines.len() {
        Err("unterminated skill metadata in "@ + path)
    } else if lines[i] == "---"@ {
        Ok((name, description))
    } else {
        match text::split_once(lines[i], ':') {
            None => Err(
                "invalid skill metadata line in "@ + path + ": "@ + text::quoted(lines[i]),
            ),
            Some((key, value)) => {
                let key = text::trimmed(key);
                let value = unquoted(value);
                if key == "name"@ {
                    head_from(path, lines, i + 1, Some(value), description)
                } else if key == "description"@ {
                    head_from(path, lines, i + 1, name, Some(value))
                } else {
                    head_from(path, lines, i + 1, name, description)
                }
            },
        }
    }
}

/// The name and the description in the head of a skill, or what is wrong with it.
pub open spec fn head_of(path: Seq<char>, content: Seq<char>) -> Result<
    (Seq<char>, Seq<char>),
    Seq<char>,
> {
    let lines = text::lines_of(content);
    if lines.len() == 0 || lines[0] != "---"@ {
        Err("skill "@ + path + " must start with YAML-style front matter"@)
    } else {
        match head_from(path, lines, 1, None, None) {
            Err(m) => Err(m),
            Ok((None, _)) => Err("skill "@ + path + " has no name"@),
            Ok((Some(_), None)) => Err("skill "@ + path + " has no description"@),
            Ok((Some(name), Some(description))) => Ok((name, description)),
        }
    }
}

/// Reads the head of a skill.
pub fn read_head(path: &str, content: &str) -> (r: model::Result<(String, String)>)
    ensures
        match head_of(path@, content@) {
            Ok(head) => r is Ok && ((r->Ok_0).0@, (r->Ok_0).1@) == head,
            Err(m) => r is Err && r->Err_0@ == model::ErrorView::Plugin(m),
        },
{
    let lines = text::split_lines(content);
    let ghost all = text::lines_of(content@);
    if lines.len() == 0 || !text::same_text(lines[0].as_str(), "---") {
        return Err(
            Error::Plugin(text::cat3("skill ", path, " must start with YAML-style front matter")),
        );
    }
    let mut name: Option<String> = None;
    let mut description: Option<String> = None;
    let mut closed = false;
    let mut i: usize = 1;
    while i < lines.len() && !closed
        invariant
            1 <= i <= lines@.len(),
            all == text::texts(lines@),
            all == text::lines_of(content@),
            all[0] == "---"@,
            head_from(path@, all, 1, None, None) == (if closed {
                Ok((text::opt_text(name), text::opt_text(description)))
            } else {
                head_from(
                    path@,
                    all,
                    i as int,
                    text::opt_text(name),
                    text::opt_text(description),
                )
            }),
        decreases lines@.len() - i, !closed as int,
    {
        let line = lines[i].as_str();
        proof {
            assert(line@ == all[i as int]);
        }
        if text::same_text(line, "---") {
            closed = true;
        } else {
            match text::split_at_char(line, ':') {
                None => {
                    let shown = text::quote(line);
                    return Err(
                        Error::Plugin(
                            text::cat4(
                                "invalid skill metadata line in ",
                                path,
                                ": ",
                                shown.as_str(),
                            ),
                        ),
                    );
                },
                Some((key, value)) => {
                    let key = text::trim(key);
                    let value = text::trim_char(text::trim_char(text::trim(value), '"'), '\'');
                    if text::same_text(key, "name") {
                        name = Some(text::owned(value));
                    } else if text::same_text(key, "description") {
                        description = Some(text::owned(value));
                    }
                },
            }
            i += 1;
        }
    }
    if !closed {
        return Err(Error::Plugin(text::cat2("unterminated skill metadata in ", path)));
    }
    match name {
        None => Err(Error::Plugin(text::cat3("skill ", path, " has no name"))),
        Some(name) => match description {
            None => Err(Error::Plugin(text::cat3("skill ", path, " has no description"))),
            Some(description) => Ok((name, description)),
        },
    }
}

/// Reads the head of a skill from what was read of its file, no more than one byte
/// above the limit.
pub fn read_metadata(path: &str, read: core::result::Result<Vec<u8>, String>) -> (r: model::Result<
    (String, String),
>)
    ensures
        match read {
            Err(e) => r is Err && r->Err_0@ == model::ErrorView::Plugin(
                "could not read "@ + path@ + ": "@ + e@,
            ),
            Ok(bytes) => if bytes@.len() > MAX_METADATA_BYTES {
                r is Err && r->Err_0@ == model::ErrorView::Plugin(
                    "skill metadata "@ + path@ + " exceeds the size limit"@,
                )
            } else if !vstd::utf8::valid_utf8(bytes@) {
                r is Err && r->Err_0@ == model::ErrorView::Plugin(
                    "skill metadata "@ + path@ + " is not UTF-8: "@ + text::utf8_complaint(bytes@),
                )
            } else {
                match head_of(path@, vstd::utf8::decode_utf8(bytes@)) {
                    Ok(head) => r is Ok && ((r->Ok_0).0@, (r->Ok_0).1@) == head,
                    Err(m) => r is Err && r->Err_0@ == model::ErrorView::Plugin(m),
                }
            },
        },
{
    let bytes = match read {
        Ok(b) => b,
        Err(e) => {
            return Err(Error::Plugin(text::cat4("could not read ", path, ": ", e.as_str())));
        },
    };
    if bytes.len() > MAX_METADATA_BYTES {
        return Err(
            Error::Plugin(text::cat3("skill metadata ", path, " exceeds the size limit")),
        );
    }
    match text::utf8_text(bytes) {
        Err(e) => Err(
            Error::Plugin(text::cat4("skill metadata ", path, " is not UTF-8: ", e.as_str())),
        ),
        Ok(content) => {
            proof {
                vstd::utf8::encode_utf8_decode_utf8(content@);
            }
            read_head(path, content.as_str())
        },
    }
}

/// Whether a character may stand in the name of a skill.
pub open spec fn is_name_char(c: char) -> bool {
    ('a' <= c && c <= 'z') || ('0' <= c && c <= '9') || c == '-'
}

/// Whether a text is the name of a skill.
pub open spec fn is_skill_name(name: Seq<char>) -> bool {
    &&& 0 < name.len()
    &&& text::utf8_len(name) <= 64
    &&& name[0] != '-'
    &&& name.last() != '-'
    &&& forall|i: int| 0 <= i < name.len() ==> is_name_char(#[trigger] name[i])
}

/// Whether a text describes a skill.
pub open spec fn is_description(description: Seq<char>) -> bool {
    &&& !text::is_blank(description)
    &&& text::utf8_len(description) <= 1024
    &&& forall|i: int|
        0 <= i < description.len() ==> #[trigger] description[i] != '\n' && description[i] != '\r'
}

/// Checks the name of a skill.
pub fn validate_name(name: &str) -> (r: model::Result<()>)
    ensures
        if is_skill_name(name@) {
            r is Ok
        } else {
            r is Err && r->Err_0@ == model::ErrorView::Plugin(
                "invalid skill name "@ + text::quoted(name@),
            )
        },
{
    let cs = text::to_chars(name);
    let n: usize = cs.len();
    let mut valid = n > 0 && text::byte_len(name) <= 64 && cs[0] != '-' && cs[n - 1] != '-';
    let ghost ends = valid;
    let mut i: usize = 0;
    while i < n
        invariant
            i <= n,
            n == cs@.len(),
            valid == (ends && forall|k: int| 0 <= k < i ==> is_name_char(#[trigger] cs@[k])),
        decreases n - i,
    {
        let c = cs[i];
        let fits = ('a' <= c && c <= 'z') || ('0' <= c && c <= '9') || c == '-';
        proof {
            assert(fits == is_name_char(cs@[i as int]));
        }
        if !fits {
            valid = false;
        }
        i += 1;
    }
    if valid {
        return Ok(());
    }
    let shown = text::quote(name);
    Err(Error::Plugin(text::cat2("invalid skill name ", shown.as_str())))
}

/// Checks the description of a skill.
pub fn validate_description(description: &str) -> (r: model::Result<()>)
    ensures
        if is_description(description@) {
            r is Ok
        } else {
            r is Err && r->Err_0@ == model::ErrorView::Plugin(
                "skill description must be 1..=1024 bytes on one line"@,
            )
        },
{
    let feeds = text::has_char(description, '\n');
    let carriage = text::has_char(description, '\r');
    proof {
        let d = description@;
        if is_description(d) {
            assert(!d.contains('\n')) by {
                if d.contains('\n') {
                    let k = choose|k: int| 0 <= k < d.len() && d[k] == '\n';
                    assert(d[k] != '\n');
                }
            }
            assert(!d.contains('\r')) by {
                if d.contains('\r') {
                    let k = choose|k: int| 0 <= k < d.len() && d[k] == '\r';
                    assert(d[k] != '\n' && d[k] != '\r');
                }
            }
        }
    }
    if !text::blank(description) && text::byte_len(description) <= 1024 && !feeds && !carriage {
        return Ok(());
    }
    Err(Error::Plugin(text::owned("skill description must be 1..=1024 bytes on one line")))
}

// ---------------------------------------------------------------------------
// The catalog
// ---------------------------------------------------------------------------

/// The skills that were found.
pub struct SkillCatalog {
    pub root: String,
    pub max_skill_bytes: usize,
    /// In the order of their names.
    pub skills: Vec<SkillMetadata>,
}

/// The place of a skill's name among skills.
pub open spec fn skill_at(list: Seq<SkillView>, name: Seq<char>, from: int) -> Option<int>
    decreases list.len() - from,
{
    if from < 0 || from >= list.len() {
        None
    } else if list[from].name == name {
        Some(from)
    } else {
        skill_at(list, name, from + 1)
    }
}

/// Whether a skill of that name was found.
pub open spec fn has_skill(list: Seq<SkillView>, name: Seq<char>) -> bool {
    exists|i: int| 0 <= i < list.len() && (#[trigger] list[i]).name == name
}

proof fn lemma_skill_at(list: Seq<SkillView>, name: Seq<char>, from: int)
    requires
        0 <= from <= list.len(),
    ensures
        match skill_at(list, name, from) {
            Some(i) => from <= i < list.len() && list[i].name == name,
            None => forall|i: int| from <= i < list.len() ==> (#[trigger] list[i]).name != name,
        },
    decreases list.len() - from,
{
    if from < list.len() && list[from].name != name {
        lemma_skill_at(list, name, from + 1);
    }
}

/// Whether skills are in the order of their names, each name once.
pub open spec fn in_name_order(list: Seq<SkillView>) -> bool {
    forall|i: int, j: int|
        #![trigger list[i], list[j]]
        0 <= i < j < list.len() ==> text::text_less(list[i].name, list[j].name)
}

/// Skills with another one in its place.
pub open spec fn with_skill(list: Seq<SkillView>, skill: SkillView) -> Seq<SkillView>
    decreases list.len(),
{
    if list.len() == 0 || !text::text_less(skill.name, list.last().name) {
        list.push(skill)
    } else {
        with_skill(list.drop_last(), skill).push(list.last())
    }
}

proof fn lemma_with_skill(list: Seq<SkillView>, skill: SkillView)
    requires
        in_name_order(list),
        !has_skill(list, skill.name),
    ensures
        in_name_order(with_skill(list, skill)),
        with_skill(list, skill).len() == list.len() + 1,
        forall|i: int|
            0 <= i < list.len() + 1 ==> #[trigger] with_skill(list, skill)[i] == skill
                || list.contains(with_skill(list, skill)[i]),
    decreases list.len(),
{
    let more = with_skill(list, skill);
    if list.len() == 0 {
    } else if !text::text_less(skill.name, list.last().name) {
        let last = list.last();
        assert(list[list.len() - 1] == last);
        text::lemma_text_less_total(skill.name, last.name);
        assert forall|i: int, j: int|
            #![trigger more[i], more[j]]
            0 <= i < j < more.len() implies text::text_less(more[i].name, more[j].name) by {
            if j == list.len() && i < list.len() - 1 {
                assert(text::text_less(list[i].name, last.name));
                text::lemma_text_less_trans(list[i].name, last.name, skill.name);
            }
        }
        assert forall|i: int| 0 <= i < list.len() + 1 implies #[trigger] more[i] == skill
            || list.contains(more[i]) by {
            if i < list.len() {
                assert(list[i] == more[i]);
            }
        }
    } else {
        let front = list.drop_last();
        let last = list.last();
        assert(list[list.len() - 1] == last);
        assert(!has_skill(front, skill.name)) by {
            if has_skill(front, skill.name) {
                let k = choose|k: int| 0 <= k < front.len() && (#[trigger] front[k]).name
                    == skill.name;
                assert(list[k].name == skill.name);
            }
        }
        lemma_with_skill(front, skill);
        let inner = with_skill(front, skill);
        assert forall|i: int, j: int|
            #![trigger more[i], more[j]]
            0 <= i < j < more.len() implies text::text_less(more[i].name, more[j].name) by {
            if j == list.len() {
                assert(more[i] == inner[i]);
                if inner[i] != skill {
                    let k = choose|k: int| 0 <= k < front.len() && front[k] == inner[i];
                    assert(list[k] == inner[i]);
                }
            } else {
                assert(more[i] == inner[i] && more[j] == inner[j]);
            }
        }
        assert forall|i: int| 0 <= i < list.len() + 1 implies #[trigger] more[i] == skill
            || list.contains(more[i]) by {
            if i < list.len() {
                assert(more[i] == inner[i]);
                if inner[i] != skill {
                    let k = choose|k: int| 0 <= k < front.len() && front[k] == inner[i];
                    assert(list[k] == inner[i]);
                }
            } else {
                assert(list[list.len() - 1] == more[i]);
            }
        }
    }
}

/// Taking up a skill whose name is new keeps the catalog in the order of its names,
/// with each name once.
pub proof fn law_catalogs_stay_in_order(list: Seq<SkillView>, skill: SkillView)
    requires
        in_name_order(list),
        !has_skill(list, skill.name),
    ensures
        in_name_order(with_skill(list, skill)),
        forall|i: int, j: int|
            #![trigger with_skill(list, skill)[i], with_skill(list, skill)[j]]
            0 <= i < j < list.len() + 1 ==> with_skill(list, skill)[i].name != with_skill(
                list,
                skill,
            )[j].name,
{
    lemma_with_skill(list, skill);
    let more = with_skill(list, skill);
    assert forall|i: int, j: int|
        #![trigger more[i], more[j]]
        0 <= i < j < list.len() + 1 implies more[i].name != more[j].name by {
        text::lemma_text_less_total(more[i].name, more[j].name);
    }
}

fn find_skill(list: &[SkillMetadata], name: &str) -> (r: Option<usize>)
    ensures
        match r {
            Some(i) => i < list@.len() && skill_at(skill_views(list@), name@, 0) == Some(i as int),
            None => skill_at(skill_views(list@), name@, 0) is None,
        },
{
    let mut i: usize = 0;
    while i < list.len()
        invariant
            i <= list@.len(),
            skill_at(skill_views(list@), name@, 0) == skill_at(
                skill_views(list@),
                name@,
                i as int,
            ),
        decreases list@.len() - i,
    {
        proof {
            assert(skill_views(list@)[i as int].name == list@[i as int].name@);
        }
        if text::same_text(list[i].name.as_str(), name) {
            return Some(i);
        }
        i += 1;
    }
    None
}

fn insert_skill(list: &mut Vec<SkillMetadata>, skill: SkillMetadata)
    ensures
        skill_views(final(list)@) == with_skill(skill_views(old(list)@), skill@),
{
    let ghost all = skill_views(list@);
    let ghost s = skill@;
    let mut k: usize = list.len();
    let ghost mut tail: Seq<SkillView> = Seq::empty();
    proof {
        assert(all.take(k as int) =~= all);
        assert(with_skill(all, s) + tail =~= with_skill(all, s));
        assert(all.skip(k as int) =~= tail);
    }
    while k > 0 && text::less(skill.name.as_str(), list[k - 1].name.as_str())
        invariant
            k <= list@.len(),
            s == skill@,
            all == skill_views(list@),
            tail == all.skip(k as int),
            with_skill(all, s) == with_skill(all.take(k as int), s) + tail,
        decreases k,
    {
        proof {
            let front = all.take(k as int);
            assert(front.last() == list@[k - 1]@);
            assert(front.drop_last() =~= all.take(k - 1));
            assert(with_skill(front, s) + tail =~= with_skill(all.take(k - 1), s) + (seq![
                front.last(),
            ] + tail));
            tail = seq![front.last()] + tail;
            assert(tail =~= all.skip(k - 1));
        }
        k -= 1;
    }
    proof {
        let front = all.take(k as int);
        if k > 0 {
            assert(front.last() == list@[k - 1]@);
        }
        assert(with_skill(front, s) == front.push(s));
        assert(front.push(s) + tail =~= all.insert(k as int, s));
    }
    list.insert(k, skill);
    proof {
        assert(skill_views(list@) =~= all.insert(k as int, s));
    }
}

// ---------------------------------------------------------------------------
// Looking for skills
// ---------------------------------------------------------------------------

/// A search for skills on its way.
pub struct SkillWalk {
    pub root: String,
    pub max_skill_bytes: usize,
    /// The directories that are still to be looked at; the last one is next.
    pub pending: Vec<String>,
    pub visited: usize,
    pub skills: Vec<SkillMetadata>,
}

/// What an entry of a directory is.
#[derive(Clone, Debug, PartialEq, Eq)]
pub enum SkillEntryKind {
    Directory,
    Other,
    /// It could not be found out, and why.
    Failed(String),
}

/// An entry of a directory.
#[derive(Clone, Debug, PartialEq, Eq)]
pub struct SkillEntry {
    pub name: String,
    pub kind: SkillEntryKind,
}

/// Whether a directory is not looked through.
pub open spec fn is_ignored_name(name: Seq<char>) -> bool {
    name == ".git"@ || name == "target"@
}

/// Whether a directory is not looked through.
pub fn is_ignored(name: &str) -> (r: bool)
    ensures
        r == is_ignored_name(name@),
{
    text::same_text(name, ".git") || text::same_text(name, "target")
}

/// Whether there is a file with a skill, or what is wrong with it.
pub fn is_regular_file(path: &str, probe: &FileProbe) -> (r: model::Result<bool>)
    ensures
        match *probe {
            FileProbe::Missing => r == Ok::<bool, Error>(false),
            FileProbe::Failed(e) => r is Err && r->Err_0@ == model::ErrorView::Plugin(
                "could not inspect "@ + path@ + ": "@ + e@,
            ),
            FileProbe::Found(facts) => if facts.symlink {
                r is Err && r->Err_0@ == model::ErrorView::Plugin(
                    "skill file may not be a symlink: "@ + path@,
                )
            } else {
                r == Ok::<bool, Error>(facts.file)
            },
        },
{
    match probe {
        FileProbe::Missing => Ok(false),
        FileProbe::Failed(e) => Err(
            Error::Plugin(text::cat4("could not inspect ", path, ": ", e.as_str())),
        ),
        FileProbe::Found(facts) => {
            if facts.symlink {
                return Err(
                    Error::Plugin(text::cat2("skill file may not be a symlink: ", path)),
                );
            }
            Ok(facts.file)
        },
    }
}

/// The skill that stands in a directory, or why it cannot be taken up.
pub open spec fn skill_in(
    root: Seq<char>,
    directory: Seq<char>,
    known: Seq<SkillView>,
    head: (Seq<char>, Seq<char>),
) -> Result<SkillView, Seq<char>> {
    let (name, description) = head;
    if !is_skill_name(name) {
        Err("invalid skill name "@ + text::quoted(name))
    } else if !is_description(description) {
        Err("skill description must be 1..=1024 bytes on one line"@)
    } else {
        match paths::last_name(directory) {
            None => Err("invalid skill directory "@ + directory),
            Some(expected) => if expected != name {
                Err(
                    "skill name "@ + text::quoted(name) + " must match directory "@ + text::quoted(
                        expected,
                    ),
                )
            } else if has_skill(known, name) {
                Err("duplicate skill name "@ + text::quoted(name))
            } else {
                Ok(
                    SkillView {
                        name,
                        description,
                        directory: match paths::stripped(directory, root) {
                            Some(rest) => rest,
                            None => directory,
                        },
                    },
                )
            },
        }
    }
}

/// The names of the directories that are looked through.
pub open spec fn kept_names(entries: Seq<SkillEntry>) -> Seq<Seq<char>>
    decreases entries.len(),
{
    if entries.len() == 0 {
        Seq::empty()
    } else {
        let before = kept_names(entries.drop_last());
        let e = entries.last();
        if e.kind is Directory && !is_ignored_name(e.name@) {
            before.push(e.name@)
        } else {
            before
        }
    }
}

/// The entry with the greatest name among those of which nothing could be found out.
pub open spec fn failed_entry(entries: Seq<SkillEntry>) -> Option<int>
    decreases entries.len(),
{
    if entries.len() == 0 {
        None
    } else {
        let before = failed_entry(entries.drop_last());
        let e = entries.last();
        if !(e.kind is Failed) {
            before
        } else {
            match before {
                None => Some(entries.len() - 1),
                Some(k) => if text::text_less(entries[k].name@, e.name@) {
                    Some(entries.len() - 1)
                } else {
                    Some(k)
                },
            }
        }
    }
}

/// The directories that come up next: the one with the least name first.
pub open spec fn upcoming(directory: Seq<char>, names: Seq<Seq<char>>) -> Seq<Seq<char>> {
    Seq::new(names.len(), |i: int| paths::joined(directory, names[names.len() - 1 - i]))
}

fn failing(entries: &[SkillEntry]) -> (r: Option<usize>)
    ensures
        match r {
            Some(k) => {
                &&& failed_entry(entries@) == Some(k as int)
                &&& k < entries@.len()
                &&& entries@[k as int].kind is Failed
            },
            None => failed_entry(entries@) is None,
        },
{
    let mut found: Option<usize> = None;
    let mut i: usize = 0;
    proof {
        assert(entries@.take(0) =~= Seq::empty());
    }
    while i < entries.len()
        invariant
            i <= entries@.len(),
            match found {
                Some(k) => {
                    &&& failed_entry(entries@.take(i as int)) == Some(k as int)
                    &&& k < i
                    &&& entries@[k as int].kind is Failed
                },
                None => failed_entry(entries@.take(i as int)) is None,
            },
        decreases entries@.len() - i,
    {
        let entry = &entries[i];
        proof {
            assert(entries@.take(i + 1).drop_last() =~= entries@.take(i as int));
            assert(entries@.take(i + 1).last() == *entry);
        }
        if let SkillEntryKind::Failed(_) = &entry.kind {
            let greater = match found {
                None => true,
                Some(k) => {
                    proof {
                        assert(entries@.take(i + 1)[k as int] == entries@[k as int]);
                    }
                    text::less(entries[k].name.as_str(), entry.name.as_str())
                },
            };
            if greater {
                found = Some(i);
            }
        }
        i += 1;
    }
    proof {
        assert(entries@.take(i as int) =~= entries@);
    }
    found
}

impl SkillWalk {
    /// Starts at the root; `resolved` is the root without links and whether it is a
    /// directory.
    pub fn new(
        root: &str,
        max_skill_bytes: usize,
        resolved: core::result::Result<(String, bool), String>,
    ) -> (r: model::Result<Self>)
        ensures
            if max_skill_bytes == 0 {
                r is Err && r->Err_0@ == model::ErrorView::Plugin(
                    "skill size limit must be non-zero"@,
                )
            } else {
                match resolved {
                    Err(e) => r is Err && r->Err_0@ == model::ErrorView::Plugin(
                        "could not resolve skill root "@ + root@ + ": "@ + e@,
                    ),
                    Ok((path, false)) => r is Err && r->Err_0@ == model::ErrorView::Plugin(
                        "skill root is not a directory: "@ + path@,
                    ),
                    Ok((path, true)) => {
                        &&& r is Ok
                        &&& r->Ok_0.root == path
                        &&& r->Ok_0.max_skill_bytes == max_skill_bytes
                        &&& text::texts(r->Ok_0.pending@) == seq![path@]
                        &&& r->Ok_0.visited == 0
                        &&& r->Ok_0.skills@.len() == 0
                    },
                }
            },
    {
        if max_skill_bytes == 0 {
            return Err(Error::Plugin(text::owned("skill size limit must be non-zero")));
        }
        let (path, directory) = match resolved {
            Ok(p) => p,
            Err(e) => {
                return Err(
                    Error::Plugin(
                        text::cat4("could not resolve skill root ", root, ": ", e.as_str()),
                    ),
                );
            },
        };
        if !directory {
            return Err(
                Error::Plugin(text::cat2("skill root is not a directory: ", path.as_str())),
            );
        }
        let mut pending = text::no_texts();
        text::push_text(&mut pending, path.as_str());
        proof {
            assert(text::texts(pending@) =~= seq![path@]);
        }
        Ok(SkillWalk { root: path, max_skill_bytes, pending, visited: 0, skills: Vec::new() })
    }

    /// The directory that is looked at next.
    pub fn next(&mut self) -> (r: model::Result<Option<String>>)
        requires
            old(self).visited <= MAX_SKILL_DIRECTORIES,
        ensures
            final(self).root == old(self).root,
            final(self).max_skill_bytes == old(self).max_skill_bytes,
            final(self).skills == old(self).skills,
            if old(self).pending@.len() == 0 {
                &&& r == Ok::<Option<String>, Error>(None)
                &&& final(self).pending@ == old(self).pending@
                &&& final(self).visited == old(self).visited
            } else {
                &&& final(self).pending@ == old(self).pending@.drop_last()
                &&& final(self).visited == old(self).visited + 1
                &&& if old(self).visited >= MAX_SKILL_DIRECTORIES {
                    r is Err && r->Err_0@ == model::ErrorView::Plugin(
                        "skill directory limit exceeded"@,
                    )
                } else {
                    r == Ok::<Option<String>, Error>(Some(old(self).pending@.last()))
                }
            },
    {
        match self.pending.pop() {
            None => Ok(None),
            Some(directory) => {
                self.visited = self.visited + 1;
                if self.visited > MAX_SKILL_DIRECTORIES {
                    return Err(Error::Plugin(text::owned("skill directory limit exceeded")));
                }
                Ok(Some(directory))
            },
        }
    }

    /// Takes up the skill in a directory, with what was read of its file.
    pub fn found(
        &mut self,
        directory: &str,
        head: (String, String),
    ) -> (r: model::Result<()>)
        ensures
            final(self).root == old(self).root,
            final(self).max_skill_bytes == old(self).max_skill_bytes,
            final(self).pending == old(self).pending,
            final(self).visited == old(self).visited,
            match skill_in(
                old(self).root@,
                directory@,
                skill_views(old(self).skills@),
                (head.0@, head.1@),
            ) {
                Ok(skill) => {
                    &&& r is Ok
                    &&& skill_views(final(self).skills@) == with_skill(
                        skill_views(old(self).skills@),
                        skill,
                    )
                },
                Err(m) => {
                    &&& r is Err && r->Err_0@ == model::ErrorView::Plugin(m)
                    &&& final(self).skills == old(self).skills
                },
            },
    {
        let (name, description) = head;
        match validate_name(name.as_str()) {
            Ok(_) => {},
            Err(e) => {
                return Err(e);
            },
        }
        match validate_description(description.as_str()) {
            Ok(_) => {},
            Err(e) => {
                return Err(e);
            },
        }
        let expected = match paths::file_name(directory) {
            Some(n) => n,
            None => {
                return Err(Error::Plugin(text::cat2("invalid skill directory ", directory)));
            },
        };
        if !text::same_text(expected.as_str(), name.as_str()) {
            let given = text::quote(name.as_str());
            let wanted = text::quote(expected.as_str());
            return Err(
                Error::Plugin(
                    text::cat4(
                        "skill name ",
                        given.as_str(),
                        " must match directory ",
                        wanted.as_str(),
                    ),
                ),
            );
        }
        let known = find_skill(self.skills.as_slice(), name.as_str());
        proof {
            let list = skill_views(self.skills@);
            lemma_skill_at(list, name@, 0);
            if let Some(k) = known {
                assert(list[k as int].name == name@);
            }
        }
        if known.is_some() {
            let shown = text::quote(name.as_str());
            return Err(Error::Plugin(text::cat2("duplicate skill name ", shown.as_str())));
        }
        let place = match paths::strip_prefix(directory, self.root.as_str()) {
            Some(rest) => rest,
            None => text::owned(directory),
        };
        insert_skill(&mut self.skills, SkillMetadata { name, description, directory: place });
        Ok(())
    }

    /// Takes in the entries of a directory that holds no skill.
    pub fn listed(
        &mut self,
        directory: &str,
        entries: core::result::Result<Vec<SkillEntry>, String>,
    ) -> (r: model::Result<()>)
        ensures
            final(self).root == old(self).root,
            final(self).max_skill_bytes == old(self).max_skill_bytes,
            final(self).visited == old(self).visited,
            final(self).skills == old(self).skills,
            match entries {
                Err(e) => {
                    &&& r is Err && r->Err_0@ == model::ErrorView::Plugin(
                        "could not list "@ + directory@ + ": "@ + e@,
                    )
                    &&& final(self).pending == old(self).pending
                },
                Ok(list) => match failed_entry(list@) {
                    Some(k) => {
                        &&& r is Err && r->Err_0@ == model::ErrorView::Plugin(
                            "could not inspect "@ + paths::joined(directory@, list@[k].name@)
                                + ": "@ + list@[k].kind->Failed_0@,
                        )
                        &&& final(self).pending == old(self).pending
                    },
                    None => {
                        &&& r is Ok
                        &&& text::texts(final(self).pending@) == text::texts(old(self).pending@)
                            + upcoming(directory@, text::sorted(kept_names(list@)))
                    },
                },
            },
    {
        let list = match entries {
            Ok(l) => l,
            Err(e) => {
                return Err(
                    Error::Plugin(text::cat4("could not list ", directory, ": ", e.as_str())),
                );
            },
        };
        if let Some(k) = failing(list.as_slice()) {
            let path = paths::join(directory, list[k].name.as_str());
            if let SkillEntryKind::Failed(e) = &list[k].kind {
                return Err(
                    Error::Plugin(
                        text::cat4("could not inspect ", path.as_str(), ": ", e.as_str()),
                    ),
                );
            }
        }
        let mut names = text::no_texts();
        let mut i: usize = 0;
        proof {
            assert(list@.take(0) =~= Seq::empty());
        }
        while i < list.len()
            invariant
                i <= list@.len(),
                text::texts(names@) == kept_names(list@.take(i as int)),
            decreases list@.len() - i,
        {
            proof {
                assert(list@.take(i + 1).drop_last() =~= list@.take(i as int));
                assert(list@.take(i + 1).last() == list@[i as int]);
            }
            if let SkillEntryKind::Directory = &list[i].kind {
                if !is_ignored(list[i].name.as_str()) {
                    text::push_text(&mut names, list[i].name.as_str());
                }
            }
            i += 1;
        }
        proof {
            assert(list@.take(i as int) =~= list@);
        }
        let sorted = text::sort(names.as_slice());
        let ghost s = text::texts(sorted@);
        let ghost before = text::texts(self.pending@);
        let ghost after = upcoming(directory@, s);
        let mut n: usize = sorted.len();
        proof {
            assert(before + after.take(0) =~= before);
        }
        while n > 0
            invariant
                n <= sorted@.len(),
                s == text::texts(sorted@),
                after == upcoming(directory@, s),
                text::texts(self.pending@) == before + after.take(sorted@.len() - n),
                self.root == old(self).root,
                self.max_skill_bytes == old(self).max_skill_bytes,
                self.visited == old(self).visited,
                self.skills == old(self).skills,
            decreases n,
        {
            n -= 1;
            let path = paths::join(directory, sorted[n].as_str());
            text::push_text(&mut self.pending, path.as_str());
            proof {
                let k = sorted@.len() - n;
                assert(after[k - 1] == path@);
                assert(before + after.take(k) =~= (before + after.take(k - 1)).push(path@));
            }
        }
        proof {
            assert(after.take(sorted@.len() as int) =~= after);
        }
        Ok(())
    }

    /// The catalog of what was found.
    pub fn finish(self) -> (r: SkillCatalog)
        ensures
            r.root == self.root,
            r.max_skill_bytes == self.max_skill_bytes,
            r.skills == self.skills,
    {
        SkillCatalog {
            root: self.root,
            max_skill_bytes: self.max_skill_bytes,
            skills: self.skills,
        }
    }
}

// ---------------------------------------------------------------------------
// Loading a skill
// ---------------------------------------------------------------------------

impl SkillCatalog {
    /// Where the file of a skill is.
    pub fn locate(&self, name: &str) -> (r: model::Result<String>)
        ensures
            match skill_at(skill_views(self.skills@), name@, 0) {
                Some(i) => r is Ok && r->Ok_0@ == paths::joined(
                    paths::joined(self.root@, skill_views(self.skills@)[i].directory),
                    "SKILL.md"@,
                ),
                None => r is Err && r->Err_0@ == model::ErrorView::Tool(
                    "skill "@ + text::quoted(name@) + " was not found"@,
                ),
            },
    {
        match find_skill(self.skills.as_slice(), name) {
            Some(i) => {
                let directory = paths::join(self.root.as_str(), self.skills[i].directory.as_str());
                Ok(paths::join(directory.as_str(), "SKILL.md"))
            },
            None => {
                let shown = text::quote(name);
                Err(Error::Tool(text::cat3("skill ", shown.as_str(), " was not found")))
            },
        }
    }

    /// Whether the file of a skill can be read.
    pub fn inspect(
        &self,
        name: &str,
        path: &str,
        probe: core::result::Result<FileFacts, String>,
    ) -> (r: model::Result<()>)
        ensures
            match probe {
                Err(e) => r is Err && r->Err_0@ == model::ErrorView::Plugin(
                    "could not inspect "@ + path@ + ": "@ + e@,
                ),
                Ok(facts) => if facts.symlink || !facts.file {
                    r is Err && r->Err_0@ == model::ErrorView::Plugin(
                        "skill file must be a regular non-symlink file: "@ + path@,
                    )
                } else if facts.length > self.max_skill_bytes {
                    r is Err && r->Err_0@ == model::ErrorView::Plugin(
                        "skill "@ + text::quoted(name@) + " exceeds the size limit"@,
                    )
                } else {
                    r is Ok
                },
            },
    {
        match probe {
            Err(e) => Err(
                Error::Plugin(text::cat4("could not inspect ", path, ": ", e.as_str())),
            ),
            Ok(facts) => {
                if facts.symlink || !facts.file {
                    return Err(
                        Error::Plugin(
                            text::cat2("skill file must be a regular non-symlink file: ", path),
                        ),
                    );
                }
                if facts.length > self.max_skill_bytes as u64 {
                    let shown = text::quote(name);
                    return Err(
                        Error::Plugin(
                            text::cat3("skill ", shown.as_str(), " exceeds the size limit"),
                        ),
                    );
                }
                Ok(())
            },
        }
    }

    /// Whether the file of a skill stays in the catalog; `resolved` is its path
    /// without links.
    pub fn check_inside(
        &self,
        name: &str,
        path: &str,
        resolved: core::result::Result<String, String>,
    ) -> (r: model::Result<String>)
        ensures
            match resolved {
                Err(e) => r is Err && r->Err_0@ == model::ErrorView::Plugin(
                    "could not resolve "@ + path@ + ": "@ + e@,
                ),
                Ok(p) => if paths::is_under(p@, self.root@) {
                    r == Ok::<String, Error>(p)
                } else {
                    r is Err && r->Err_0@ == model::ErrorView::Plugin(
                        "skill "@ + text::quoted(name@) + " escapes the catalog root"@,
                    )
                },
            },
    {
        match resolved {
            Err(e) => Err(
                Error::Plugin(text::cat4("could not resolve ", path, ": ", e.as_str())),
            ),
            Ok(p) => {
                if !paths::under(p.as_str(), self.root.as_str()) {
                    let shown = text::quote(name);
                    return Err(
                        Error::Plugin(
                            text::cat3("skill ", shown.as_str(), " escapes the catalog root"),
                        ),
                    );
                }
                Ok(p)
            },
        }
    }

    /// Takes what was read of a skill, no more than one byte above the limit.
    pub fn accept(
        &self,
        name: &str,
        path: &str,
        read: core::result::Result<Vec<u8>, String>,
    ) -> (r: model::Result<String>)
        ensures
            match read {
                Err(e) => r is Err && r->Err_0@ == model::ErrorView::Plugin(
                    "could not read "@ + path@ + ": "@ + e@,
                ),
                Ok(bytes) => if bytes@.len() > self.max_skill_bytes {
                    r is Err && r->Err_0@ == model::ErrorView::Plugin(
                        "skill "@ + text::quoted(name@) + " exceeds the size limit"@,
                    )
                } else if vstd::utf8::valid_utf8(bytes@) {
                    r is Ok && vstd::utf8::encode_utf8(r->Ok_0@) == bytes@
                } else {
                    r is Err && r->Err_0@ == model::ErrorView::Plugin(
                        "skill "@ + text::quoted(name@) + " is not UTF-8: "@ + text::utf8_complaint(
                            bytes@,
                        ),
                    )
                },
            },
    {
        let bytes = match read {
            Ok(b) => b,
            Err(e) => {
                return Err(Error::Plugin(text::cat4("could not read ", path, ": ", e.as_str())));
            },
        };
        let shown = text::quote(name);
        if bytes.len() > self.max_skill_bytes {
            return Err(
                Error::Plugin(text::cat3("skill ", shown.as_str(), " exceeds the size limit")),
            );
        }
        match text::utf8_text(bytes) {
            Ok(content) => Ok(content),
            Err(e) => Err(
                Error::Plugin(text::cat4("skill ", shown.as_str(), " is not UTF-8: ", e.as_str())),
            ),
        }
    }
}

// ---------------------------------------------------------------------------
// Selecting skills
// ---------------------------------------------------------------------------

/// What the tool is asked for.
#[derive(Clone, Debug, PartialEq, Eq)]
pub enum SkillsInput {
    List,
    Select { name: String },
    Clear,
}

/// What the tool answers.
pub struct SkillsResponse {
    pub skills: Vec<SkillMetadata>,
    pub selected: Vec<String>,
}

/// The skills and what the sessions selected.
pub struct SkillsState {
    pub catalog: SkillCatalog,
    pub selected: Vec<(SessionId, Vec<String>)>,
}

pub open spec fn selections(list: Seq<(SessionId, Vec<String>)>) -> Seq<
    (SessionId, Seq<Seq<char>>),
> {
    Seq::new(list.len(), |i: int| (list[i].0, text::texts(list[i].1@)))
}

/// What a session selected.
pub open spec fn selection_of(
    list: Seq<(SessionId, Seq<Seq<char>>)>,
    session: SessionId,
) -> Seq<Seq<char>>
    decreases list.len(),
{
    if list.len() == 0 {
        Seq::empty()
    } else if list[0].0 == session {
        list[0].1
    } else {
        selection_of(list.drop_first(), session)
    }
}

/// The selections after one session's was changed.
pub open spec fn with_selection(
    list: Seq<(SessionId, Seq<Seq<char>>)>,
    session: SessionId,
    names: Seq<Seq<char>>,
) -> Seq<(SessionId, Seq<Seq<char>>)>
    decreases list.len(),
{
    if list.len() == 0 {
        seq![(session, names)]
    } else if list[0].0 == session {
        seq![(session, names)] + list.drop_first()
    } else {
        seq![list[0]] + with_selection(list.drop_first(), session, names)
    }
}

/// A selection with another name.
pub open spec fn with_name(names: Seq<Seq<char>>, name: Seq<char>) -> Seq<Seq<char>> {
    if names.contains(name) {
        names
    } else {
        text::inserted(names, name)
    }
}

/// What a session has selected after a request, or nothing where the request names
/// no skill.
pub open spec fn chosen(
    skills: Seq<SkillView>,
    before: Seq<Seq<char>>,
    input: SkillsInput,
) -> Option<Seq<Seq<char>>> {
    match input {
        SkillsInput::List => Some(before),
        SkillsInput::Select { name } => if has_skill(skills, name@) {
            Some(with_name(before, name@))
        } else {
            None
        },
        SkillsInput::Clear => Some(Seq::empty()),
    }
}

/// What one session selects is its own affair: the others keep theirs.
pub proof fn law_sessions_select_for_themselves(
    list: Seq<(SessionId, Seq<Seq<char>>)>,
    session: SessionId,
    names: Seq<Seq<char>>,
    other: SessionId,
)
    ensures
        selection_of(with_selection(list, session, names), other) == (if other == session {
            names
        } else {
            selection_of(list, other)
        }),
    decreases list.len(),
{
    let more = with_selection(list, session, names);
    if list.len() == 0 {
        assert(more.drop_first() =~= list);
    } else if list[0].0 == session {
        assert(more.drop_first() =~= list.drop_first());
    } else {
        law_sessions_select_for_themselves(list.drop_first(), session, names, other);
        assert(more.drop_first() =~= with_selection(list.drop_first(), session, names));
    }
}

proof fn lemma_with_selection(
    list: Seq<(SessionId, Seq<Seq<char>>)>,
    session: SessionId,
    names: Seq<Seq<char>>,
    k: int,
)
    requires
        0 <= k <= list.len(),
        forall|j: int| 0 <= j < k ==> (#[trigger] list[j]).0 != session,
        k < list.len() ==> list[k].0 == session,
    ensures
        with_selection(list, session, names) == (if k < list.len() {
            list.update(k, (session, names))
        } else {
            list.push((session, names))
        }),
        selection_of(list, session) == (if k < list.len() {
            list[k].1
        } else {
            Seq::empty()
        }),
    decreases list.len(),
{
    if list.len() == 0 {
        assert(list.push((session, names)) =~= seq![(session, names)]);
    } else if k == 0 {
        assert(seq![(session, names)] + list.drop_first() =~= list.update(0, (session, names)));
    } else {
        let rest = list.drop_first();
        assert forall|j: int| 0 <= j < k - 1 implies (#[trigger] rest[j]).0 != session by {
            assert(rest[j] == list[j + 1]);
        }
        lemma_with_selection(rest, session, names, k - 1);
        assert(list[0].0 != session);
        if k < list.len() {
            assert(seq![list[0]] + rest.update(k - 1, (session, names)) =~= list.update(
                k,
                (session, names),
            ));
        } else {
            assert(seq![list[0]] + rest.push((session, names)) =~= list.push((session, names)));
        }
    }
}

fn clone_skill(skill: &SkillMetadata) -> (r: SkillMetadata)
    ensures
        r@ == skill@,
{
    SkillMetadata {
        name: text::owned(skill.name.as_str()),
        description: text::owned(skill.description.as_str()),
        directory: text::owned(skill.directory.as_str()),
    }
}

fn clone_skills(list: &[SkillMetadata]) -> (r: Vec<SkillMetadata>)
    ensures
        skill_views(r@) == skill_views(list@),
{
    let mut r: Vec<SkillMetadata> = Vec::new();
    let mut i: usize = 0;
    while i < list.len()
        invariant
            i <= list@.len(),
            skill_views(r@) =~= skill_views(list@).take(i as int),
        decreases list@.len() - i,
    {
        let ghost before = skill_views(r@);
        let skill = clone_skill(&list[i]);
        let ghost view = skill@;
        r.push(skill);
        proof {
            assert(skill_views(r@) =~= before.push(view));
        }
        i += 1;
    }
    r
}

/// Makes the plugin's state from a catalog.
pub fn skills_plugin(catalog: SkillCatalog) -> (r: SkillsState)
    ensures
        r.catalog == catalog,
        r.selected@.len() == 0,
{
    SkillsState { catalog, selected: Vec::new() }
}

/// How the tool is described to a provider.
pub open spec fn input_schema() -> json::JsonView {
    json::JsonView::Object(
        seq![
            ("type"@, json::JsonView::Text("object"@)),
            ("additionalProperties"@, json::JsonView::Bool(false)),
            ("required"@, json::texts_view(seq!["action"@])),
            (
                "properties"@,
                json::JsonView::Object(
                    seq![
                        (
                            "action"@,
                            json::JsonView::Object(
                                seq![
                                    ("type"@, json::JsonView::Text("string"@)),
                                    (
                                        "enum"@,
                                        json::texts_view(seq!["list"@, "select"@, "clear"@]),
                                    ),
                                ],
                            ),
                        ),
                        (
                            "name"@,
                            json::JsonView::Object(
                                seq![
                                    ("type"@, json::JsonView::Text("string"@)),
                                    (
                                        "minLength"@,
                                        json::JsonView::Number(json::NumberView::Unsigned(1)),
                                    ),
                                ],
                            ),
                        ),
                    ],
                ),
            ),
        ],
    )
}

impl SkillsState {
    fn place(&self, session: SessionId) -> (k: usize)
        ensures
            k <= self.selected@.len(),
            forall|j: int|
                0 <= j < k ==> (#[trigger] selections(self.selected@)[j]).0 != session,
            k < self.selected@.len() ==> selections(self.selected@)[k as int].0 == session,
    {
        let mut k: usize = 0;
        while k < self.selected.len() && self.selected[k].0 != session
            invariant
                k <= self.selected@.len(),
                forall|j: int|
                    0 <= j < k ==> (#[trigger] selections(self.selected@)[j]).0 != session,
            decreases self.selected@.len() - k,
        {
            k += 1;
        }
        k
    }

    /// What a session selected.
    pub fn selected_by(&self, session: SessionId) -> (r: Vec<String>)
        ensures
            text::texts(r@) == selection_of(selections(self.selected@), session),
    {
        let k: usize = self.place(session);
        proof {
            lemma_with_selection(selections(self.selected@), session, Seq::empty(), k as int);
        }
        if k < self.selected.len() {
            text::clone_texts(self.selected[k].1.as_slice())
        } else {
            text::no_texts()
        }
    }

    /// Answers a request of a session.
    pub fn apply(&mut self, session: SessionId, input: SkillsInput) -> (r: model::Result<
        SkillsResponse,
    >)
        ensures
            final(self).catalog == old(self).catalog,
            ({
                let before = selections(old(self).selected@);
                match chosen(
                    skill_views(old(self).catalog.skills@),
                    selection_of(before, session),
                    input,
                ) {
                    Some(names) => {
                        &&& r is Ok
                        &&& skill_views(r->Ok_0.skills@) == skill_views(old(self).catalog.skills@)
                        &&& text::texts(r->Ok_0.selected@) == names
                        &&& selections(final(self).selected@) == with_selection(
                            before,
                            session,
                            names,
                        )
                    },
                    None => {
                        &&& r is Err && r->Err_0@ == model::ErrorView::Tool(
                            "skill "@ + text::quoted(input->Select_name@) + " was not found"@,
                        )
                        &&& *final(self) == *old(self)
                    },
                }
            }),
    {
        let mut names = self.selected_by(session);
        match input {
            SkillsInput::List => {},
            SkillsInput::Select { name } => {
                let known = find_skill(self.catalog.skills.as_slice(), name.as_str());
                proof {
                    let list = skill_views(self.catalog.skills@);
                    lemma_skill_at(list, name@, 0);
                    if let Some(k) = known {
                        assert(list[k as int].name == name@);
                    }
                }
                if known.is_none() {
                    let shown = text::quote(name.as_str());
                    return Err(
                        Error::Tool(text::cat3("skill ", shown.as_str(), " was not found")),
                    );
                }
                if !text::contains_text(names.as_slice(), name.as_str()) {
                    text::insert_text(&mut names, name.as_str());
                }
            },
            SkillsInput::Clear => {
                names = text::no_texts();
            },
        }
        let ghost chosen_names = text::texts(names@);
        let ghost before = selections(self.selected@);
        let shown = text::clone_texts(names.as_slice());
        let k: usize = self.place(session);
        proof {
            lemma_with_selection(before, session, chosen_names, k as int);
        }
        if k < self.selected.len() {
            self.selected.set(k, (session, names));
            proof {
                assert(selections(self.selected@) =~= before.update(
                    k as int,
                    (session, chosen_names),
                ));
            }
        } else {
            self.selected.push((session, names));
            proof {
                assert(selections(self.selected@) =~= before.push((session, chosen_names)));
            }
        }
        Ok(
            SkillsResponse {
                skills: clone_skills(self.catalog.skills.as_slice()),
                selected: shown,
            },
        )
    }

    /// What a selected skill contributes to a conversation.
    pub fn contribution(&self, name: &str, content: &str) -> (r: ContextPart)
        ensures
            r.priority == ContextPriority::High,
            r.source@ == PLUGIN_ID@,
            r.content@ == "Selected skill "@ + name@ + ":\n"@ + content@,
    {
        ContextPart {
            priority: ContextPriority::High,
            source: text::owned(PLUGIN_ID),
            content: text::cat4("Selected skill ", name, ":\n", content),
        }
    }

    /// How the tool is described to a provider.
    pub fn definition(&self) -> (r: ToolDefinition)
        ensures
            r.name@ == TOOL_NAME@,
            r.description@ == "List, select, or clear skills for this session."@,
            r.schema@ == input_schema(),
            r.freeform is None,
    {
        let action = ObjectBuilder::new().with("type", Json::text("string")).with(
            "enum",
            json::text_array(&["list", "select", "clear"]),
        );
        let name = ObjectBuilder::new().with("type", Json::text("string")).with(
            "minLength",
            Json::Number(json::JsonNumber::Unsigned(1)),
        );
        let ghost a = action@;
        let ghost n = name@;
        let properties = ObjectBuilder::new().with("action", action.done()).with(
            "name",
            name.done(),
        );
        let ghost p = properties@;
        let fields = ObjectBuilder::new().with("type", Json::text("object")).with(
            "additionalProperties",
            Json::Bool(false),
        ).with("required", json::text_array(&["action"])).with("properties", properties.done());
        proof {
            let wanted = input_schema()->Object_0;
            let shown = wanted[3].1->Object_0;
            assert(a[1].1->Array_0 =~= shown[0].1->Object_0[1].1->Array_0);
            assert(a =~= shown[0].1->Object_0);
            assert(n =~= shown[1].1->Object_0);
            assert(p =~= shown);
            assert(wanted[2].1->Array_0 =~= fields@[2].1->Array_0);
            assert(fields@ =~= wanted);
        }
        ToolDefinition {
            name: text::owned(TOOL_NAME),
            description: text::owned("List, select, or clear skills for this session."),
            schema: fields.done(),
            freeform: None,
        }
    }
}

/// What the plugin registers, in this order.
pub open spec fn registered() -> Seq<RegistrationView> {
    seq![
        (RegistrationKind::Tool, TOOL_ID@, 0int),
        (RegistrationKind::ContextContribution, HOOK_ID@, 0int),
    ]
}

impl SkillsState {
    /// What the plugin registers, in this order.
    pub fn registrations(&self) -> (r: Vec<Registration>)
        ensures
            registration::registration_views(r@) == registered(),
    {
        let mut list: Vec<Registration> = Vec::new();
        proof {
            assert(registration::registration_views(list@) =~= Seq::empty());
        }
        registration::register(&mut list, RegistrationKind::Tool, TOOL_ID, 0);
        registration::register(&mut list, RegistrationKind::ContextContribution, HOOK_ID, 0);
        proof {
            assert(registration::registration_views(list@) =~= registered());
        }
        list
    }
}

/// A value stands behind its key: blanks around it do not belong to it.
pub proof fn law_values_stand_behind_their_key(s: Seq<char>)
    requires
        s.len() > 0,
        !text::is_whitespace(s[0]) && !text::is_whitespace(s.last()),
        s[0] != '"' && s.last() != '"',
        s[0] != '\'' && s.last() != '\'',
    ensures
        unquoted(seq![' '] + s) == s,
        unquoted(s) == s,
{
    text::law_blanks_are_trimmed(seq![' '], s, Seq::empty());
    text::law_blanks_are_trimmed(Seq::empty(), s, Seq::empty());
    assert(seq![' '] + s + Seq::<char>::empty() =~= seq![' '] + s);
    assert(Seq::<char>::empty() + s + Seq::<char>::empty() =~= s);
}

/// The name and the description of a skill stand at the head of its file, between two
/// lines of dashes, each behind its key.
pub proof fn law_heads_are_read(
    path: Seq<char>,
    name: Seq<char>,
    description: Seq<char>,
    body: Seq<Seq<char>>,
)
    requires
        name.len() > 0 && description.len() > 0,
        !text::is_whitespace(name[0]) && !text::is_whitespace(name.last()),
        name[0] != '"' && name.last() != '"' && name[0] != '\'' && name.last() != '\'',
        !text::is_whitespace(description[0]) && !text::is_whitespace(description.last()),
        description[0] != '"' && description.last() != '"' && description[0] != '\''
            && description.last() != '\'',
        text::are_lines(
            seq![
                "---\n"@,
                "name: "@ + name + seq!['\n'],
                "description: "@ + description + seq!['\n'],
                "---\n"@,
            ] + body,
        ),
    ensures
        head_of(
            path,
            text::concat_all(
                seq![
                    "---\n"@,
                    "name: "@ + name + seq!['\n'],
                    "description: "@ + description + seq!['\n'],
                    "---\n"@,
                ] + body,
            ),
        ) == Ok::<(Seq<char>, Seq<char>), Seq<char>>((name, description)),
{
    let head = seq![
        "---\n"@,
        "name: "@ + name + seq!['\n'],
        "description: "@ + description + seq!['\n'],
        "---\n"@,
    ];
    let all = head + body;
    text::law_lines_are_told_apart(all);
    let content = text::concat_all(all);
    let lines = text::lines_of(content);
    reveal_strlit("---\n");
    reveal_strlit("---");
    reveal_strlit("name: ");
    reveal_strlit("description: ");
    reveal_strlit("name");
    reveal_strlit("description");
    let first = "name: "@ + name;
    let second = "description: "@ + description;
    text::law_line_endings_are_taken_off("---"@);
    text::law_line_endings_are_taken_off(first);
    text::law_line_endings_are_taken_off(second);
    assert(all[0] =~= "---"@.push('\n'));
    assert(all[1] =~= first.push('\n'));
    assert(all[2] =~= second.push('\n'));
    assert(all[3] =~= "---"@.push('\n'));
    assert(first.last() == name.last() && second.last() == description.last());
    assert(text::is_whitespace('\r'));
    assert(lines[0] == "---"@ && lines[1] == first && lines[2] == second && lines[3] == "---"@);
    assert(!"name"@.contains(':')) by {
        if "name"@.contains(':') {
            let k = "name"@.index_of(':');
            assert("name"@[k] == ':');
        }
    }
    assert(!"description"@.contains(':')) by {
        if "description"@.contains(':') {
            let k = "description"@.index_of(':');
            assert("description"@[k] == ':');
        }
    }
    text::law_texts_are_cut_at_separators("name"@, ':', seq![' '] + name);
    text::law_texts_are_cut_at_separators("description"@, ':', seq![' '] + description);
    assert(first =~= "name"@ + seq![':'] + (seq![' '] + name));
    assert(second =~= "description"@ + seq![':'] + (seq![' '] + description));
    law_values_stand_behind_their_key(name);
    law_values_stand_behind_their_key(description);
    text::law_blanks_are_trimmed(Seq::empty(), "name"@, Seq::empty());
    text::law_blanks_are_trimmed(Seq::empty(), "description"@, Seq::empty());
    assert(Seq::<char>::empty() + "name"@ + Seq::<char>::empty() =~= "name"@);
    assert(Seq::<char>::empty() + "description"@ + Seq::<char>::empty() =~= "description"@);
    assert("---"@[0] == '-' && first[0] == 'n' && second[0] == 'd');
    assert("name"@.len() == 4 && "description"@.len() == 11);
    assert(head_from(path, lines, 3, Some(name), Some(description)) == Ok::<
        (Option<Seq<char>>, Option<Seq<char>>),
        Seq<char>,
    >((Some(name), Some(description))));
    assert(head_from(path, lines, 2, Some(name), None) == Ok::<
        (Option<Seq<char>>, Option<Seq<char>>),
        Seq<char>,
    >((Some(name), Some(description))));
    assert(head_from(path, lines, 1, None, None) == Ok::<
        (Option<Seq<char>>, Option<Seq<char>>),
        Seq<char>,
    >((Some(name), Some(description))));
}

/// A skill has the name of its directory, is not known already, and keeps what its head
/// says.
pub proof fn law_skills_are_named_like_their_directory(
    root: Seq<char>,
    directory: Seq<char>,
    known: Seq<SkillView>,
    head: (Seq<char>, Seq<char>),
)
    ensures
        skill_in(root, directory, known, head) matches Ok(skill) ==> {
            &&& skill.name == head.0
            &&& skill.description == head.1
            &&& paths::last_name(directory) == Some(skill.name)
            &&& forall|i: int| 0 <= i < known.len() ==> (#[trigger] known[i]).name != skill.name
            &&& 0 < skill.name.len() && text::utf8_len(skill.name) <= 64
            &&& 0 < skill.description.len() && text::utf8_len(skill.description) <= 1024
        },
{
    text::law_lengths_are_counted_in_bytes(head.0, head.1);
}

/// Every directory is looked through but those that are passed over by their name.
pub proof fn law_directories_are_looked_through(entries: Seq<SkillEntry>, i: int)
    requires
        0 <= i < entries.len(),
    ensures
        entries[i].kind is Directory && entries[i].name@ != ".git"@ && entries[i].name@
            != "target"@ ==> kept_names(entries).contains(entries[i].name@),
        !kept_names(entries).contains(".git"@),
        !kept_names(entries).contains("target"@),
    decreases entries.len(),
{
    let front = entries.drop_last();
    let kept = kept_names(entries);
    let before = kept_names(front);
    if front.len() > 0 {
        law_directories_are_looked_through(front, 0);
    } else {
        assert(before =~= Seq::empty());
    }
    if i < front.len() {
        law_directories_are_looked_through(front, i);
        if before.contains(entries[i].name@) {
            let k = before.index_of(entries[i].name@);
            assert(kept[k] == entries[i].name@);
        }
    } else if entries[i].kind is Directory && !is_ignored_name(entries[i].name@) {
        assert(kept[kept.len() - 1] == entries[i].name@);
    }
    if kept.contains(".git"@) {
        let k = kept.index_of(".git"@);
        if k < before.len() {
            assert(before[k] == ".git"@);
        }
    }
    if kept.contains("target"@) {
        let k = kept.index_of("target"@);
        if k < before.len() {
            assert(before[k] == "target"@);
        }
    }
}

/// A known skill that is selected is selected besides those that were; one that is not
/// known is not. Clearing leaves none, and listing changes nothing.
pub proof fn law_selecting_adds_one_skill(
    skills: Seq<SkillView>,
    before: Seq<Seq<char>>,
    input: SkillsInput,
    other: Seq<char>,
)
    ensures
        input is List ==> chosen(skills, before, input) == Some(before),
        input is Clear ==> chosen(skills, before, input) == Some(Seq::<Seq<char>>::empty()),
        input matches SkillsInput::Select { name } ==> {
            &&& (exists|i: int| 0 <= i < skills.len() && (#[trigger] skills[i]).name == name@)
                <==> chosen(skills, before, input) is Some
            &&& chosen(skills, before, input) matches Some(names) ==> (names.contains(other) <==> (
            before.contains(other) || other == name@))
        },
{
    if let SkillsInput::Select { name } = input {
        lemma_inserted_name(before, name@, other);
    }
}

proof fn lemma_inserted_name(list: Seq<Seq<char>>, name: Seq<char>, other: Seq<char>)
    ensures
        text::inserted(list, name).contains(other) <==> list.contains(other) || other == name,
    decreases list.len(),
{
    let all = text::inserted(list, name);
    if list.len() == 0 || !text::text_less(name, list.last()) {
        if list.contains(other) {
            assert(all[list.index_of(other)] == other);
        }
        assert(all[list.len() as int] == name);
    } else {
        let front = list.drop_last();
        let some = text::inserted(front, name);
        lemma_inserted_name(front, name, other);
        if some.contains(other) {
            assert(all[some.index_of(other)] == other);
        }
        assert(all[some.len() as int] == list.last());
        if all.contains(other) {
            let k = all.index_of(other);
            if k < some.len() {
                assert(some[k] == other);
            } else {
                assert(list[list.len() - 1] == other);
            }
        }
        if front.contains(other) {
            assert(list[front.index_of(other)] == other);
        }
        if list.contains(other) {
            let k = list.index_of(other);
            if k < front.len() {
                assert(front[k] == other);
            }
        }
    }
}

/// Directories are looked through in the order of their names: the one that comes first is
/// taken first, which is from the end.
pub proof fn law_directories_are_taken_in_order(directory: Seq<char>, names: Seq<Seq<char>>, i: int)
    requires
        0 <= i < names.len(),
    ensures
        upcoming(directory, names).len() == names.len(),
        upcoming(directory, names)[names.len() - 1 - i] == paths::joined(directory, names[i]),
{
}

/// The name of a skill is made of small letters, digits and dashes, with no dash at either
/// end; its description is one line that says something.
pub proof fn law_names_and_descriptions_are_plain(name: Seq<char>, i: int, c: char)
    ensures
        is_name_char(c) <==> "abcdefghijklmnopqrstuvwxyz0123456789-"@.contains(c),
        is_skill_name(name) && 0 <= i < name.len()
            ==> "abcdefghijklmnopqrstuvwxyz0123456789-"@.contains(name[i]),
        is_skill_name(name) ==> 0 < name.len() <= 64 && name[0] != '-' && name.last() != '-',
        is_description(name) ==> !name.contains('\n') && !name.contains('\r') && !text::is_blank(
            name,
        ),
        !is_skill_name(Seq::empty()),
{
    lemma_name_char(c);
    if is_skill_name(name) {
        text::lemma_utf8_len_at_least(name);
        if 0 <= i < name.len() {
            lemma_name_char(name[i]);
        }
    }
}

proof fn lemma_name_char(c: char)
    ensures
        is_name_char(c) <==> "abcdefghijklmnopqrstuvwxyz0123456789-"@.contains(c),
{
    let all = "abcdefghijklmnopqrstuvwxyz0123456789-"@;
    reveal_strlit("abcdefghijklmnopqrstuvwxyz0123456789-");
    if 'a' <= c && c <= 'z' {
        assert(all[c as u32 as int - 97] == c);
    } else if '0' <= c && c <= '9' {
        assert(all[26 + c as u32 as int - 48] == c);
    } else if c == '-' {
        assert(all[36] == c);
    }
}

/// Of the entries that could not be looked at one is reported, if there is any.
pub proof fn law_failed_entries_are_reported(entries: Seq<SkillEntry>, i: int)
    ensures
        failed_entry(entries) matches Some(k) ==> 0 <= k < entries.len() && entries[k].kind is Failed,
        0 <= i < entries.len() && entries[i].kind is Failed ==> failed_entry(entries) is Some,
    decreases entries.len(),
{
    if entries.len() > 0 {
        law_failed_entries_are_reported(entries.drop_last(), i);
    }
}

} // verus!
