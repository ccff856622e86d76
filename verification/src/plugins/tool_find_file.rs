//! Finds files by a word in their name, by their name, or by a pattern for their path.
use crate::glob;
use crate::ids;
use crate::ids::{fresh, PluginId, ToolId};
use crate::json;
use crate::json::Json;
use crate::model;
use crate::model::{Error, NoteContent, ToolDefinition, ToolInput, ToolOutput};
use crate::paths;
use crate::text;
use crate::utils::note;
use vstd::prelude::*;
use vstd::slice::slice_subrange;

verus! {

pub const DESCRIPTION: &'static str = "Find files using exactly one query: a case-insensitive basename keyword, an exact basename, or a filesystem-relative glob pattern. `path` optionally limits the search root and `max_results` limits output.";

/// What is looked for.
#[derive(Clone, Debug, PartialEq, Eq)]
pub enum FindFileQuery {
    ByFilenameKeyword { keyword: String },
    ByFilenameExact { filename: String },
    ByGlobPattern { pattern: String },
}

/// A request to find files.
#[derive(Clone, Debug, PartialEq, Eq)]
pub struct FindFileInput {
    pub query: FindFileQuery,
    pub path: Option<String>,
    pub max_results: Option<usize>,
}

pub ghost enum QueryView {
    Keyword(Seq<char>),
    Exact(Seq<char>),
    Glob(Seq<char>),
}

impl View for FindFileQuery {
    type V = QueryView;

    open spec fn view(&self) -> QueryView {
        match *self {
            FindFileQuery::ByFilenameKeyword { keyword } => QueryView::Keyword(keyword@),
            FindFileQuery::ByFilenameExact { filename } => QueryView::Exact(filename@),
            FindFileQuery::ByGlobPattern { pattern } => QueryView::Glob(pattern@),
        }
    }
}

// ---------------------------------------------------------------------------
// Reading a request
// ---------------------------------------------------------------------------

/// The field that a query of some kind has besides its kind.
pub open spec fn query_field(kind: Seq<char>) -> Option<Seq<char>> {
    if kind == "by_filename_keyword"@ {
        Some("keyword"@)
    } else if kind == "by_filename_exact"@ {
        Some("filename"@)
    } else if kind == "by_glob_pattern"@ {
        Some("pattern"@)
    } else {
        None
    }
}

/// The first field of a query that its kind does not have.
pub open spec fn unexpected_field(
    fields: Seq<(Seq<char>, json::JsonView)>,
    allowed: Seq<char>,
) -> Option<Seq<char>>
    decreases fields.len(),
{
    if fields.len() == 0 {
        None
    } else if fields[0].0 != "kind"@ && fields[0].0 != allowed {
        Some(fields[0].0)
    } else {
        unexpected_field(fields.drop_first(), allowed)
    }
}

/// What is wrong with the shape of a request.
pub open spec fn shape_complaint(input: json::JsonView) -> Option<Seq<char>> {
    match json::field(input, "query"@) {
        Some(json::JsonView::Object(fields)) => match json::text_at(
            json::JsonView::Object(fields),
            "kind"@,
        ) {
            None => Some("query.kind must select exactly one query variant"@),
            Some(kind) => match query_field(kind) {
                None => Some("unknown query kind: "@ + kind),
                Some(allowed) => match unexpected_field(fields, allowed) {
                    Some(name) => Some(
                        "query variant "@ + kind + " cannot contain field `"@ + name + "`"@,
                    ),
                    None => None,
                },
            },
        },
        _ => Some("query must be an object"@),
    }
}

/// What is wrong with what is looked for.
pub open spec fn query_complaint(query: QueryView) -> Option<Seq<char>> {
    match query {
        QueryView::Keyword(k) => if k.len() == 0 {
            Some("keyword cannot be empty"@)
        } else {
            None
        },
        QueryView::Exact(f) => if f.len() == 0 {
            Some("filename cannot be empty"@)
        } else {
            None
        },
        QueryView::Glob(p) => if p.len() == 0 {
            Some("pattern cannot be empty"@)
        } else {
            None
        },
    }
}

fn find_unexpected(fields: &Vec<(String, Json)>, allowed: &str) -> (r: Option<String>)
    ensures
        text::opt_text(r) == unexpected_field(json::field_views(fields@), allowed@),
{
    let ghost all = json::field_views(fields@);
    let mut i: usize = 0;
    proof {
        assert(all.skip(0) =~= all);
    }
    while i < fields.len()
        invariant
            i <= fields@.len(),
            all == json::field_views(fields@),
            unexpected_field(all, allowed@) == unexpected_field(all.skip(i as int), allowed@),
        decreases fields@.len() - i,
    {
        let name = fields[i].0.as_str();
        proof {
            assert(all.skip(i as int)[0] == (fields@[i as int].0@, fields@[i as int].1@));
            assert(all.skip(i as int).drop_first() =~= all.skip(i + 1));
        }
        if !text::same_text(name, "kind") && !text::same_text(name, allowed) {
            return Some(text::owned(name));
        }
        i += 1;
    }
    None
}

fn check_shape(input: &Json) -> (r: Option<String>)
    ensures
        text::opt_text(r) == shape_complaint(input@),
{
    let query = match input.get("query") {
        Some(q) => q,
        None => return Some(text::owned("query must be an object")),
    };
    let fields = match query {
        Json::Object(fields) => fields,
        _ => return Some(text::owned("query must be an object")),
    };
    proof {
        assert(query@->Object_0 =~= json::field_views(fields@));
    }
    let kind = match query.get_str("kind") {
        Some(k) => k,
        None => return Some(text::owned("query.kind must select exactly one query variant")),
    };
    let allowed = if text::same_text(kind, "by_filename_keyword") {
        "keyword"
    } else if text::same_text(kind, "by_filename_exact") {
        "filename"
    } else if text::same_text(kind, "by_glob_pattern") {
        "pattern"
    } else {
        return Some(text::cat2("unknown query kind: ", kind));
    };
    match find_unexpected(fields, allowed) {
        Some(name) => Some(
            text::cat5("query variant ", kind, " cannot contain field `", name.as_str(), "`"),
        ),
        None => None,
    }
}

/// Checks a request. `parsed` is what reading it field by field gave.
pub fn parse_input(input: &Json, parsed: core::result::Result<FindFileInput, String>) -> (r:
    core::result::Result<FindFileInput, String>)
    ensures
        match shape_complaint(input@) {
            Some(m) => r is Err && r->Err_0@ == m,
            None => match parsed {
                Err(m) => r is Err && r->Err_0@ == m@,
                Ok(p) => match query_complaint(p.query@) {
                    Some(m) => r is Err && r->Err_0@ == m,
                    None => r is Ok && r->Ok_0 == p,
                },
            },
        },
{
    if let Some(m) = check_shape(input) {
        return Err(m);
    }
    let p = match parsed {
        Ok(p) => p,
        Err(m) => return Err(m),
    };
    match &p.query {
        FindFileQuery::ByFilenameKeyword { keyword } => {
            if keyword.as_str().is_empty() {
                return Err(text::owned("keyword cannot be empty"));
            }
        },
        FindFileQuery::ByFilenameExact { filename } => {
            if filename.as_str().is_empty() {
                return Err(text::owned("filename cannot be empty"));
            }
        },
        FindFileQuery::ByGlobPattern { pattern } => {
            if pattern.as_str().is_empty() {
                return Err(text::owned("pattern cannot be empty"));
            }
        },
    }
    Ok(p)
}

// ---------------------------------------------------------------------------
// Matching
// ---------------------------------------------------------------------------

/// `s` without each `./` that it starts with.
pub open spec fn undotted(s: Seq<char>) -> Seq<char>
    decreases s.len(),
{
    if text::starts_with(s, "./"@) && s.len() >= 2 {
        undotted(s.skip(2))
    } else {
        s
    }
}

/// A path as it is shown.
pub open spec fn shown_path(path: Seq<char>) -> Seq<char> {
    undotted(glob::slashed(path))
}

fn strip_dots(s: &str) -> (r: String)
    ensures
        r@ == undotted(s@),
{
    let cs = text::to_chars(s);
    let mut i: usize = 0;
    proof {
        reveal_strlit("./");
        assert(s@.skip(0) =~= s@);
    }
    while i < cs.len() && cs.len() - i >= 2 && cs[i] == '.' && cs[i + 1] == '/'
        invariant
            cs@ == s@,
            i <= cs@.len(),
            undotted(s@) == undotted(s@.skip(i as int)),
        decreases cs@.len() - i,
    {
        proof {
            reveal_strlit("./");
            let rest = s@.skip(i as int);
            assert(rest.subrange(0, 2) =~= "./"@);
            assert(rest.skip(2) =~= s@.skip(i + 2));
        }
        i += 2;
    }
    proof {
        let rest = s@.skip(i as int);
        if text::starts_with(rest, "./"@) && rest.len() >= 2 {
            assert(rest.subrange(0, 2)[0] == '.');
            assert(rest.subrange(0, 2)[1] == '/');
            assert(rest[0] == s@[i as int]);
            assert(rest[1] == s@[i + 1]);
        }
        assert(s@.skip(i as int) =~= cs@.subrange(i as int, cs@.len() as int));
    }
    text::from_chars(slice_subrange(cs.as_slice(), i, cs.len()))
}

/// A path as it is shown.
pub fn path_string(path: &str) -> (r: String)
    ensures
        r@ == shown_path(path@),
{
    strip_dots(glob::slash(path).as_str())
}

/// The name of a file.
pub open spec fn basename(path: Seq<char>) -> Seq<char> {
    match paths::last_name(path) {
        Some(n) => n,
        None => Seq::empty(),
    }
}

/// A path as seen from the root of the search.
pub open spec fn from_root(path: Seq<char>, root: Seq<char>) -> Seq<char> {
    let prefix = shown_path(root) + "/"@;
    if text::starts_with(path, prefix) {
        path.skip(prefix.len() as int)
    } else {
        path
    }
}

/// Whether a file is one that is looked for.
pub open spec fn is_match(path: Seq<char>, root: Seq<char>, query: QueryView) -> bool {
    match query {
        QueryView::Keyword(keyword) => text::has_text(
            text::lowercase(basename(path)),
            text::lowercase(keyword),
        ),
        QueryView::Exact(filename) => basename(path) == filename,
        QueryView::Glob(pattern) => {
            let plain = glob::slashed(path);
            glob::matches(pattern, plain) || glob::matches(pattern, from_root(plain, root))
        },
    }
}

fn relative_to(path: &str, root: &str) -> (r: String)
    ensures
        r@ == from_root(path@, root@),
{
    let prefix = text::cat2(path_string(root).as_str(), "/");
    if text::begins(path, prefix.as_str()) {
        let cs = text::to_chars(path);
        let head = text::to_chars(prefix.as_str());
        proof {
            assert(cs@.subrange(head@.len() as int, cs@.len() as int) =~= path@.skip(
                prefix@.len() as int,
            ));
        }
        text::from_chars(slice_subrange(cs.as_slice(), head.len(), cs.len()))
    } else {
        text::owned(path)
    }
}

/// Whether a file is one that is looked for.
pub fn matches_query(path: &str, root: &str, query: &FindFileQuery) -> (r: bool)
    ensures
        r == is_match(path@, root@, query@),
{
    let name = match paths::file_name(path) {
        Some(n) => n,
        None => String::new(),
    };
    match query {
        FindFileQuery::ByFilenameKeyword { keyword } => text::holds(
            text::to_lowercase(name.as_str()).as_str(),
            text::to_lowercase(keyword.as_str()).as_str(),
        ),
        FindFileQuery::ByFilenameExact { filename } => text::same_text(
            name.as_str(),
            filename.as_str(),
        ),
        FindFileQuery::ByGlobPattern { pattern } => {
            let plain = glob::slash(path);
            glob::glob_matches(pattern.as_str(), plain.as_str()) || glob::glob_matches(
                pattern.as_str(),
                relative_to(plain.as_str(), root).as_str(),
            )
        },
    }
}

// ---------------------------------------------------------------------------
// Walking
// ---------------------------------------------------------------------------

/// What an entry of a directory is.
#[derive(Clone, Copy, Debug, PartialEq, Eq, Structural)]
pub enum EntryKind {
    File,
    Directory,
}

/// An entry of a directory.
pub struct Entry {
    pub path: String,
    pub kind: EntryKind,
}

/// Whether a path leads through Git's own directory.
pub open spec fn is_git(path: Seq<char>) -> bool {
    paths::parts(path).contains(paths::PartView::Name(".git"@))
}

fn in_git(path: &str) -> (r: bool)
    ensures
        r == is_git(path@),
{
    let list = paths::components(path);
    let mut i: usize = 0;
    while i < list.len()
        invariant
            i <= list@.len(),
            paths::part_views(list@) == paths::parts(path@),
            forall|k: int|
                0 <= k < i ==> paths::parts(path@)[k] != paths::PartView::Name(".git"@),
        decreases list@.len() - i,
    {
        proof {
            assert(paths::parts(path@)[i as int] == list@[i as int]@);
        }
        if let paths::Part::Name(n) = &list[i] {
            if text::same_text(n.as_str(), ".git") {
                return true;
            }
        }
        i += 1;
    }
    false
}

/// A search through directories on its way.
pub struct Walk {
    /// What is still to be listed; the last one is next.
    pub directories: Vec<String>,
    pub files: Vec<String>,
}

/// The directories and files after an entry.
pub open spec fn after_entry(
    directories: Seq<Seq<char>>,
    files: Seq<Seq<char>>,
    entry: Entry,
) -> (Seq<Seq<char>>, Seq<Seq<char>>) {
    if is_git(entry.path@) {
        (directories, files)
    } else {
        match entry.kind {
            EntryKind::File => (directories, files.push(shown_path(entry.path@))),
            EntryKind::Directory => (directories.push(entry.path@), files),
        }
    }
}

/// The directories and files after entries.
pub open spec fn after_entries(
    directories: Seq<Seq<char>>,
    files: Seq<Seq<char>>,
    entries: Seq<Entry>,
) -> (Seq<Seq<char>>, Seq<Seq<char>>)
    decreases entries.len(),
{
    if entries.len() == 0 {
        (directories, files)
    } else {
        let before = after_entries(directories, files, entries.drop_last());
        after_entry(before.0, before.1, entries.last())
    }
}

impl Walk {
    /// Starts at a directory.
    pub fn new(root: &str) -> (r: Self)
        ensures
            text::texts(r.directories@) == seq![root@],
            text::texts(r.files@) == Seq::<Seq<char>>::empty(),
    {
        let mut directories = text::no_texts();
        text::push_text(&mut directories, root);
        proof {
            assert(text::texts(directories@) =~= seq![root@]);
        }
        Walk { directories, files: text::no_texts() }
    }

    /// The directory that is to be listed next.
    pub fn next(&mut self) -> (r: Option<String>)
        ensures
            final(self).files == old(self).files,
            match r {
                None => old(self).directories@.len() == 0 && final(self).directories@.len() == 0,
                Some(d) => {
                    &&& old(self).directories@.len() > 0
                    &&& d == old(self).directories@.last()
                    &&& final(self).directories@ == old(self).directories@.drop_last()
                },
            },
    {
        self.directories.pop()
    }

    /// Takes in the entries of a directory.
    pub fn listed(&mut self, entries: &[Entry])
        ensures
            (text::texts(final(self).directories@), text::texts(final(self).files@))
                == after_entries(
                text::texts(old(self).directories@),
                text::texts(old(self).files@),
                entries@,
            ),
    {
        let ghost d = text::texts(self.directories@);
        let ghost f = text::texts(self.files@);
        let mut i: usize = 0;
        proof {
            assert(entries@.take(0) =~= Seq::empty());
        }
        while i < entries.len()
            invariant
                i <= entries@.len(),
                (text::texts(self.directories@), text::texts(self.files@)) == after_entries(
                    d,
                    f,
                    entries@.take(i as int),
                ),
            decreases entries@.len() - i,
        {
            let entry = &entries[i];
            proof {
                assert(entries@.take(i + 1).drop_last() =~= entries@.take(i as int));
                assert(entries@.take(i + 1).last() == *entry);
            }
            if !in_git(entry.path.as_str()) {
                match entry.kind {
                    EntryKind::File => text::push_string(
                        &mut self.files,
                        path_string(entry.path.as_str()),
                    ),
                    EntryKind::Directory => text::push_text(
                        &mut self.directories,
                        entry.path.as_str(),
                    ),
                }
            }
            i += 1;
        }
        proof {
            assert(entries@.take(i as int) =~= entries@);
        }
    }
}

/// The files that are looked for, among sorted ones.
pub open spec fn chosen(files: Seq<Seq<char>>, root: Seq<char>, query: QueryView) -> Seq<Seq<char>>
    decreases files.len(),
{
    if files.len() == 0 {
        Seq::empty()
    } else {
        let earlier = chosen(files.drop_last(), root, query);
        if is_match(files.last(), root, query) {
            earlier.push(files.last())
        } else {
            earlier
        }
    }
}

/// The files that are looked for, in order.
pub fn matching_files(files: &[String], root: &str, query: &FindFileQuery) -> (r: Vec<String>)
    ensures
        text::texts(r@) == chosen(text::sorted(text::texts(files@)), root@, query@),
{
    let sorted = text::sort(files);
    let ghost all = text::texts(sorted@);
    let mut out = text::no_texts();
    let mut i: usize = 0;
    proof {
        assert(all.take(0) =~= Seq::empty());
    }
    while i < sorted.len()
        invariant
            i <= sorted@.len(),
            all == text::texts(sorted@),
            text::texts(out@) == chosen(all.take(i as int), root@, query@),
        decreases sorted@.len() - i,
    {
        proof {
            assert(all.take(i + 1).drop_last() =~= all.take(i as int));
            assert(all.take(i + 1).last() == sorted@[i as int]@);
        }
        if matches_query(sorted[i].as_str(), root, query) {
            text::push_text(&mut out, sorted[i].as_str());
        }
        i += 1;
    }
    proof {
        assert(all.take(i as int) =~= all);
    }
    out
}

/// A file is chosen exactly where it is there and is looked for.
pub proof fn law_chosen_files_match(
    files: Seq<Seq<char>>,
    root: Seq<char>,
    query: QueryView,
    file: Seq<char>,
)
    ensures
        chosen(files, root, query).contains(file) <==> files.contains(file) && is_match(
            file,
            root,
            query,
        ),
    decreases files.len(),
{
    if files.len() > 0 {
        let front = files.drop_last();
        let earlier = chosen(front, root, query);
        let all = chosen(files, root, query);
        law_chosen_files_match(front, root, query, file);
        assert(files =~= front.push(files.last()));
        assert(files[files.len() - 1] == files.last());
        if front.contains(file) {
            let k = choose|k: int| 0 <= k < front.len() && front[k] == file;
            assert(files[k] == file);
        }
        if earlier.contains(file) {
            let k = choose|k: int| 0 <= k < earlier.len() && earlier[k] == file;
            assert(all[k] == file);
        }
        if all.contains(file) && !earlier.contains(file) {
            let k = choose|k: int| 0 <= k < all.len() && all[k] == file;
            if k < earlier.len() {
                assert(earlier[k] == file);
            }
        }
        if is_match(files.last(), root, query) {
            assert(all[earlier.len() as int] == files.last());
        }
    }
}

// ---------------------------------------------------------------------------
// The answer
// ---------------------------------------------------------------------------

/// How many of the files are shown, from the `k`th on: as many as the limits on
/// their number and on the bytes of the answer leave room for.
pub open spec fn shown_from(list: Seq<Seq<char>>, max: nat, limit: nat, k: nat) -> nat
    decreases list.len() - k,
{
    if k >= list.len() || k >= max || text::utf8_len(text::joined(list.take(k as int + 1), "\n"@))
        > limit {
        k
    } else {
        shown_from(list, max, limit, k + 1)
    }
}

/// The lines of the answer.
pub open spec fn answer_lines(list: Seq<Seq<char>>, max: nat, limit: nat) -> Seq<Seq<char>> {
    let k = shown_from(list, max, limit, 0);
    if list.len() == 0 {
        seq!["No files matched."@]
    } else if k < list.len() {
        list.take(k as int).push(
            "Showing "@ + text::decimal(k) + " of "@ + text::decimal(list.len())
                + " matching files."@,
        )
    } else {
        list
    }
}

/// Finds files.
pub struct ToolFindFile {
    pub id: ToolId,
    pub max_output_bytes: usize,
    pub max_results: usize,
}

impl Default for ToolFindFile {
    fn default() -> (r: Self)
        ensures
            ids::is_random(r.id.0),
            r.max_output_bytes == 128 * 1024,
            r.max_results == 500,
    {
        ToolFindFile::new()
    }
}

/// Where a search starts.
pub open spec fn search_root(path: Option<Seq<char>>) -> Seq<char> {
    match path {
        Some(p) => if p.len() == 0 {
            "."@
        } else {
            p
        },
        None => "."@,
    }
}

/// How many files are shown at most.
pub open spec fn result_limit(asked: Option<usize>, max: usize) -> usize {
    match asked {
        Some(n) => if n <= max {
            n
        } else {
            max
        },
        None => max,
    }
}

fn count_shown(list: &Vec<String>, max: usize, limit: usize) -> (k: usize)
    ensures
        k == shown_from(text::texts(list@), max as nat, limit as nat, 0),
        k <= list@.len(),
{
    let ghost all = text::texts(list@);
    let mut k: usize = 0;
    let mut used: usize = 0;
    proof {
        reveal_strlit("\n");
        assert(all.take(0) =~= Seq::empty());
        assert(text::joined(all.take(0), "\n"@) =~= Seq::empty());
        assert("\n"@ =~= seq!['\n']);
        text::lemma_utf8_len_push(Seq::empty(), '\n');
        assert(Seq::<char>::empty().push('\n') =~= "\n"@);
    }
    while k < list.len() && k < max
        invariant
            k <= list@.len(),
            all == text::texts(list@),
            used <= limit,
            used == text::utf8_len(text::joined(all.take(k as int), "\n"@)),
            text::utf8_len("\n"@) == 1,
            shown_from(all, max as nat, limit as nat, 0) == shown_from(
                all,
                max as nat,
                limit as nat,
                k as nat,
            ),
        decreases list@.len() - k,
    {
        let length: usize = text::byte_len(list[k].as_str());
        let separator: usize = if k > 0 {
            1
        } else {
            0
        };
        proof {
            let next = all.take(k + 1);
            assert(next.drop_last() =~= all.take(k as int));
            assert(next.last() == list@[k as int]@);
            if k == 0 {
                assert(next[0] == list@[0]@);
            } else {
                text::lemma_utf8_len_concat(
                    text::joined(all.take(k as int), "\n"@),
                    "\n"@,
                );
                text::lemma_utf8_len_concat(
                    text::joined(all.take(k as int), "\n"@) + "\n"@,
                    list@[k as int]@,
                );
            }
            assert(text::utf8_len(text::joined(next, "\n"@)) == used + separator + length);
        }
        if separator > limit - used || length > limit - used - separator {
            return k;
        }
        used = used + separator + length;
        k += 1;
    }
    k
}

impl ToolFindFile {
    pub fn new() -> (r: Self)
        ensures
            ids::is_random(r.id.0),
            r.max_output_bytes == 128 * 1024,
            r.max_results == 500,
    {
        ToolFindFile { id: ToolId(fresh()), max_output_bytes: 128 * 1024, max_results: 500 }
    }

    pub fn with_limits(self, max_results: usize, max_output_bytes: usize) -> (r: Self)
        ensures
            r.id == self.id,
            r.max_results == max_results,
            r.max_output_bytes == max_output_bytes,
    {
        ToolFindFile { id: self.id, max_output_bytes, max_results }
    }

    pub fn name(&self) -> (r: &'static str)
        ensures
            r@ == "find_file"@,
    {
        "find_file"
    }

    /// The error for a request that cannot be read.
    pub fn reject(&self, complaint: &str) -> (r: Error)
        ensures
            r@ == model::ErrorView::Tool(
                "find_file input is invalid: "@ + complaint@
                    + ". Expected an object with exactly one query variant: by_filename_keyword, by_filename_exact, or by_glob_pattern."@,
            ),
    {
        Error::Tool(
            text::cat3(
                "find_file input is invalid: ",
                complaint,
                ". Expected an object with exactly one query variant: by_filename_keyword, by_filename_exact, or by_glob_pattern.",
            ),
        )
    }

    /// Where a search starts.
    pub fn root(&self, input: &FindFileInput) -> (r: String)
        ensures
            r@ == search_root(text::opt_text(input.path)),
    {
        match &input.path {
            Some(p) => if p.as_str().is_empty() {
                text::owned(".")
            } else {
                text::owned(p.as_str())
            },
            None => text::owned("."),
        }
    }

    /// A search that failed with a message.
    pub fn failed(&self, message: String) -> (r: (ToolOutput, NoteContent))
        ensures
            r.0@ == model::OutputView::Failure(message@),
            r.1@ == note::note_about("Find files failed"@, r.0@),
    {
        note::noted("Find files failed", ToolOutput::Failure { content: message })
    }

    /// The answer to a request, by all the files there are.
    pub fn show(&self, input: &FindFileInput, files: &[String]) -> (r: (ToolOutput, NoteContent))
        ensures
            ({
                let root = search_root(text::opt_text(input.path));
                let list = chosen(text::sorted(text::texts(files@)), root, input.query@);
                let max = result_limit(input.max_results, self.max_results) as nat;
                &&& r.0@ == model::OutputView::Success(
                    text::joined(answer_lines(list, max, self.max_output_bytes as nat), "\n"@),
                )
                &&& r.1@ == model::NoteView::Subtle(
                    "Found "@ + text::decimal(list.len()) + " file(s) in "@ + root,
                )
            }),
    {
        let root = self.root(input);
        let list = matching_files(files, root.as_str(), &input.query);
        let max: usize = match input.max_results {
            Some(n) => if n <= self.max_results {
                n
            } else {
                self.max_results
            },
            None => self.max_results,
        };
        let total: usize = list.len();
        let shown: usize = count_shown(&list, max, self.max_output_bytes);
        let ghost all = text::texts(list@);
        let mut lines = text::no_texts();
        text::push_texts(&mut lines, slice_subrange(list.as_slice(), 0, shown));
        proof {
            assert(text::texts(lines@) =~= all.take(shown as int));
        }
        if total == 0 {
            text::push_text(&mut lines, "No files matched.");
        } else if shown < total {
            text::push_string(
                &mut lines,
                text::cat5(
                    "Showing ",
                    text::usize_text(shown).as_str(),
                    " of ",
                    text::usize_text(total).as_str(),
                    " matching files.",
                ),
            );
        }
        proof {
            assert(text::texts(lines@) =~= answer_lines(
                all,
                max as nat,
                self.max_output_bytes as nat,
            ));
        }
        let output = ToolOutput::Success { content: text::join(lines.as_slice(), "\n") };
        let summary = text::cat4(
            "Found ",
            text::usize_text(total).as_str(),
            " file(s) in ",
            root.as_str(),
        );
        note::noted(summary.as_str(), output)
    }
}

/// The plugin that offers the tool.
pub struct ToolFindFilePlugin {
    pub id: PluginId,
    pub tool: ToolFindFile,
}

impl ToolFindFilePlugin {
    pub fn new() -> (r: Self)
        ensures
            ids::is_random(r.id.0),
            ids::is_random(r.tool.id.0),
            r.tool.max_output_bytes == 128 * 1024,
            r.tool.max_results == 500,
    {
        ToolFindFilePlugin { id: PluginId(fresh()), tool: ToolFindFile::new() }
    }

    /// The tool that the plugin offers: the same one each time.
    pub fn tool(&self) -> (r: &ToolFindFile)
        ensures
            *r == self.tool,
    {
        &self.tool
    }

    pub fn name(&self) -> (r: &'static str)
        ensures
            r@ == "tool_find_file"@,
    {
        "tool_find_file"
    }
}

impl ToolFindFile {
    /// What the model gave the tool, which takes an object and no text.
    pub fn input<'a>(&self, input: &'a ToolInput) -> (r: model::Result<&'a Json>)
        ensures
            match *input {
                ToolInput::Json(value) => r is Ok && *r->Ok_0 == value,
                ToolInput::Text(_) => r is Err && r->Err_0@ == model::ErrorView::Tool(
                    "find_file input must be an object"@,
                ),
            },
    {
        proof {
            reveal_strlit("find_file");
            reveal_strlit(" input must be an object");
            reveal_strlit("find_file input must be an object");
            assert("find_file"@ + " input must be an object"@ =~= "find_file input must be an object"@);
        }
        input.object("find_file")
    }

    /// How the tool is described to a provider; `schema` is that of its input.
    pub fn definition(&self, schema: Json) -> (r: ToolDefinition)
        ensures
            r.name@ == "find_file"@,
            r.description@ == DESCRIPTION@,
            r.schema == schema,
            r.freeform is None,
    {
        ToolDefinition::new("find_file", DESCRIPTION, schema)
    }
}

/// A file is found by its name, the whole of it or a part whatever the case, or by its
/// whole path.
pub proof fn law_files_are_found_by_name(
    names: Seq<Seq<char>>,
    root: Seq<char>,
    asked: Seq<char>,
)
    requires
        paths::all_names(names),
        names.len() > 0,
    ensures
        is_match(text::joined(names, "/"@), root, QueryView::Exact(asked)) <==> names.last()
            == asked,
        is_match(text::joined(names, "/"@), root, QueryView::Keyword(asked)) <==> exists|i: int|
            text::matches_at(text::lowercase(names.last()), text::lowercase(asked), i),
{
    paths::law_paths_are_taken_apart(seq!['/'], names);
}

/// Every file that is met is kept, and every directory is looked through, but for what
/// belongs to Git. They keep the order in which they are met.
pub proof fn law_all_entries_are_met(
    directories: Seq<Seq<char>>,
    files: Seq<Seq<char>>,
    a: Seq<Entry>,
    b: Seq<Entry>,
    entry: Entry,
)
    ensures
        after_entries(directories, files, a + b) == after_entries(
            after_entries(directories, files, a).0,
            after_entries(directories, files, a).1,
            b,
        ),
        paths::parts(entry.path@).contains(paths::PartView::Name(".git"@)) ==> after_entries(
            directories,
            files,
            seq![entry],
        ) == (directories, files),
        !paths::parts(entry.path@).contains(paths::PartView::Name(".git"@)) && entry.kind is File
            ==> after_entries(directories, files, seq![entry]) == (
            directories,
            files.push(shown_path(entry.path@)),
        ),
        !paths::parts(entry.path@).contains(paths::PartView::Name(".git"@))
            && entry.kind is Directory ==> after_entries(directories, files, seq![entry]) == (
            directories.push(entry.path@),
            files,
        ),
    decreases b.len(),
{
    assert(seq![entry].drop_last() =~= Seq::empty());
    reveal_with_fuel(after_entries, 2);
    if b.len() == 0 {
        assert(a + b =~= a);
    } else {
        law_all_entries_are_met(directories, files, a, b.drop_last(), entry);
        assert((a + b).drop_last() =~= a + b.drop_last());
        assert((a + b).last() == b.last());
    }
}

/// A path is shown with slashes and without a step to where one is at its beginning.
pub proof fn law_paths_are_shown_plainly(s: Seq<char>, i: int)
    ensures
        undotted("./"@ + s) == undotted(s),
        !text::starts_with(s, "./"@) ==> undotted(s) == s,
        glob::slashed(s).len() == s.len(),
        0 <= i < s.len() ==> glob::slashed(s)[i] == (if s[i] == '\\' {
            '/'
        } else {
            s[i]
        }),
        shown_path(s) == undotted(glob::slashed(s)),
{
    reveal_strlit("./");
    let all = "./"@ + s;
    assert(all.subrange(0, 2) =~= "./"@);
    assert(all.skip(2) =~= s);
}

/// As many files are shown as are asked for and fit, from the first on; whether some are
/// left out is said at the end.
pub proof fn law_as_many_are_shown_as_fit(list: Seq<Seq<char>>, max: nat, limit: nat)
    ensures
        ({
            let k = shown_from(list, max, limit, 0);
            &&& k <= list.len() && k <= max
            &&& k > 0 ==> text::utf8_len(text::joined(list.take(k as int), seq!['\n'])) <= limit
            &&& k < list.len() && k < max ==> text::utf8_len(
                text::joined(list.take(k as int + 1), seq!['\n']),
            ) > limit
            &&& list.len() == 0 ==> answer_lines(list, max, limit) == seq!["No files matched."@]
            &&& list.len() > 0 && k == list.len() ==> answer_lines(list, max, limit) == list
            &&& k < list.len() ==> answer_lines(list, max, limit).len() == k + 1 && answer_lines(
                list,
                max,
                limit,
            ).take(k as int) == list.take(k as int) && answer_lines(list, max, limit).last()
                == "Showing "@ + text::decimal(k) + " of "@ + text::decimal(list.len())
                + " matching files."@
        }),
{
    reveal_strlit("\n");
    assert("\n"@ =~= seq!['\n']);
    lemma_shown(list, max, limit, 0);
    let k = shown_from(list, max, limit, 0);
    if k < list.len() {
        assert(answer_lines(list, max, limit).take(k as int) =~= list.take(k as int));
    }
}

proof fn lemma_shown(list: Seq<Seq<char>>, max: nat, limit: nat, k: nat)
    requires
        k <= list.len(),
        k <= max,
        k > 0 ==> text::utf8_len(text::joined(list.take(k as int), "\n"@)) <= limit,
    ensures
        ({
            let n = shown_from(list, max, limit, k);
            &&& n <= list.len() && n <= max
            &&& n > 0 ==> text::utf8_len(text::joined(list.take(n as int), "\n"@)) <= limit
            &&& n < list.len() && n < max ==> text::utf8_len(
                text::joined(list.take(n as int + 1), "\n"@),
            ) > limit
        }),
    decreases list.len() - k,
{
    if k < list.len() && k < max && text::utf8_len(
        text::joined(list.take(k as int + 1), "\n"@),
    ) <= limit {
        lemma_shown(list, max, limit, k + 1);
    }
}

/// A path under the place of the search is taken from there on.
pub proof fn law_paths_count_from_the_root(root: Seq<char>, rest: Seq<char>, other: Seq<char>)
    ensures
        from_root(shown_path(root) + seq!['/'] + rest, root) == rest,
        !text::starts_with(other, shown_path(root) + seq!['/']) ==> from_root(other, root) == other,
{
    reveal_strlit("/");
    assert("/"@ =~= seq!['/']);
    let prefix = shown_path(root) + "/"@;
    let path = prefix + rest;
    assert(path.subrange(0, prefix.len() as int) =~= prefix);
    assert(path.skip(prefix.len() as int) =~= rest);
    assert(shown_path(root) + seq!['/'] + rest =~= path);
}

/// A query has one kind and the one field of that kind.
pub proof fn law_queries_have_one_field(
    fields: Seq<(Seq<char>, json::JsonView)>,
    allowed: Seq<char>,
    i: int,
)
    ensures
        query_field("by_filename_keyword"@) == Some("keyword"@),
        query_field("by_filename_exact"@) == Some("filename"@),
        query_field("by_glob_pattern"@) == Some("pattern"@),
        0 <= i < fields.len() && fields[i].0 != "kind"@ && fields[i].0 != allowed
            ==> unexpected_field(fields, allowed) is Some,
        unexpected_field(fields, allowed) matches Some(name) ==> name != "kind"@ && name != allowed,
    decreases fields.len(),
{
    reveal_strlit("by_filename_keyword");
    reveal_strlit("by_filename_exact");
    reveal_strlit("by_glob_pattern");
    assert("by_filename_keyword"@.len() == 19 && "by_filename_exact"@.len() == 17
        && "by_glob_pattern"@.len() == 15);
    if fields.len() > 0 {
        law_queries_have_one_field(fields.drop_first(), allowed, i - 1);
    }
}

} // verus!
