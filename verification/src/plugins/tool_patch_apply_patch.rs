//! Patches that add, update, move and delete files, in the `*** Begin Patch`
//! format.
use crate::ids;
use crate::ids::fresh;
use crate::ids::{PluginId, ToolId};
use crate::json::Json;
use crate::model;
use crate::model::{Error, NoteContent, ToolDefinition, ToolOutput};
use crate::plugins::tool_patch;
use crate::plugins::tool_patch_hashline as edits;
use crate::text;
use vstd::prelude::*;
use vstd::slice::slice_subrange;
use vstd::string::StrSliceExecFns;

verus! {

/// One change of a file: the text before and after it.
#[derive(Clone, Debug)]
pub struct Hunk {
    pub before: String,
    pub after: String,
}

#[derive(Clone, Debug)]
pub enum PatchOperation {
    Add { path: String, content: String },
    Update { path: String, move_to: Option<String>, hunks: Vec<Hunk> },
    Delete { path: String },
}

/// A change in mathematical terms: the text before and after it.
pub type HunkView = (Seq<char>, Seq<char>);

pub ghost enum PatchOperationView {
    Add(Seq<char>, Seq<char>),
    Update(Seq<char>, Option<Seq<char>>, Seq<HunkView>),
    Delete(Seq<char>),
}

pub open spec fn hunk_views(hunks: Seq<Hunk>) -> Seq<HunkView> {
    hunks.map_values(|h: Hunk| (h.before@, h.after@))
}

impl View for PatchOperation {
    type V = PatchOperationView;

    open spec fn view(&self) -> PatchOperationView {
        match *self {
            PatchOperation::Add { path, content } => PatchOperationView::Add(path@, content@),
            PatchOperation::Update { path, move_to, hunks } => PatchOperationView::Update(
                path@,
                text::opt_text(move_to),
                hunk_views(hunks@),
            ),
            PatchOperation::Delete { path } => PatchOperationView::Delete(path@),
        }
    }
}

pub open spec fn operation_views(operations: Seq<PatchOperation>) -> Seq<PatchOperationView> {
    operations.map_values(|o: PatchOperation| o@)
}

// ---------------------------------------------------------------------------
// The format
// ---------------------------------------------------------------------------

/// The path behind a header of the given kind, for example `*** Add File: `.
pub open spec fn header_path(line: Seq<char>, marker: Seq<char>) -> Option<Seq<char>> {
    if text::starts_with(line, marker) {
        let path = text::trimmed(line.skip(marker.len() as int));
        if path.len() == 0 {
            None
        } else {
            Some(path)
        }
    } else {
        None
    }
}

/// Line `i` belongs to the patch: it stands before the closing line.
pub open spec fn inside(lines: Seq<Seq<char>>, i: int) -> bool {
    0 <= i && i + 1 < lines.len()
}

pub open spec fn is_marker(line: Seq<char>) -> bool {
    text::starts_with(line, "*** "@)
}

pub open spec fn is_hunk_header(line: Seq<char>) -> bool {
    text::starts_with(line, "@@"@)
}

/// The content of an added file from line `i` on, and the line behind it.
pub open spec fn added_content(lines: Seq<Seq<char>>, i: int, path: Seq<char>) -> Result<
    (Seq<char>, int),
    Seq<char>,
>
    decreases lines.len() - i,
{
    if !inside(lines, i) || is_marker(lines[i]) {
        Ok((Seq::empty(), i))
    } else if lines[i].len() > 0 && lines[i][0] == '+' {
        match added_content(lines, i + 1, path) {
            Ok((rest, end)) => Ok((lines[i].skip(1) + seq!['\n'] + rest, end)),
            Err(m) => Err(m),
        }
    } else {
        Err("Add File "@ + path + " contains non-added line `"@ + lines[i] + "`"@)
    }
}

/// The body of a hunk from line `i` on, and the line behind it.
pub open spec fn hunk_body(lines: Seq<Seq<char>>, i: int) -> Result<(HunkView, int), Seq<char>>
    decreases lines.len() - i,
{
    if !inside(lines, i) || is_hunk_header(lines[i]) || is_marker(lines[i]) {
        Ok(((Seq::empty(), Seq::empty()), i))
    } else {
        let line = lines[i];
        if line.len() == 0 || text::char_width(line[0]) != 1 {
            Err("empty patch line"@)
        } else if line[0] != ' ' && line[0] != '-' && line[0] != '+' {
            Err("invalid hunk line `"@ + line + "`"@)
        } else {
            let content = line.skip(1).push('\n');
            match hunk_body(lines, i + 1) {
                Err(m) => Err(m),
                Ok(((before, after), end)) => Ok(
                    (
                        (
                            if line[0] == '+' {
                                before
                            } else {
                                content + before
                            },
                            if line[0] == '-' {
                                after
                            } else {
                                content + after
                            },
                        ),
                        end,
                    ),
                ),
            }
        }
    }
}

/// The hunks from line `i` on, and the line behind them.
pub open spec fn hunks_from(lines: Seq<Seq<char>>, i: int) -> Result<(Seq<HunkView>, int), Seq<char>>
    decreases lines.len() - i,
{
    if !inside(lines, i) || is_marker(lines[i]) {
        Ok((Seq::empty(), i))
    } else if !is_hunk_header(lines[i]) {
        Err("expected hunk header starting with `@@`, found `"@ + lines[i] + "`"@)
    } else {
        match hunk_body(lines, i + 1) {
            Err(m) => Err(m),
            Ok((hunk, end)) => if hunk.0 == hunk.1 {
                Err("hunk does not change the file"@)
            } else if !(i < end <= lines.len()) {
                Err(Seq::empty())
            } else {
                match hunks_from(lines, end) {
                    Err(m) => Err(m),
                    Ok((rest, last)) => Ok((seq![hunk] + rest, last)),
                }
            },
        }
    }
}

/// One operation from line `i` on, and the line behind it.
pub open spec fn operation_at(lines: Seq<Seq<char>>, i: int) -> Result<
    (PatchOperationView, int),
    Seq<char>,
> {
    let header = lines[i];
    match header_path(header, "*** Add File: "@) {
        Some(path) => match added_content(lines, i + 1, path) {
            Err(m) => Err(m),
            Ok((content, end)) => Ok((PatchOperationView::Add(path, content), end)),
        },
        None => match header_path(header, "*** Delete File: "@) {
            Some(path) => if inside(lines, i + 1) && !is_marker(lines[i + 1]) {
                Err("Delete File "@ + path + " must not contain file content"@)
            } else {
                Ok((PatchOperationView::Delete(path), i + 1))
            },
            None => match header_path(header, "*** Update File: "@) {
                None => Err("expected patch operation header, found `"@ + header + "`"@),
                Some(path) => {
                    let move_to = if inside(lines, i + 1) {
                        header_path(lines[i + 1], "*** Move to: "@)
                    } else {
                        None
                    };
                    let start = if move_to is Some {
                        i + 2
                    } else {
                        i + 1
                    };
                    match hunks_from(lines, start) {
                        Err(m) => Err(m),
                        Ok((hunks, end)) => if hunks.len() == 0 {
                            Err("Update File "@ + path + " has no hunks"@)
                        } else {
                            Ok((PatchOperationView::Update(path, move_to, hunks), end))
                        },
                    }
                },
            },
        },
    }
}

/// The operations from line `i` on.
pub open spec fn operations_from(lines: Seq<Seq<char>>, i: int) -> Result<
    Seq<PatchOperationView>,
    Seq<char>,
>
    decreases lines.len() - i,
{
    if !inside(lines, i) {
        Ok(Seq::empty())
    } else {
        match operation_at(lines, i) {
            Err(m) => Err(m),
            Ok((operation, end)) => if !(i < end <= lines.len()) {
                Err(Seq::empty())
            } else {
                match operations_from(lines, end) {
                    Err(m) => Err(m),
                    Ok(rest) => Ok(seq![operation] + rest),
                }
            },
        }
    }
}

/// The operations of a patch, or what is wrong with it.
pub open spec fn read_patch(input: Seq<char>) -> Result<Seq<PatchOperationView>, Seq<char>> {
    let lines = text::lines_of(input);
    if lines.len() == 0 || lines[0] != "*** Begin Patch"@ || lines.last() != "*** End Patch"@ {
        Err("patch must start with `*** Begin Patch` and end with `*** End Patch`"@)
    } else {
        match operations_from(lines, 1) {
            Err(m) => Err(m),
            Ok(operations) => if operations.len() == 0 {
                Err("patch requires at least one operation"@)
            } else {
                Ok(operations)
            },
        }
    }
}

proof fn lemma_added_end(lines: Seq<Seq<char>>, i: int, path: Seq<char>)
    ensures
        added_content(lines, i, path) matches Ok(p) ==> i <= p.1 && (i <= lines.len() ==> p.1
            <= lines.len()),
    decreases lines.len() - i,
{
    if inside(lines, i) && !is_marker(lines[i]) {
        lemma_added_end(lines, i + 1, path);
    }
}

proof fn lemma_hunk_body_end(lines: Seq<Seq<char>>, i: int)
    ensures
        hunk_body(lines, i) matches Ok(p) ==> i <= p.1 && (i <= lines.len() ==> p.1
            <= lines.len()),
    decreases lines.len() - i,
{
    if inside(lines, i) && !is_hunk_header(lines[i]) && !is_marker(lines[i]) {
        lemma_hunk_body_end(lines, i + 1);
    }
}

proof fn lemma_hunks_end(lines: Seq<Seq<char>>, i: int)
    ensures
        hunks_from(lines, i) matches Ok(p) ==> i <= p.1 && (i <= lines.len() ==> p.1
            <= lines.len()),
    decreases lines.len() - i,
{
    if inside(lines, i) && !is_marker(lines[i]) && is_hunk_header(lines[i]) {
        lemma_hunk_body_end(lines, i + 1);
        if let Ok((hunk, end)) = hunk_body(lines, i + 1) {
            if i < end <= lines.len() {
                lemma_hunks_end(lines, end);
            }
        }
    }
}

/// Every operation takes at least its header line, so reading a patch ends.
proof fn lemma_operation_end(lines: Seq<Seq<char>>, i: int)
    ensures
        inside(lines, i) ==> (operation_at(lines, i) matches Ok(p) ==> i < p.1 <= lines.len()),
{
    if let Some(path) = header_path(lines[i], "*** Add File: "@) {
        lemma_added_end(lines, i + 1, path);
    }
    lemma_hunks_end(lines, i + 1);
    lemma_hunks_end(lines, i + 2);
}

/// The path behind a header.
pub fn patch_path(header: &str, marker: &str) -> (r: Option<String>)
    ensures
        text::opt_text(r) == header_path(header@, marker@),
{
    if !text::begins(header, marker) {
        return None;
    }
    let n: usize = marker.unicode_len();
    let total: usize = header.unicode_len();
    let rest = header.substring_char(n, total);
    proof {
        assert(rest@ =~= header@.skip(marker@.len() as int));
    }
    let path = text::trim(rest);
    if path.is_empty() {
        None
    } else {
        Some(text::owned(path))
    }
}

fn more(lines: &Vec<String>, i: usize) -> (r: bool)
    ensures
        r == inside(text::texts(lines@), i as int),
        r ==> i + 1 < lines.len(),
{
    lines.len() > 0 && i < lines.len() - 1
}

fn marker(line: &str) -> (r: bool)
    ensures
        r == is_marker(line@),
{
    text::begins(line, "*** ")
}

fn parse_added(lines: &Vec<String>, start: usize, path: &str) -> (r: Result<
    (String, usize),
    String,
>)
    requires
        start <= lines@.len(),
    ensures
        match r {
            Ok(p) => added_content(text::texts(lines@), start as int, path@) == Ok::<
                (Seq<char>, int),
                Seq<char>,
            >((p.0@, p.1 as int)) && p.1 <= lines@.len(),
            Err(m) => added_content(text::texts(lines@), start as int, path@) == Err::<
                (Seq<char>, int),
                Seq<char>,
            >(m@),
        },
{
    let ghost all = text::texts(lines@);
    let mut content = String::new();
    let mut i: usize = start;
    while more(lines, i) && !marker(lines[i].as_str())
        invariant
            start <= i <= lines@.len(),
            all == text::texts(lines@),
            match added_content(all, i as int, path@) {
                Ok(p) => added_content(all, start as int, path@) == Ok::<
                    (Seq<char>, int),
                    Seq<char>,
                >((content@ + p.0, p.1)),
                Err(m) => added_content(all, start as int, path@) == Err::<
                    (Seq<char>, int),
                    Seq<char>,
                >(m),
            },
        decreases lines@.len() - i,
    {
        proof {
            assert(all[i as int] == lines@[i as int]@);
        }
        let line = text::to_chars(lines[i].as_str());
        if line.len() == 0 || line[0] != '+' {
            return Err(
                text::cat5(
                    "Add File ",
                    path,
                    " contains non-added line `",
                    lines[i].as_str(),
                    "`",
                ),
            );
        }
        let ghost before = content@;
        let rest = text::from_chars(slice_subrange(line.as_slice(), 1, line.len()));
        content.push_str(rest.as_str());
        content.push('\n');
        proof {
            assert(rest@ =~= all[i as int].skip(1));
            if let Ok(p) = added_content(all, i + 1, path@) {
                assert(before + (all[i as int].skip(1) + seq!['\n'] + p.0) =~= content@ + p.0);
            }
        }
        i += 1;
    }
    proof {
        assert(content@ + Seq::<char>::empty() =~= content@);
    }
    Ok((content, i))
}

fn parse_hunk_body(lines: &Vec<String>, start: usize) -> (r: Result<(Hunk, usize), String>)
    requires
        start <= lines@.len(),
    ensures
        match r {
            Ok(p) => hunk_body(text::texts(lines@), start as int) == Ok::<
                (HunkView, int),
                Seq<char>,
            >(((p.0.before@, p.0.after@), p.1 as int)) && start <= p.1 <= lines@.len(),
            Err(m) => hunk_body(text::texts(lines@), start as int) == Err::<
                (HunkView, int),
                Seq<char>,
            >(m@),
        },
{
    let ghost all = text::texts(lines@);
    let mut before = String::new();
    let mut after = String::new();
    let mut i: usize = start;
    while more(lines, i) && !text::begins(lines[i].as_str(), "@@") && !marker(lines[i].as_str())
        invariant
            start <= i <= lines@.len(),
            all == text::texts(lines@),
            match hunk_body(all, i as int) {
                Ok(p) => hunk_body(all, start as int) == Ok::<(HunkView, int), Seq<char>>(
                    ((before@ + p.0.0, after@ + p.0.1), p.1),
                ),
                Err(m) => hunk_body(all, start as int) == Err::<(HunkView, int), Seq<char>>(m),
            },
        decreases lines@.len() - i,
    {
        proof {
            assert(all[i as int] == lines@[i as int]@);
        }
        let line = text::to_chars(lines[i].as_str());
        if line.len() == 0 || text::width_of(line[0]) != 1 {
            return Err(text::owned("empty patch line"));
        }
        let c = line[0];
        if c != ' ' && c != '-' && c != '+' {
            return Err(text::cat3("invalid hunk line `", lines[i].as_str(), "`"));
        }
        let ghost b = before@;
        let ghost a = after@;
        let mut content = text::from_chars(slice_subrange(line.as_slice(), 1, line.len()));
        content.push('\n');
        proof {
            assert(content@ =~= all[i as int].skip(1).push('\n'));
        }
        if c != '+' {
            before.push_str(content.as_str());
        }
        if c != '-' {
            after.push_str(content.as_str());
        }
        proof {
            if let Ok(p) = hunk_body(all, i + 1) {
                assert(b + (content@ + p.0.0) =~= (b + content@) + p.0.0);
                assert(a + (content@ + p.0.1) =~= (a + content@) + p.0.1);
            }
        }
        i += 1;
    }
    proof {
        assert(before@ + Seq::<char>::empty() =~= before@);
        assert(after@ + Seq::<char>::empty() =~= after@);
    }
    Ok((Hunk { before, after }, i))
}

fn parse_hunks(lines: &Vec<String>, start: usize) -> (r: Result<(Vec<Hunk>, usize), String>)
    requires
        start <= lines@.len(),
    ensures
        match r {
            Ok(p) => hunks_from(text::texts(lines@), start as int) == Ok::<
                (Seq<HunkView>, int),
                Seq<char>,
            >((hunk_views(p.0@), p.1 as int)) && start <= p.1 <= lines@.len(),
            Err(m) => hunks_from(text::texts(lines@), start as int) == Err::<
                (Seq<HunkView>, int),
                Seq<char>,
            >(m@),
        },
{
    let ghost all = text::texts(lines@);
    let mut hunks: Vec<Hunk> = Vec::new();
    let mut i: usize = start;
    proof {
        if let Ok(p) = hunks_from(all, start as int) {
            assert(hunk_views(hunks@) + p.0 =~= p.0);
        }
    }
    while more(lines, i) && !marker(lines[i].as_str())
        invariant
            start <= i <= lines@.len(),
            all == text::texts(lines@),
            match hunks_from(all, i as int) {
                Ok(p) => hunks_from(all, start as int) == Ok::<(Seq<HunkView>, int), Seq<char>>(
                    (hunk_views(hunks@) + p.0, p.1),
                ),
                Err(m) => hunks_from(all, start as int) == Err::<(Seq<HunkView>, int), Seq<char>>(
                    m,
                ),
            },
        decreases lines@.len() - i,
    {
        proof {
            assert(all[i as int] == lines@[i as int]@);
        }
        if !text::begins(lines[i].as_str(), "@@") {
            return Err(
                text::cat3(
                    "expected hunk header starting with `@@`, found `",
                    lines[i].as_str(),
                    "`",
                ),
            );
        }
        let (hunk, end) = match parse_hunk_body(lines, i + 1) {
            Ok(p) => p,
            Err(m) => return Err(m),
        };
        if text::same_text(hunk.before.as_str(), hunk.after.as_str()) {
            return Err(text::owned("hunk does not change the file"));
        }
        let ghost shown = hunk_views(hunks@);
        let ghost view = (hunk.before@, hunk.after@);
        hunks.push(hunk);
        proof {
            assert(hunk_views(hunks@) =~= shown.push(view));
            if let Ok(p) = hunks_from(all, end as int) {
                assert(shown + (seq![view] + p.0) =~= hunk_views(hunks@) + p.0);
            }
        }
        i = end;
    }
    proof {
        assert(hunk_views(hunks@) + Seq::<HunkView>::empty() =~= hunk_views(hunks@));
    }
    Ok((hunks, i))
}

fn parse_operation(lines: &Vec<String>, i: usize) -> (r: Result<(PatchOperation, usize), String>)
    requires
        i + 1 < lines.len(),
    ensures
        match r {
            Ok(p) => operation_at(text::texts(lines@), i as int) == Ok::<
                (PatchOperationView, int),
                Seq<char>,
            >((p.0@, p.1 as int)) && i < p.1 <= lines@.len(),
            Err(m) => operation_at(text::texts(lines@), i as int) == Err::<
                (PatchOperationView, int),
                Seq<char>,
            >(m@),
        },
{
    let ghost all = text::texts(lines@);
    let header = lines[i].as_str();
    proof {
        assert(all[i as int] == header@);
        lemma_operation_end(all, i as int);
    }
    if let Some(path) = patch_path(header, "*** Add File: ") {
        return match parse_added(lines, i + 1, path.as_str()) {
            Ok((content, end)) => Ok((PatchOperation::Add { path, content }, end)),
            Err(m) => Err(m),
        };
    }
    let next = more(lines, i + 1);
    proof {
        if next {
            assert(all[i + 1] == lines@[i + 1]@);
        }
    }
    if let Some(path) = patch_path(header, "*** Delete File: ") {
        if next && !marker(lines[i + 1].as_str()) {
            return Err(
                text::cat3("Delete File ", path.as_str(), " must not contain file content"),
            );
        }
        return Ok((PatchOperation::Delete { path }, i + 1));
    }
    let path = match patch_path(header, "*** Update File: ") {
        Some(p) => p,
        None => return Err(
            text::cat3("expected patch operation header, found `", header, "`"),
        ),
    };
    let move_to = if next {
        patch_path(lines[i + 1].as_str(), "*** Move to: ")
    } else {
        None
    };
    let start: usize = if move_to.is_some() {
        i + 2
    } else {
        i + 1
    };
    match parse_hunks(lines, start) {
        Err(m) => Err(m),
        Ok((hunks, end)) => {
            proof {
                assert(hunk_views(hunks@).len() == hunks@.len());
            }
            if hunks.len() == 0 {
                return Err(text::cat3("Update File ", path.as_str(), " has no hunks"));
            }
            Ok((PatchOperation::Update { path, move_to, hunks }, end))
        },
    }
}

/// Reads a patch.
pub fn parse_apply_patch(input: &str) -> (r: Result<Vec<PatchOperation>, String>)
    ensures
        match r {
            Ok(v) => read_patch(input@) == Ok::<Seq<PatchOperationView>, Seq<char>>(
                operation_views(v@),
            ),
            Err(m) => read_patch(input@) == Err::<Seq<PatchOperationView>, Seq<char>>(m@),
        },
{
    let lines = text::split_lines(input);
    let ghost all = text::texts(lines@);
    let n: usize = lines.len();
    proof {
        if n > 0 {
            assert(all[0] == lines@[0]@);
            assert(all.last() == lines@[n - 1]@);
        }
    }
    if n == 0 || !text::same_text(lines[0].as_str(), "*** Begin Patch") || !text::same_text(
        lines[n - 1].as_str(),
        "*** End Patch",
    ) {
        return Err(
            text::owned("patch must start with `*** Begin Patch` and end with `*** End Patch`"),
        );
    }
    let mut operations: Vec<PatchOperation> = Vec::new();
    let mut i: usize = 1;
    proof {
        if let Ok(p) = operations_from(all, 1) {
            assert(operation_views(operations@) + p =~= p);
        }
    }
    while more(&lines, i)
        invariant
            1 <= i <= lines@.len(),
            all == text::texts(lines@),
            all == text::lines_of(input@),
            all[0] == "*** Begin Patch"@ && all.last() == "*** End Patch"@,
            match operations_from(all, i as int) {
                Ok(p) => operations_from(all, 1) == Ok::<Seq<PatchOperationView>, Seq<char>>(
                    operation_views(operations@) + p,
                ),
                Err(m) => operations_from(all, 1) == Err::<Seq<PatchOperationView>, Seq<char>>(m),
            },
        decreases lines@.len() - i,
    {
        let (operation, end) = match parse_operation(&lines, i) {
            Ok(p) => p,
            Err(m) => return Err(m),
        };
        let ghost shown = operation_views(operations@);
        let ghost view = operation@;
        operations.push(operation);
        proof {
            assert(operation_views(operations@) =~= shown.push(view));
            if let Ok(p) = operations_from(all, end as int) {
                assert(shown + (seq![view] + p) =~= operation_views(operations@) + p);
            }
        }
        i = end;
    }
    proof {
        assert(operation_views(operations@) + Seq::<PatchOperationView>::empty()
            =~= operation_views(operations@));
        assert(operation_views(operations@).len() == operations@.len());
    }
    if operations.len() == 0 {
        return Err(text::owned("patch requires at least one operation"));
    }
    Ok(operations)
}

// ---------------------------------------------------------------------------
// Applying hunks
// ---------------------------------------------------------------------------

/// The text that a hunk replaces: its text before the change, or that text
/// without its last line feed where the file lacks it.
pub open spec fn hunk_target(source: Seq<char>, before: Seq<char>) -> Option<Seq<char>> {
    if text::has_text(source, before) {
        Some(before)
    } else if before.len() > 0 && before.last() == '\n' {
        Some(before.drop_last())
    } else {
        None
    }
}

/// What a hunk makes of a file.
pub open spec fn hunk_applied(source: Seq<char>, hunk: HunkView) -> Result<Seq<char>, Seq<char>> {
    match hunk_target(source, hunk.0) {
        None => Err("hunk context was not found"@),
        Some(target) => {
            let found = text::count_of(source, target);
            if found != 1 {
                Err(
                    "hunk context must occur exactly once; found "@ + text::decimal(found)
                        + " matches"@,
                )
            } else {
                let at = text::first_match(source, target, 0)->0;
                let replacement = if target.len() > 0 && target.last() == '\n' {
                    hunk.1
                } else {
                    text::trim_end_by(hunk.1, |c: char| c == '\n')
                };
                Ok(text::spliced(source, at, at + target.len(), replacement))
            }
        },
    }
}

/// What hunks make of a file, one after the other.
pub open spec fn hunks_applied(source: Seq<char>, hunks: Seq<HunkView>) -> Result<
    Seq<char>,
    Seq<char>,
>
    decreases hunks.len(),
{
    if hunks.len() == 0 {
        Ok(source)
    } else {
        match hunks_applied(source, hunks.drop_last()) {
            Err(m) => Err(m),
            Ok(now) => hunk_applied(now, hunks.last()),
        }
    }
}

proof fn lemma_hunks_err(source: Seq<char>, hunks: Seq<HunkView>, n: int)
    requires
        0 <= n <= hunks.len(),
        hunks_applied(source, hunks.take(n)) is Err,
    ensures
        hunks_applied(source, hunks) == hunks_applied(source, hunks.take(n)),
    decreases hunks.len() - n,
{
    if n < hunks.len() {
        assert(hunks.take(n + 1).drop_last() =~= hunks.take(n));
        lemma_hunks_err(source, hunks, n + 1);
    } else {
        assert(hunks.take(n) =~= hunks);
    }
}

/// A hunk changes nothing but the place where its context stands.
pub proof fn law_hunk_keeps_the_rest(source: Seq<char>, hunk: HunkView)
    requires
        hunk_applied(source, hunk) is Ok,
    ensures
        ({
            let target = hunk_target(source, hunk.0)->0;
            let at = text::first_match(source, target, 0)->0;
            let new = hunk_applied(source, hunk)->Ok_0;
            &&& 0 <= at && at + target.len() <= source.len()
            &&& source.subrange(at, at + target.len()) == target
            &&& new.take(at) == source.take(at)
            &&& new.skip(new.len() - (source.len() - at - target.len())) == source.skip(
                at + target.len(),
            )
        }),
{
    let target = hunk_target(source, hunk.0)->0;
    text::lemma_first_match(source, target, 0);
    let at = text::first_match(source, target, 0)->0;
    let new = hunk_applied(source, hunk)->Ok_0;
    assert(new.take(at) =~= source.take(at));
    assert(new.skip(new.len() - (source.len() - at - target.len())) =~= source.skip(
        at + target.len(),
    ));
}

/// Applies one hunk.
pub fn apply_hunk(source: &str, hunk: &Hunk) -> (r: Result<String, String>)
    ensures
        match r {
            Ok(s) => hunk_applied(source@, (hunk.before@, hunk.after@)) == Ok::<
                Seq<char>,
                Seq<char>,
            >(s@),
            Err(m) => hunk_applied(source@, (hunk.before@, hunk.after@)) == Err::<
                Seq<char>,
                Seq<char>,
            >(m@),
        },
{
    let before = text::to_chars(hunk.before.as_str());
    let mut target = text::to_chars(hunk.before.as_str());
    if !text::holds(source, hunk.before.as_str()) {
        if before.len() == 0 || before[before.len() - 1] != '\n' {
            return Err(text::owned("hunk context was not found"));
        }
        target.pop();
        proof {
            assert(target@ =~= before@.drop_last());
        }
    }
    proof {
        assert(hunk_target(source@, hunk.before@) == Some(target@));
    }
    let cs = text::to_chars(source);
    let found: u128 = text::count_matches(cs.as_slice(), target.as_slice());
    if found != 1 {
        return Err(
            text::cat3(
                "hunk context must occur exactly once; found ",
                text::decimal_text(found).as_str(),
                " matches",
            ),
        );
    }
    let at: usize = match text::find_match(cs.as_slice(), target.as_slice(), 0) {
        Some(i) => i,
        None => {
            proof {
                assert(text::count_of(cs@, target@) == 0);
                assert(false);
            }
            0
        },
    };
    let total: usize = cs.len();
    let replacement = if target.len() > 0 && target[target.len() - 1] == '\n' {
        hunk.after.as_str()
    } else {
        text::trim_end_char(hunk.after.as_str(), '\n')
    };
    let mut out = text::from_chars(slice_subrange(cs.as_slice(), 0, at));
    out.push_str(replacement);
    let rest = text::from_chars(slice_subrange(cs.as_slice(), at + target.len(), total));
    out.push_str(rest.as_str());
    proof {
        assert(out@ =~= text::spliced(
            source@,
            at as int,
            at + target@.len(),
            replacement@,
        ));
    }
    Ok(out)
}

fn apply_hunks(source: &str, hunks: &Vec<Hunk>) -> (r: Result<String, String>)
    ensures
        match r {
            Ok(s) => hunks_applied(source@, hunk_views(hunks@)) == Ok::<Seq<char>, Seq<char>>(s@),
            Err(m) => hunks_applied(source@, hunk_views(hunks@)) == Err::<Seq<char>, Seq<char>>(m@),
        },
{
    let ghost all = hunk_views(hunks@);
    let mut now = text::owned(source);
    let mut i: usize = 0;
    proof {
        assert(all.take(0) =~= Seq::empty());
    }
    while i < hunks.len()
        invariant
            i <= hunks@.len(),
            all == hunk_views(hunks@),
            hunks_applied(source@, all.take(i as int)) == Ok::<Seq<char>, Seq<char>>(now@),
        decreases hunks@.len() - i,
    {
        proof {
            assert(all.take(i + 1).drop_last() =~= all.take(i as int));
            assert(all.take(i + 1).last() == (hunks@[i as int].before@, hunks@[i as int].after@));
        }
        match apply_hunk(now.as_str(), &hunks[i]) {
            Ok(s) => {
                now = s;
            },
            Err(m) => {
                proof {
                    lemma_hunks_err(source@, all, i + 1);
                }
                return Err(m);
            },
        }
        i += 1;
    }
    proof {
        assert(all.take(i as int) =~= all);
    }
    Ok(now)
}

// ---------------------------------------------------------------------------
// The files of a patch
// ---------------------------------------------------------------------------

/// A file that a patch has looked at: as it was and as it shall be. A file
/// without content does not exist.
#[derive(Clone, Debug)]
pub struct FileState {
    pub path: String,
    pub original: Option<String>,
    pub content: Option<String>,
}

pub ghost struct FileView {
    pub path: Seq<char>,
    pub original: Option<Seq<char>>,
    pub content: Option<Seq<char>>,
}

impl View for FileState {
    type V = FileView;

    open spec fn view(&self) -> FileView {
        FileView {
            path: self.path@,
            original: text::opt_text(self.original),
            content: text::opt_text(self.content),
        }
    }
}

pub open spec fn file_views(files: Seq<FileState>) -> Seq<FileView> {
    files.map_values(|f: FileState| f@)
}

/// The position of `path` among `files`, from `from` on.
pub open spec fn find_from(files: Seq<FileView>, path: Seq<char>, from: int) -> Option<int>
    decreases files.len() - from,
{
    if from < 0 || from >= files.len() {
        None
    } else if files[from].path == path {
        Some(from)
    } else {
        find_from(files, path, from + 1)
    }
}

/// The position of `path` among `files`.
pub open spec fn find_in(files: Seq<FileView>, path: Seq<char>) -> Option<int> {
    find_from(files, path, 0)
}

/// `files` with `f` put in the order of paths.
pub open spec fn insert_file(files: Seq<FileView>, f: FileView) -> Seq<FileView>
    decreases files.len(),
{
    if files.len() > 0 && text::text_less(f.path, files.last().path) {
        insert_file(files.drop_last(), f).push(files.last())
    } else {
        files.push(f)
    }
}

/// What an operation comes to: a file is needed first, or the files have changed.
pub ghost enum Advance {
    Load(Seq<char>),
    Done(Seq<FileView>),
}

pub open spec fn with_content(files: Seq<FileView>, i: int, content: Option<Seq<char>>) -> Seq<
    FileView,
> {
    files.update(i, FileView { content, ..files[i] })
}

pub open spec fn patched_limit(max_bytes: nat, path: Seq<char>) -> Seq<char> {
    "patched file exceeds limit of "@ + text::decimal(max_bytes) + " bytes: "@ + path
}

/// What an update makes of the files, once the new content is known.
pub open spec fn moved(
    files: Seq<FileView>,
    i: int,
    path: Seq<char>,
    move_to: Option<Seq<char>>,
    content: Seq<char>,
) -> Result<Advance, Seq<char>> {
    match move_to {
        None => Ok(Advance::Done(with_content(files, i, Some(content)))),
        Some(target) => if path == target {
            Err("cannot move a file onto itself: "@ + path)
        } else {
            match find_in(files, target) {
                None => Ok(Advance::Load(target)),
                Some(j) => if files[j].content is Some {
                    Err("cannot move "@ + path + " onto existing file: "@ + target)
                } else {
                    Ok(
                        Advance::Done(
                            with_content(with_content(files, i, None), j, Some(content)),
                        ),
                    )
                },
            }
        },
    }
}

/// What an operation makes of the files.
pub open spec fn advanced(files: Seq<FileView>, operation: PatchOperationView, max_bytes: nat) -> Result<
    Advance,
    Seq<char>,
> {
    match operation {
        PatchOperationView::Add(path, content) => match find_in(files, path) {
            None => Ok(Advance::Load(path)),
            Some(i) => if files[i].content is Some {
                Err("cannot add existing file: "@ + path)
            } else if text::utf8_len(content) > max_bytes {
                Err(
                    "added file exceeds patch limit of "@ + text::decimal(max_bytes) + " bytes: "@
                        + path,
                )
            } else {
                Ok(Advance::Done(with_content(files, i, Some(content))))
            },
        },
        PatchOperationView::Update(path, move_to, hunks) => match find_in(files, path) {
            None => Ok(Advance::Load(path)),
            Some(i) => match files[i].content {
                None => Err("cannot update missing file: "@ + path),
                Some(old) => match hunks_applied(old, hunks) {
                    Err(m) => Err(path + ": "@ + m),
                    Ok(new) => if text::utf8_len(new) > max_bytes {
                        Err(patched_limit(max_bytes, path))
                    } else {
                        moved(files, i, path, move_to, new)
                    },
                },
            },
        },
        PatchOperationView::Delete(path) => match find_in(files, path) {
            None => Ok(Advance::Load(path)),
            Some(i) => if files[i].content is None {
                Err("cannot delete missing file: "@ + path)
            } else {
                Ok(Advance::Done(with_content(files, i, None)))
            },
        },
    }
}

/// The files of a patch on its way, in the order of their paths.
pub struct PatchFiles {
    pub files: Vec<FileState>,
}

fn locate(files: &Vec<FileState>, path: &str) -> (r: Option<usize>)
    ensures
        match r {
            Some(i) => find_in(file_views(files@), path@) == Some(i as int) && i < files@.len(),
            None => find_in(file_views(files@), path@) is None,
        },
{
    let ghost all = file_views(files@);
    let mut i: usize = 0;
    while i < files.len()
        invariant
            i <= files@.len(),
            all == file_views(files@),
            find_in(all, path@) == find_from(all, path@, i as int),
        decreases files@.len() - i,
    {
        proof {
            assert(all[i as int] == files@[i as int]@);
        }
        if text::same_text(files[i].path.as_str(), path) {
            return Some(i);
        }
        i += 1;
    }
    None
}

proof fn lemma_insert_file(files: Seq<FileView>, f: FileView, k: int)
    requires
        0 <= k <= files.len(),
        forall|j: int| k <= j < files.len() ==> text::text_less(f.path, (#[trigger] files[j]).path),
        k == 0 || !text::text_less(f.path, files[k - 1].path),
    ensures
        insert_file(files, f) == files.insert(k, f),
    decreases files.len(),
{
    if k == files.len() {
        assert(files.insert(k, f) =~= files.push(f));
    } else {
        assert(files.last() == files[files.len() - 1]);
        assert forall|j: int| k <= j < files.len() - 1 implies text::text_less(
            f.path,
            (#[trigger] files.drop_last()[j]).path,
        ) by {
            assert(files.drop_last()[j] == files[j]);
        }
        lemma_insert_file(files.drop_last(), f, k);
        assert(files.drop_last().insert(k, f).push(files.last()) =~= files.insert(k, f));
    }
}

fn same_content(a: &Option<String>, b: &Option<String>) -> (r: bool)
    ensures
        r == (text::opt_text(*a) == text::opt_text(*b)),
{
    match (a, b) {
        (Some(x), Some(y)) => text::same_text(x.as_str(), y.as_str()),
        (None, None) => true,
        _ => false,
    }
}

/// The files to write, with their contents.
pub open spec fn writes_of(files: Seq<FileView>) -> Seq<(Seq<char>, Seq<char>)>
    decreases files.len(),
{
    if files.len() == 0 {
        Seq::empty()
    } else {
        let f = files.last();
        let earlier = writes_of(files.drop_last());
        if f.original != f.content && f.content is Some {
            earlier.push((f.path, f.content->0))
        } else {
            earlier
        }
    }
}

/// The files to remove.
pub open spec fn removals_of(files: Seq<FileView>) -> Seq<Seq<char>>
    decreases files.len(),
{
    if files.len() == 0 {
        Seq::empty()
    } else {
        let f = files.last();
        let earlier = removals_of(files.drop_last());
        if f.original != f.content && f.content is None {
            earlier.push(f.path)
        } else {
            earlier
        }
    }
}

impl PatchFiles {
    pub open spec fn view(self) -> Seq<FileView> {
        file_views(self.files@)
    }

    pub fn new() -> (r: Self)
        ensures
            r.view() == Seq::<FileView>::empty(),
    {
        let r = PatchFiles { files: Vec::new() };
        proof {
            assert(r.view() =~= Seq::empty());
        }
        r
    }

    /// Takes in a file that an operation needs: its bytes, or none where it does
    /// not exist.
    pub fn load_file(&mut self, path: &str, bytes: Option<Vec<u8>>, max_bytes: usize) -> (r:
        model::Result<()>)
        ensures
            ({
                let complaint = match bytes {
                    Some(b) => tool_patch::file_complaint(b@, max_bytes as nat, ": "@ + path@),
                    None => None,
                };
                let content = match bytes {
                    Some(b) => Some(vstd::utf8::decode_utf8(b@)),
                    None => None,
                };
                if find_in(old(self).view(), path@) is Some {
                    r is Ok && final(self).view() == old(self).view()
                } else {
                    match complaint {
                        Some(m) => r is Err && r->Err_0@ == model::ErrorView::Tool(m)
                            && final(self).view() == old(self).view(),
                        None => r is Ok && final(self).view() == insert_file(
                            old(self).view(),
                            FileView { path: path@, original: content, content },
                        ),
                    }
                }
            }),
    {
        if locate(&self.files, path).is_some() {
            return Ok(());
        }
        let content = match bytes {
            None => None,
            Some(b) => {
                let suffix = text::cat2(": ", path);
                match tool_patch::file_text(b, max_bytes, suffix.as_str()) {
                    Ok(s) => Some(s),
                    Err(m) => return Err(Error::Tool(m)),
                }
            },
        };
        let original = match &content {
            Some(s) => Some(text::owned(s.as_str())),
            None => None,
        };
        let ghost all = self.view();
        let mut k: usize = self.files.len();
        while k > 0 && text::less(path, self.files[k - 1].path.as_str())
            invariant
                k <= self.files@.len(),
                all == file_views(self.files@),
                self.view() == old(self).view(),
                forall|j: int|
                    k <= j < all.len() ==> text::text_less(path@, (#[trigger] all[j]).path),
            decreases k,
        {
            proof {
                assert(all[k - 1] == self.files@[k - 1]@);
            }
            k -= 1;
        }
        let state = FileState { path: text::owned(path), original, content };
        let ghost shown = state@;
        proof {
            if k > 0 {
                assert(all[k - 1] == self.files@[k - 1]@);
            }
            lemma_insert_file(all, shown, k as int);
        }
        self.files.insert(k, state);
        proof {
            assert(self.view() =~= all.insert(k as int, shown));
        }
        Ok(())
    }

    fn set_content(&mut self, i: usize, content: Option<String>)
        requires
            i < old(self).files@.len(),
        ensures
            final(self).view() == with_content(
                old(self).view(),
                i as int,
                text::opt_text(content),
            ),
            final(self).files@.len() == old(self).files@.len(),
    {
        let ghost before = self.view();
        let ghost wanted = text::opt_text(content);
        self.files[i].content = content;
        proof {
            assert(self.view() =~= with_content(before, i as int, wanted));
        }
    }

    fn finish_update(&mut self, i: usize, path: &str, move_to: &Option<String>, content: String) -> (r:
        model::Result<Option<String>>)
        requires
            i < old(self).files@.len(),
        ensures
            match moved(old(self).view(), i as int, path@, text::opt_text(*move_to), content@) {
                Err(m) => r is Err && r->Err_0@ == model::ErrorView::Tool(m) && final(self).view()
                    == old(self).view(),
                Ok(Advance::Load(p)) => r is Ok && text::opt_text(r->Ok_0) == Some(p)
                    && final(self).view() == old(self).view(),
                Ok(Advance::Done(files)) => r is Ok && r->Ok_0 is None && final(self).view()
                    == files,
            },
    {
        match move_to {
            None => {
                self.set_content(i, Some(content));
                Ok(None)
            },
            Some(target) => {
                if text::same_text(path, target.as_str()) {
                    return Err(
                        Error::Tool(text::cat2("cannot move a file onto itself: ", path)),
                    );
                }
                match locate(&self.files, target.as_str()) {
                    None => Ok(Some(text::owned(target.as_str()))),
                    Some(j) => {
                        proof {
                            assert(self.view()[j as int] == self.files@[j as int]@);
                        }
                        if self.files[j].content.is_some() {
                            return Err(
                                Error::Tool(
                                    text::cat4(
                                        "cannot move ",
                                        path,
                                        " onto existing file: ",
                                        target.as_str(),
                                    ),
                                ),
                            );
                        }
                        self.set_content(i, None);
                        self.set_content(j, Some(content));
                        Ok(None)
                    },
                }
            },
        }
    }

    fn update(
        &mut self,
        path: &str,
        move_to: &Option<String>,
        hunks: &Vec<Hunk>,
        max_bytes: usize,
    ) -> (r: model::Result<Option<String>>)
        ensures
            match advanced(
                old(self).view(),
                PatchOperationView::Update(path@, text::opt_text(*move_to), hunk_views(hunks@)),
                max_bytes as nat,
            ) {
                Err(m) => r is Err && r->Err_0@ == model::ErrorView::Tool(m) && final(self).view()
                    == old(self).view(),
                Ok(Advance::Load(p)) => r is Ok && text::opt_text(r->Ok_0) == Some(p)
                    && final(self).view() == old(self).view(),
                Ok(Advance::Done(files)) => r is Ok && r->Ok_0 is None && final(self).view()
                    == files,
            },
    {
        let i: usize = match locate(&self.files, path) {
            None => return Ok(Some(text::owned(path))),
            Some(i) => i,
        };
        proof {
            assert(self.view()[i as int] == self.files@[i as int]@);
        }
        let new = match &self.files[i].content {
            None => return Err(Error::Tool(text::cat2("cannot update missing file: ", path))),
            Some(old_text) => match apply_hunks(old_text.as_str(), hunks) {
                Err(m) => return Err(Error::Tool(text::cat3(path, ": ", m.as_str()))),
                Ok(new) => new,
            },
        };
        if text::byte_len(new.as_str()) > max_bytes {
            return Err(
                Error::Tool(
                    text::cat4(
                        "patched file exceeds limit of ",
                        text::usize_text(max_bytes).as_str(),
                        " bytes: ",
                        path,
                    ),
                ),
            );
        }
        self.finish_update(i, path, move_to, new)
    }

    /// Carries out one operation. A path that comes back names a file that has
    /// to be loaded before the operation can be tried again.
    pub fn advance(&mut self, operation: &PatchOperation, max_bytes: usize) -> (r: model::Result<
        Option<String>,
    >)
        ensures
            match advanced(old(self).view(), operation@, max_bytes as nat) {
                Err(m) => r is Err && r->Err_0@ == model::ErrorView::Tool(m) && final(self).view()
                    == old(self).view(),
                Ok(Advance::Load(p)) => r is Ok && text::opt_text(r->Ok_0) == Some(p)
                    && final(self).view() == old(self).view(),
                Ok(Advance::Done(files)) => r is Ok && r->Ok_0 is None && final(self).view()
                    == files,
            },
    {
        match operation {
            PatchOperation::Add { path, content } => {
                let i: usize = match locate(&self.files, path.as_str()) {
                    None => return Ok(Some(text::owned(path.as_str()))),
                    Some(i) => i,
                };
                proof {
                    assert(self.view()[i as int] == self.files@[i as int]@);
                }
                if self.files[i].content.is_some() {
                    return Err(
                        Error::Tool(text::cat2("cannot add existing file: ", path.as_str())),
                    );
                }
                if text::byte_len(content.as_str()) > max_bytes {
                    return Err(
                        Error::Tool(
                            text::cat4(
                                "added file exceeds patch limit of ",
                                text::usize_text(max_bytes).as_str(),
                                " bytes: ",
                                path.as_str(),
                            ),
                        ),
                    );
                }
                self.set_content(i, Some(text::owned(content.as_str())));
                Ok(None)
            },
            PatchOperation::Update { path, move_to, hunks } => self.update(
                path.as_str(),
                move_to,
                hunks,
                max_bytes,
            ),
            PatchOperation::Delete { path } => {
                let i: usize = match locate(&self.files, path.as_str()) {
                    None => return Ok(Some(text::owned(path.as_str()))),
                    Some(i) => i,
                };
                proof {
                    assert(self.view()[i as int] == self.files@[i as int]@);
                }
                if self.files[i].content.is_none() {
                    return Err(
                        Error::Tool(text::cat2("cannot delete missing file: ", path.as_str())),
                    );
                }
                self.set_content(i, None);
                Ok(None)
            },
        }
    }

    /// The files to write: those that changed and still exist.
    pub fn writes(&self) -> (r: Vec<(String, String)>)
        ensures
            r@.map_values(|w: (String, String)| (w.0@, w.1@)) == writes_of(self.view()),
    {
        let ghost all = self.view();
        let mut out: Vec<(String, String)> = Vec::new();
        let mut i: usize = 0;
        proof {
            assert(all.take(0) =~= Seq::empty());
            assert(out@.map_values(|w: (String, String)| (w.0@, w.1@)) =~= Seq::empty());
        }
        while i < self.files.len()
            invariant
                i <= self.files@.len(),
                all == self.view(),
                out@.map_values(|w: (String, String)| (w.0@, w.1@)) == writes_of(
                    all.take(i as int),
                ),
            decreases self.files@.len() - i,
        {
            let f = &self.files[i];
            let ghost before = out@.map_values(|w: (String, String)| (w.0@, w.1@));
            proof {
                assert(all.take(i + 1).drop_last() =~= all.take(i as int));
                assert(all.take(i + 1).last() == f@);
            }
            if !same_content(&f.original, &f.content) {
                if let Some(content) = &f.content {
                    out.push((text::owned(f.path.as_str()), text::owned(content.as_str())));
                    proof {
                        assert(out@.map_values(|w: (String, String)| (w.0@, w.1@)) =~= before.push(
                            (f.path@, content@),
                        ));
                    }
                }
            }
            i += 1;
        }
        proof {
            assert(all.take(i as int) =~= all);
        }
        out
    }

    /// The files to remove: those that existed and no longer shall.
    pub fn removals(&self) -> (r: Vec<String>)
        ensures
            text::texts(r@) == removals_of(self.view()),
    {
        let ghost all = self.view();
        let mut out: Vec<String> = Vec::new();
        let mut i: usize = 0;
        proof {
            assert(all.take(0) =~= Seq::empty());
            assert(text::texts(out@) =~= Seq::empty());
        }
        while i < self.files.len()
            invariant
                i <= self.files@.len(),
                all == self.view(),
                text::texts(out@) == removals_of(all.take(i as int)),
            decreases self.files@.len() - i,
        {
            let f = &self.files[i];
            let ghost before = text::texts(out@);
            proof {
                assert(all.take(i + 1).drop_last() =~= all.take(i as int));
                assert(all.take(i + 1).last() == f@);
            }
            if !same_content(&f.original, &f.content) && f.content.is_none() {
                out.push(text::owned(f.path.as_str()));
                proof {
                    assert(text::texts(out@) =~= before.push(f.path@));
                }
            }
            i += 1;
        }
        proof {
            assert(all.take(i as int) =~= all);
        }
        out
    }
}

/// A file that was only looked at is neither written nor removed.
pub proof fn law_untouched_files_stay(files: Seq<FileView>)
    requires
        forall|i: int| 0 <= i < files.len() ==> (#[trigger] files[i]).original == files[i].content,
    ensures
        writes_of(files).len() == 0,
        removals_of(files).len() == 0,
    decreases files.len(),
{
    if files.len() > 0 {
        assert(files.last() == files[files.len() - 1]);
        assert forall|i: int| 0 <= i < files.drop_last().len() implies (
        #[trigger] files.drop_last()[i]).original == files.drop_last()[i].content by {
            assert(files.drop_last()[i] == files[i]);
        }
        law_untouched_files_stay(files.drop_last());
    }
}

/// How many operations are of each kind: added, updated, deleted and moved.
pub open spec fn tally(operations: Seq<PatchOperationView>) -> (nat, nat, nat, nat)
    decreases operations.len(),
{
    if operations.len() == 0 {
        (0, 0, 0, 0)
    } else {
        let (a, u, d, m) = tally(operations.drop_last());
        match operations.last() {
            PatchOperationView::Add(_, _) => (a + 1, u, d, m),
            PatchOperationView::Update(_, move_to, _) => (
                a,
                u + 1,
                d,
                if move_to is Some {
                    m + 1
                } else {
                    m
                },
            ),
            PatchOperationView::Delete(_) => (a, u, d + 1, m),
        }
    }
}

pub struct ToolPatchApplyPatch {
    pub id: ToolId,
    pub max_bytes: usize,
}

impl Default for ToolPatchApplyPatch {
    fn default() -> (r: Self)
        ensures
            ids::is_random(r.id.0),
            r.max_bytes == 1024 * 1024,
    {
        ToolPatchApplyPatch::new()
    }
}

impl ToolPatchApplyPatch {
    pub fn new() -> (r: Self)
        ensures
            ids::is_random(r.id.0),
            r.max_bytes == 1024 * 1024,
    {
        ToolPatchApplyPatch { id: ToolId(fresh()), max_bytes: 1024 * 1024 }
    }

    pub fn name(&self) -> (r: &'static str)
        ensures
            r@ == "apply_patch"@,
    {
        "apply_patch"
    }

    /// What is answered once all operations have been carried out.
    pub fn summary(&self, operations: &Vec<PatchOperation>) -> (r: String)
        ensures
            ({
                let (a, u, d, m) = tally(operation_views(operations@));
                r@ == "Applied patch: "@ + text::decimal(a) + " added, "@ + text::decimal(u)
                    + " updated, "@ + text::decimal(d) + " deleted, "@ + text::decimal(m)
                    + " moved"@
            }),
    {
        let ghost all = operation_views(operations@);
        let mut added: usize = 0;
        let mut updated: usize = 0;
        let mut deleted: usize = 0;
        let mut moved: usize = 0;
        let mut i: usize = 0;
        proof {
            assert(all.take(0) =~= Seq::empty());
        }
        while i < operations.len()
            invariant
                i <= operations@.len(),
                all == operation_views(operations@),
                (added as nat, updated as nat, deleted as nat, moved as nat) == tally(
                    all.take(i as int),
                ),
                added <= i,
                updated <= i,
                deleted <= i,
                moved <= i,
            decreases operations@.len() - i,
        {
            proof {
                assert(all.take(i + 1).drop_last() =~= all.take(i as int));
                assert(all.take(i + 1).last() == operations@[i as int]@);
            }
            match &operations[i] {
                PatchOperation::Add { .. } => {
                    added += 1;
                },
                PatchOperation::Update { move_to, .. } => {
                    updated += 1;
                    if move_to.is_some() {
                        moved += 1;
                    }
                },
                PatchOperation::Delete { .. } => {
                    deleted += 1;
                },
            }
            i += 1;
        }
        proof {
            assert(all.take(i as int) =~= all);
        }
        let mut out = text::cat5(
            "Applied patch: ",
            text::usize_text(added).as_str(),
            " added, ",
            text::usize_text(updated).as_str(),
            " updated, ",
        );
        out.push_str(text::usize_text(deleted).as_str());
        out.push_str(" deleted, ");
        out.push_str(text::usize_text(moved).as_str());
        out.push_str(" moved");
        out
    }

    /// The answer and the note for a patch that ended in a summary or an error text.
    pub fn conclude(&self, result: Result<String, String>) -> (r: (ToolOutput, NoteContent))
        ensures
            match result {
                Ok(content) => r.0@ == model::OutputView::Success(content@) && r.1@
                    == model::NoteView::Subtle(content@),
                Err(reason) => r.0@ == model::OutputView::Failure(reason@) && r.1@
                    == model::NoteView::Alert("Apply patch failed: "@ + reason@),
            },
    {
        match result {
            Ok(content) => {
                let note = text::owned(content.as_str());
                (ToolOutput::Success { content }, NoteContent::Subtle { content: note })
            },
            Err(content) => {
                let note = text::cat2("Apply patch failed: ", content.as_str());
                (ToolOutput::Failure { content }, NoteContent::Alert { content: note })
            },
        }
    }
}

pub struct ToolPatchApplyPatchPlugin {
    pub id: PluginId,
    pub tool: ToolPatchApplyPatch,
}

impl ToolPatchApplyPatchPlugin {
    pub fn new() -> (r: Self)
        ensures
            ids::is_random(r.id.0),
            r.tool.max_bytes == 1024 * 1024,
    {
        ToolPatchApplyPatchPlugin { id: PluginId(fresh()), tool: ToolPatchApplyPatch::new() }
    }

    pub fn name(&self) -> (r: &'static str)
        ensures
            r@ == "tool_patch_apply_patch"@,
    {
        "tool_patch_apply_patch"
    }
}

impl ToolPatchApplyPatch {
    /// How the tool is described to a provider; `prompt` explains its use, up to
    /// the blanks around it, and `schema` is that of its input.
    pub fn definition(&self, prompt: &str, schema: Json) -> (r: ToolDefinition)
        ensures
            r.name@ == "apply_patch"@,
            r.description@ == text::trimmed(prompt@),
            r.schema == schema,
            r.freeform is None,
    {
        ToolDefinition::new("apply_patch", text::trim(prompt), schema)
    }
}

// ---------------------------------------------------------------------------
// Laws
// ---------------------------------------------------------------------------

/// A line of a change: kept, taken out or put in.
pub ghost enum ChangeLine {
    Kept(Seq<char>),
    Out(Seq<char>),
    In(Seq<char>),
}

/// How the lines of a change are written in a patch.
pub open spec fn written(change: Seq<ChangeLine>) -> Seq<Seq<char>> {
    Seq::new(
        change.len(),
        |i: int|
            match change[i] {
                ChangeLine::Kept(t) => seq![' '] + t,
                ChangeLine::Out(t) => seq!['-'] + t,
                ChangeLine::In(t) => seq!['+'] + t,
            },
    )
}

/// What a change finds: the lines that it keeps and those that it takes out.
pub open spec fn found_by(change: Seq<ChangeLine>) -> Seq<char>
    decreases change.len(),
{
    if change.len() == 0 {
        Seq::empty()
    } else {
        (match change[0] {
            ChangeLine::Kept(t) => t.push('\n'),
            ChangeLine::Out(t) => t.push('\n'),
            ChangeLine::In(_) => Seq::empty(),
        }) + found_by(change.drop_first())
    }
}

/// What a change leaves: the lines that it keeps and those that it puts in.
pub open spec fn left_by(change: Seq<ChangeLine>) -> Seq<char>
    decreases change.len(),
{
    if change.len() == 0 {
        Seq::empty()
    } else {
        (match change[0] {
            ChangeLine::Kept(t) => t.push('\n'),
            ChangeLine::Out(_) => Seq::empty(),
            ChangeLine::In(t) => t.push('\n'),
        }) + left_by(change.drop_first())
    }
}

/// Whether line `i` ends what stands before it: it begins a hunk or an operation, or
/// it closes the patch.
pub open spec fn is_boundary(lines: Seq<Seq<char>>, i: int) -> bool {
    &&& 0 <= i < lines.len()
    &&& i + 1 == lines.len() || is_hunk_header(lines[i]) || is_marker(lines[i])
}

/// A change that is written line by line is read as what it finds and what it leaves.
pub proof fn law_changes_are_read_back(lines: Seq<Seq<char>>, i: int, change: Seq<ChangeLine>)
    requires
        0 <= i,
        is_boundary(lines, i + change.len()),
        lines.subrange(i, i + change.len()) == written(change),
    ensures
        hunk_body(lines, i) == Ok::<(HunkView, int), Seq<char>>(
            ((found_by(change), left_by(change)), i + change.len()),
        ),
    decreases change.len(),
{
    if change.len() > 0 {
        let rest = change.drop_first();
        let line = lines[i];
        assert(lines.subrange(i, i + change.len())[0] == line);
        assert(line == written(change)[0]);
        reveal_strlit("@@");
        reveal_strlit("*** ");
        assert(!is_hunk_header(line)) by {
            if is_hunk_header(line) {
                assert(line.subrange(0, 2)[0] == line[0]);
                assert("@@"@[0] == '@');
            }
        }
        assert(!is_marker(line)) by {
            if is_marker(line) {
                assert(line.subrange(0, 4)[0] == line[0]);
                assert("*** "@[0] == '*');
            }
        }
        assert(lines.subrange(i + 1, i + 1 + rest.len()) =~= written(rest)) by {
            assert forall|k: int| 0 <= k < rest.len() implies lines.subrange(
                i + 1,
                i + 1 + rest.len(),
            )[k] == #[trigger] written(rest)[k] by {
                assert(lines.subrange(i, i + change.len())[k + 1] == written(change)[k + 1]);
            }
        }
        law_changes_are_read_back(lines, i + 1, rest);
        let said = match change[0] {
            ChangeLine::Kept(t) => t,
            ChangeLine::Out(t) => t,
            ChangeLine::In(t) => t,
        };
        assert(line.skip(1) =~= said);
        assert(Seq::<char>::empty() + found_by(rest) =~= found_by(rest));
        assert(Seq::<char>::empty() + left_by(rest) =~= left_by(rest));
    }
}

/// An operation as an author means it.
pub ghost enum Meant {
    Add(Seq<char>, Seq<Seq<char>>),
    Update(Seq<char>, Option<Seq<char>>, Seq<Seq<ChangeLine>>),
    Delete(Seq<char>),
}

/// Lines, each with a line feed behind it.
pub open spec fn all_lines(lines: Seq<Seq<char>>) -> Seq<char>
    decreases lines.len(),
{
    if lines.len() == 0 {
        Seq::empty()
    } else {
        lines[0].push('\n') + all_lines(lines.drop_first())
    }
}

/// How hunks are written in a patch.
pub open spec fn hunk_lines(changes: Seq<Seq<ChangeLine>>) -> Seq<Seq<char>>
    decreases changes.len(),
{
    if changes.len() == 0 {
        Seq::empty()
    } else {
        seq!["@@"@] + written(changes[0]) + hunk_lines(changes.drop_first())
    }
}

/// How an operation is written in a patch.
pub open spec fn operation_lines(meant: Meant) -> Seq<Seq<char>> {
    match meant {
        Meant::Add(path, content) => seq!["*** Add File: "@ + path] + Seq::new(
            content.len(),
            |i: int| seq!['+'] + content[i],
        ),
        Meant::Update(path, None, changes) => seq!["*** Update File: "@ + path] + hunk_lines(
            changes,
        ),
        Meant::Update(path, Some(target), changes) => seq![
            "*** Update File: "@ + path,
            "*** Move to: "@ + target,
        ] + hunk_lines(changes),
        Meant::Delete(path) => seq!["*** Delete File: "@ + path],
    }
}

/// How operations are written in a patch.
pub open spec fn patch_lines(meant: Seq<Meant>) -> Seq<Seq<char>>
    decreases meant.len(),
{
    if meant.len() == 0 {
        Seq::empty()
    } else {
        operation_lines(meant[0]) + patch_lines(meant.drop_first())
    }
}

/// Whether a path can be written in a patch: there is one, without blanks around it.
pub open spec fn is_plain(path: Seq<char>) -> bool {
    path.len() > 0 && !text::is_whitespace(path[0]) && !text::is_whitespace(path.last())
}

/// Whether an operation can be written in a patch. Each change changes something.
pub open spec fn is_writable(meant: Meant) -> bool {
    match meant {
        Meant::Add(path, _) => is_plain(path),
        Meant::Update(path, target, changes) => {
            &&& is_plain(path)
            &&& target matches Some(t) ==> is_plain(t)
            &&& changes.len() > 0
            &&& forall|i: int|
                0 <= i < changes.len() ==> found_by(#[trigger] changes[i]) != left_by(changes[i])
        },
        Meant::Delete(path) => is_plain(path),
    }
}

/// What an operation that was written in a patch does.
pub open spec fn means(meant: Meant) -> PatchOperationView {
    match meant {
        Meant::Add(path, content) => PatchOperationView::Add(path, all_lines(content)),
        Meant::Update(path, target, changes) => PatchOperationView::Update(
            path,
            target,
            changes.map_values(|c: Seq<ChangeLine>| (found_by(c), left_by(c))),
        ),
        Meant::Delete(path) => PatchOperationView::Delete(path),
    }
}

proof fn lemma_plain_header(marker: Seq<char>, path: Seq<char>)
    requires
        is_plain(path),
    ensures
        header_path(marker + path, marker) == Some(path),
{
    let line = marker + path;
    assert(line.subrange(0, marker.len() as int) =~= marker);
    assert(line.skip(marker.len() as int) =~= path);
    text::lemma_trimmed_at(path, 0, path.len() as int);
    assert(path.subrange(0, path.len() as int) =~= path);
}

proof fn lemma_other_header(line: Seq<char>, marker: Seq<char>, k: int)
    requires
        0 <= k < marker.len(),
        k < line.len() ==> line[k] != marker[k],
    ensures
        header_path(line, marker) is None,
        !text::starts_with(line, marker),
{
    if text::starts_with(line, marker) {
        assert(line.subrange(0, marker.len() as int)[k] == line[k]);
    }
}

proof fn lemma_hunks_read_back(lines: Seq<Seq<char>>, i: int, changes: Seq<Seq<ChangeLine>>)
    requires
        0 <= i,
        i + hunk_lines(changes).len() < lines.len(),
        i + hunk_lines(changes).len() + 1 == lines.len() || is_marker(
            lines[i + hunk_lines(changes).len()],
        ),
        lines.subrange(i, i + hunk_lines(changes).len()) == hunk_lines(changes),
        forall|k: int|
            0 <= k < changes.len() ==> found_by(#[trigger] changes[k]) != left_by(changes[k]),
    ensures
        hunks_from(lines, i) == Ok::<(Seq<HunkView>, int), Seq<char>>(
            (
                changes.map_values(|c: Seq<ChangeLine>| (found_by(c), left_by(c))),
                i + hunk_lines(changes).len(),
            ),
        ),
    decreases changes.len(),
{
    let views = changes.map_values(|c: Seq<ChangeLine>| (found_by(c), left_by(c)));
    if changes.len() == 0 {
        assert(views =~= Seq::empty());
    } else {
        let change = changes[0];
        let rest = changes.drop_first();
        let all = hunk_lines(changes);
        let more = hunk_lines(rest);
        let end = i + 1 + change.len();
        let here = lines.subrange(i, i + all.len());
        assert(all.len() == 1 + change.len() + more.len());
        assert(here[0] == lines[i] && all[0] == "@@"@);
        reveal_strlit("@@");
        reveal_strlit("*** ");
        assert("@@"@.subrange(0, 2) =~= "@@"@);
        assert(is_hunk_header(lines[i]));
        lemma_other_header(lines[i], "*** "@, 0);
        assert(lines.subrange(i + 1, end) =~= written(change)) by {
            assert forall|k: int| 0 <= k < change.len() implies lines.subrange(i + 1, end)[k]
                == #[trigger] written(change)[k] by {
                assert(here[k + 1] == all[k + 1]);
            }
        }
        assert(lines.subrange(end, end + more.len()) =~= more) by {
            assert forall|k: int| 0 <= k < more.len() implies lines.subrange(
                end,
                end + more.len(),
            )[k] == #[trigger] more[k] by {
                assert(here[k + 1 + change.len()] == all[k + 1 + change.len()]);
            }
        }
        if rest.len() > 0 {
            assert(more[0] == "@@"@);
            assert(lines.subrange(end, end + more.len())[0] == lines[end]);
            assert(is_hunk_header(lines[end]));
        }
        law_changes_are_read_back(lines, i + 1, change);
        assert forall|k: int| 0 <= k < rest.len() implies found_by(#[trigger] rest[k]) != left_by(
            rest[k],
        ) by {
            assert(rest[k] == changes[k + 1]);
        }
        lemma_hunks_read_back(lines, end, rest);
        let later = rest.map_values(|c: Seq<ChangeLine>| (found_by(c), left_by(c)));
        assert(views =~= seq![(found_by(change), left_by(change))] + later) by {
            assert forall|k: int| 1 <= k < views.len() implies views[k] == #[trigger] later[k
                - 1] by {
                assert(rest[k - 1] == changes[k]);
            }
        }
    }
}

proof fn lemma_added_read_back(
    lines: Seq<Seq<char>>,
    i: int,
    path: Seq<char>,
    content: Seq<Seq<char>>,
)
    requires
        0 <= i,
        i + content.len() < lines.len(),
        i + content.len() + 1 == lines.len() || is_marker(lines[i + content.len()]),
        forall|k: int|
            0 <= k < content.len() ==> #[trigger] lines[i + k] == seq!['+'] + content[k],
    ensures
        added_content(lines, i, path) == Ok::<(Seq<char>, int), Seq<char>>(
            (all_lines(content), i + content.len()),
        ),
    decreases content.len(),
{
    if content.len() > 0 {
        let rest = content.drop_first();
        assert(lines[i + 0] == seq!['+'] + content[0]);
        reveal_strlit("*** ");
        lemma_other_header(lines[i], "*** "@, 0);
        assert forall|k: int| 0 <= k < rest.len() implies #[trigger] lines[i + 1 + k] == seq!['+']
            + rest[k] by {
            assert(lines[i + (k + 1)] == seq!['+'] + content[k + 1]);
        }
        lemma_added_read_back(lines, i + 1, path, rest);
        assert(lines[i].skip(1) =~= content[0]);
        assert(lines[i].skip(1) + seq!['\n'] + all_lines(rest) =~= content[0].push('\n')
            + all_lines(rest));
    }
}

proof fn lemma_operation_read_back(lines: Seq<Seq<char>>, i: int, meant: Meant)
    requires
        0 <= i,
        is_writable(meant),
        i + operation_lines(meant).len() < lines.len(),
        is_marker(lines[i + operation_lines(meant).len()]),
        lines.subrange(i, i + operation_lines(meant).len()) == operation_lines(meant),
    ensures
        operation_at(lines, i) == Ok::<(PatchOperationView, int), Seq<char>>(
            (means(meant), i + operation_lines(meant).len()),
        ),
{
    let all = operation_lines(meant);
    let here = lines.subrange(i, i + all.len());
    assert(here[0] == lines[i]);
    reveal_strlit("*** Add File: ");
    reveal_strlit("*** Delete File: ");
    reveal_strlit("*** Update File: ");
    reveal_strlit("*** Move to: ");
    reveal_strlit("*** ");
    reveal_strlit("@@");
    let header = lines[i];
    match meant {
        Meant::Add(path, content) => {
            lemma_plain_header("*** Add File: "@, path);
            assert forall|k: int| 0 <= k < content.len() implies #[trigger] lines[i + 1 + k]
                == seq!['+'] + content[k] by {
                assert(here[k + 1] == all[k + 1]);
            }
            lemma_added_read_back(lines, i + 1, path, content);
        },
        Meant::Delete(path) => {
            lemma_other_header(header, "*** Add File: "@, 4);
            lemma_plain_header("*** Delete File: "@, path);
        },
        Meant::Update(path, target, changes) => {
            lemma_other_header(header, "*** Add File: "@, 4);
            lemma_other_header(header, "*** Delete File: "@, 4);
            lemma_plain_header("*** Update File: "@, path);
            let more = hunk_lines(changes);
            assert(more.len() > 0 && more[0] == "@@"@);
            let start = match target {
                Some(t) => i + 2,
                None => i + 1,
            };
            assert(here[1] == lines[i + 1] && here[1] == all[1]);
            if let Some(t) = target {
                lemma_plain_header("*** Move to: "@, t);
            } else {
                lemma_other_header(lines[i + 1], "*** Move to: "@, 0);
            }
            assert(lines.subrange(start, start + more.len()) =~= more) by {
                assert forall|k: int| 0 <= k < more.len() implies lines.subrange(
                    start,
                    start + more.len(),
                )[k] == #[trigger] more[k] by {
                    assert(here[k + (start - i)] == all[k + (start - i)]);
                }
            }
            lemma_hunks_read_back(lines, start, changes);
            assert(means(meant)->Update_2.len() > 0);
        },
    }
}

proof fn lemma_operations_read_back(lines: Seq<Seq<char>>, i: int, meant: Seq<Meant>)
    requires
        0 <= i,
        i + patch_lines(meant).len() + 1 == lines.len(),
        lines.last() == "*** End Patch"@,
        lines.subrange(i, i + patch_lines(meant).len()) == patch_lines(meant),
        forall|k: int| 0 <= k < meant.len() ==> is_writable(#[trigger] meant[k]),
    ensures
        operations_from(lines, i) == Ok::<Seq<PatchOperationView>, Seq<char>>(
            meant.map_values(|m: Meant| means(m)),
        ),
    decreases meant.len(),
{
    let views = meant.map_values(|m: Meant| means(m));
    if meant.len() == 0 {
        assert(views =~= Seq::empty());
    } else {
        let first = operation_lines(meant[0]);
        let rest = meant.drop_first();
        let more = patch_lines(rest);
        let all = patch_lines(meant);
        let here = lines.subrange(i, i + all.len());
        let end = i + first.len();
        assert(first.len() > 0);
        assert(lines.subrange(i, end) =~= first) by {
            assert forall|k: int| 0 <= k < first.len() implies lines.subrange(i, end)[k]
                == #[trigger] first[k] by {
                assert(here[k] == all[k]);
            }
        }
        assert(lines.subrange(end, end + more.len()) =~= more) by {
            assert forall|k: int| 0 <= k < more.len() implies lines.subrange(
                end,
                end + more.len(),
            )[k] == #[trigger] more[k] by {
                assert(here[k + first.len()] == all[k + first.len()]);
            }
        }
        reveal_strlit("*** ");
        reveal_strlit("*** End Patch");
        reveal_strlit("*** Add File: ");
        reveal_strlit("*** Delete File: ");
        reveal_strlit("*** Update File: ");
        assert(is_marker(lines[end])) by {
            if rest.len() > 0 {
                assert(lines.subrange(end, end + more.len())[0] == lines[end]);
                assert(more[0] == operation_lines(rest[0])[0]);
            }
            assert(lines[end].subrange(0, 4) =~= "*** "@);
        }
        lemma_operation_read_back(lines, i, meant[0]);
        assert forall|k: int| 0 <= k < rest.len() implies is_writable(#[trigger] rest[k]) by {
            assert(rest[k] == meant[k + 1]);
        }
        lemma_operations_read_back(lines, end, rest);
        let later = rest.map_values(|m: Meant| means(m));
        assert(views =~= seq![means(meant[0])] + later) by {
            assert forall|k: int| 1 <= k < views.len() implies views[k] == #[trigger] later[k
                - 1] by {
                assert(rest[k - 1] == meant[k]);
            }
        }
    }
}

/// A patch says what its author means: added files hold the lines that were given,
/// each change finds the lines that it keeps and takes out and leaves those that it
/// keeps and puts in, and every operation is on the file that it names.
pub proof fn law_patches_are_read_back(meant: Seq<Meant>, input: Seq<char>)
    requires
        meant.len() > 0,
        forall|k: int| 0 <= k < meant.len() ==> is_writable(#[trigger] meant[k]),
        text::lines_of(input) == seq!["*** Begin Patch"@] + patch_lines(meant) + seq![
            "*** End Patch"@,
        ],
    ensures
        read_patch(input) == Ok::<Seq<PatchOperationView>, Seq<char>>(
            meant.map_values(|m: Meant| means(m)),
        ),
{
    let lines = text::lines_of(input);
    let all = patch_lines(meant);
    assert(lines.subrange(1, 1 + all.len() as int) =~= all);
    assert(lines[0] == "*** Begin Patch"@);
    lemma_operations_read_back(lines, 1, meant);
}

proof fn lemma_found_ends(change: Seq<ChangeLine>)
    ensures
        found_by(change).len() > 0 ==> found_by(change).last() == '\n',
        left_by(change).len() > 0 ==> left_by(change).last() == '\n',
    decreases change.len(),
{
    if change.len() > 0 {
        lemma_found_ends(change.drop_first());
    }
}

/// Where what a change finds stands exactly once in a file, what it leaves takes its
/// place, and all else of the file stays. So every line that the change keeps stands in
/// the file afterwards, and those that it takes out are gone from that place.
pub proof fn law_changes_are_made(before: Seq<char>, change: Seq<ChangeLine>, after: Seq<char>)
    requires
        found_by(change).len() > 0,
        forall|i: int|
            text::matches_at(before + found_by(change) + after, found_by(change), i) ==> i
                == before.len(),
    ensures
        hunk_applied(before + found_by(change) + after, (found_by(change), left_by(change))) == Ok::<
            Seq<char>,
            Seq<char>,
        >(before + left_by(change) + after),
{
    let target = found_by(change);
    let source = before + target + after;
    let at = before.len() as int;
    lemma_found_ends(change);
    assert(source.subrange(at, at + target.len()) =~= target);
    assert(text::matches_at(source, target, at));
    lemma_once(source, target, at);
    assert(source.take(at) =~= before);
    assert(source.skip(at + target.len()) =~= after);
}

proof fn lemma_once(source: Seq<char>, target: Seq<char>, at: int)
    requires
        target.len() > 0,
        text::matches_at(source, target, at),
        forall|i: int| text::matches_at(source, target, i) ==> i == at,
    ensures
        text::count_of(source, target) == 1,
        text::first_match(source, target, 0) == Some(at),
{
    text::lemma_first_match(source, target, 0);
    text::lemma_first_match(source, target, at + target.len());
    if let Some(i) = text::first_match(source, target, 0) {
        assert(text::matches_at(source, target, i));
    }
    if let Some(i) = text::first_match(source, target, at + target.len()) {
        assert(text::matches_at(source, target, i));
    }
    assert(text::first_match(source, target, at + target.len()) is None);
    assert(text::count_from(source, target, at + target.len()) == 0);
}

/// A hunk that was applied has put the text that it leaves in the place of the text
/// that it finds, but for line feeds at the end where the file lacks one there. Text
/// that stands nowhere, or at two places apart, is not replaced.
pub proof fn law_hunks_replace_what_they_find(source: Seq<char>, hunk: HunkView, i: int, j: int)
    ensures
        hunk_applied(source, hunk) matches Ok(new) ==> exists|a: int, b: int|
            #![trigger source.subrange(a, b)]
            {
                let found = source.subrange(a, b);
                &&& 0 <= a <= b <= source.len()
                &&& found == hunk.0 || found.push('\n') == hunk.0
                &&& found.len() > 0 && found.last() == '\n' ==> new == source.take(a) + hunk.1
                    + source.skip(b)
                &&& found.len() == 0 || found.last() != '\n' ==> new == source.take(a)
                    + text::trim_end_by(hunk.1, |c: char| c == '\n') + source.skip(b)
            },
        hunk.0.len() > 0 && text::matches_at(source, hunk.0, i) && text::matches_at(
            source,
            hunk.0,
            j,
        ) && i + hunk.0.len() <= j ==> hunk_applied(source, hunk) is Err,
        hunk.0.len() > 1 && !text::has_text(source, hunk.0) && !text::has_text(
            source,
            hunk.0.drop_last(),
        ) ==> hunk_applied(source, hunk) is Err,
{
    if let Some(target) = hunk_target(source, hunk.0) {
        text::lemma_first_match(source, target, 0);
        if hunk_applied(source, hunk) is Ok {
            let a = text::first_match(source, target, 0)->0;
            let b = a + target.len();
            assert(source.subrange(a, b) == target);
            if target != hunk.0 {
                assert(target.push('\n') =~= hunk.0);
            }
        }
        if hunk.0.len() > 0 && text::matches_at(source, hunk.0, i) && text::matches_at(
            source,
            hunk.0,
            j,
        ) && i + hunk.0.len() <= j {
            assert(target == hunk.0);
            let first = text::first_match(source, target, 0)->0;
            assert(first <= i);
            text::lemma_first_match(source, target, first + target.len());
            assert(text::count_from(source, target, first + target.len()) >= 1);
        }
    }
}

/// What a file holds among those of a patch.
pub open spec fn content_at(files: Seq<FileView>, path: Seq<char>) -> Option<Option<Seq<char>>> {
    if exists|i: int| 0 <= i < files.len() && (#[trigger] files[i]).path == path {
        Some(
            files[choose|i: int| 0 <= i < files.len() && (#[trigger] files[i]).path == path].content,
        )
    } else {
        None
    }
}

/// Whether no two files of a patch have one path.
pub open spec fn each_once(files: Seq<FileView>) -> bool {
    forall|i: int, j: int|
        0 <= i < files.len() && 0 <= j < files.len() && (#[trigger] files[i]).path == (
        #[trigger] files[j]).path ==> i == j
}

proof fn lemma_find_in(files: Seq<FileView>, path: Seq<char>, from: int)
    requires
        0 <= from,
    ensures
        find_from(files, path, from) matches Some(i) ==> from <= i < files.len() && files[i].path
            == path,
        find_from(files, path, from) is None ==> forall|i: int|
            from <= i < files.len() ==> (#[trigger] files[i]).path != path,
    decreases files.len() - from,
{
    if from < files.len() && files[from].path != path {
        lemma_find_in(files, path, from + 1);
    }
}

/// An operation changes the files that it names and no other: an added file holds its
/// content, a deleted one is gone, an updated one holds what its hunks made of it, and
/// a moved one is gone from its old path and stands at the new one. What the files held
/// at first stays known.
pub proof fn law_operations_change_their_files(
    files: Seq<FileView>,
    operation: PatchOperationView,
    max_bytes: nat,
    other: Seq<char>,
)
    requires
        each_once(files),
        advanced(files, operation, max_bytes) matches Ok(Advance::Done(_)),
    ensures
        ({
            let done = advanced(files, operation, max_bytes)->Ok_0->Done_0;
            &&& done.len() == files.len()
            &&& forall|i: int|
                0 <= i < files.len() ==> (#[trigger] done[i]).path == files[i].path
                    && done[i].original == files[i].original
            &&& match operation {
                PatchOperationView::Add(path, content) => {
                    &&& content_at(files, path) == Some(None::<Seq<char>>)
                    &&& content_at(done, path) == Some(Some(content))
                    &&& text::utf8_len(content) <= max_bytes
                    &&& other != path ==> content_at(done, other) == content_at(files, other)
                },
                PatchOperationView::Delete(path) => {
                    &&& content_at(files, path) matches Some(Some(_))
                    &&& content_at(done, path) == Some(None::<Seq<char>>)
                    &&& other != path ==> content_at(done, other) == content_at(files, other)
                },
                PatchOperationView::Update(path, None, hunks) => {
                    &&& content_at(files, path) matches Some(Some(now)) && hunks_applied(now, hunks)
                        == Ok::<Seq<char>, Seq<char>>(content_at(done, path)->0->0)
                    &&& content_at(done, path) matches Some(Some(new)) && text::utf8_len(new)
                        <= max_bytes
                    &&& other != path ==> content_at(done, other) == content_at(files, other)
                },
                PatchOperationView::Update(path, Some(target), hunks) => {
                    &&& path != target
                    &&& content_at(files, target) == Some(None::<Seq<char>>)
                    &&& content_at(files, path) matches Some(Some(now)) && hunks_applied(now, hunks)
                        == Ok::<Seq<char>, Seq<char>>(content_at(done, target)->0->0)
                    &&& content_at(done, target) matches Some(Some(_))
                    &&& content_at(done, path) == Some(None::<Seq<char>>)
                    &&& other != path && other != target ==> content_at(done, other) == content_at(
                        files,
                        other,
                    )
                },
            }
        }),
{
    let done = advanced(files, operation, max_bytes)->Ok_0->Done_0;
    let path = match operation {
        PatchOperationView::Add(p, _) => p,
        PatchOperationView::Delete(p) => p,
        PatchOperationView::Update(p, _, _) => p,
    };
    lemma_find_in(files, path, 0);
    let i = find_in(files, path)->0;
    assert(files[i].path == path);
    let j = match operation {
        PatchOperationView::Update(_, Some(t), _) => {
            lemma_find_in(files, t, 0);
            find_in(files, t)->0
        },
        _ => i,
    };
    assert(done[i].path == path && done[j].path == files[j].path);
    lemma_content_at(files, i);
    lemma_content_at(files, j);
    assert(each_once(done)) by {
        assert forall|a: int, b: int|
            0 <= a < done.len() && 0 <= b < done.len() && (#[trigger] done[a]).path == (
            #[trigger] done[b]).path implies a == b by {
            assert(files[a].path == files[b].path);
        }
    }
    lemma_content_at(done, i);
    lemma_content_at(done, j);
    if exists|k: int| 0 <= k < files.len() && (#[trigger] files[k]).path == other {
        let k = choose|k: int| 0 <= k < files.len() && (#[trigger] files[k]).path == other;
        assert(done[k].path == other);
        lemma_content_at(files, k);
        lemma_content_at(done, k);
    } else {
        assert forall|k: int| 0 <= k < done.len() implies (#[trigger] done[k]).path != other by {
            assert(files[k].path != other);
        }
    }
}

proof fn lemma_content_at(files: Seq<FileView>, i: int)
    requires
        each_once(files),
        0 <= i < files.len(),
    ensures
        content_at(files, files[i].path) == Some(files[i].content),
{
    let path = files[i].path;
    let k = choose|k: int| 0 <= k < files.len() && (#[trigger] files[k]).path == path;
    assert(files[i].path == path);
    assert(files[k].path == files[i].path);
}

/// Whether a file at a path existed at first and no longer does.
pub open spec fn is_gone(file: FileView, path: Seq<char>) -> bool {
    file.path == path && file.content is None && file.original is Some
}

/// Whether a file at a path exists with a content that it did not have at first.
pub open spec fn is_changed(file: FileView, path: Seq<char>, content: Seq<char>) -> bool {
    file.path == path && file.content == Some(content) && file.original != Some(content)
}

proof fn lemma_written(files: Seq<FileView>, path: Seq<char>, content: Seq<char>)
    ensures
        writes_of(files).contains((path, content)) <==> exists|i: int|
            0 <= i < files.len() && #[trigger] is_changed(files[i], path, content),
    decreases files.len(),
{
    let all = writes_of(files);
    if files.len() > 0 {
        let front = files.drop_last();
        let earlier = writes_of(front);
        lemma_written(front, path, content);
        if earlier.contains((path, content)) {
            let k = earlier.index_of((path, content));
            assert(all[k] == earlier[k]);
            let i = choose|i: int|
                0 <= i < front.len() && #[trigger] is_changed(front[i], path, content);
            assert(is_changed(files[i], path, content));
        }
        if is_changed(files.last(), path, content) {
            assert(all[earlier.len() as int] == (path, content));
            assert(is_changed(files[files.len() - 1], path, content));
        }
        if exists|i: int| 0 <= i < files.len() && #[trigger] is_changed(files[i], path, content) {
            let i = choose|i: int|
                0 <= i < files.len() && #[trigger] is_changed(files[i], path, content);
            if i < front.len() {
                assert(is_changed(front[i], path, content));
            }
        }
        if all.contains((path, content)) {
            let k = all.index_of((path, content));
            if k < earlier.len() {
                assert(earlier[k] == all[k]);
            }
        }
    }
}

proof fn lemma_removed(files: Seq<FileView>, path: Seq<char>)
    ensures
        removals_of(files).contains(path) <==> exists|i: int|
            0 <= i < files.len() && #[trigger] is_gone(files[i], path),
    decreases files.len(),
{
    let all = removals_of(files);
    if files.len() > 0 {
        let front = files.drop_last();
        let earlier = removals_of(front);
        lemma_removed(front, path);
        if earlier.contains(path) {
            let k = earlier.index_of(path);
            assert(all[k] == earlier[k]);
            let i = choose|i: int| 0 <= i < front.len() && #[trigger] is_gone(front[i], path);
            assert(is_gone(files[i], path));
        }
        if is_gone(files.last(), path) {
            assert(all[earlier.len() as int] == path);
            assert(is_gone(files[files.len() - 1], path));
        }
        if exists|i: int| 0 <= i < files.len() && #[trigger] is_gone(files[i], path) {
            let i = choose|i: int| 0 <= i < files.len() && #[trigger] is_gone(files[i], path);
            if i < front.len() {
                assert(is_gone(front[i], path));
            }
        }
        if all.contains(path) {
            let k = all.index_of(path);
            if k < earlier.len() {
                assert(earlier[k] == all[k]);
            }
        }
    }
}

/// A file is written exactly where it exists in the end with a content that it did not
/// have at first, with that content. It is removed exactly where it existed at first
/// and no longer does.
pub proof fn law_changed_files_are_written(
    files: Seq<FileView>,
    path: Seq<char>,
    content: Seq<char>,
)
    ensures
        writes_of(files).contains((path, content)) <==> exists|i: int|
            0 <= i < files.len() && (#[trigger] files[i]).path == path && files[i].content == Some(
                content,
            ) && files[i].original != Some(content),
        removals_of(files).contains(path) <==> exists|i: int|
            0 <= i < files.len() && (#[trigger] files[i]).path == path && files[i].content is None
                && files[i].original is Some,
{
    lemma_written(files, path, content);
    lemma_removed(files, path);
    if writes_of(files).contains((path, content)) {
        let i = choose|i: int|
            0 <= i < files.len() && #[trigger] is_changed(files[i], path, content);
        assert(files[i].path == path);
    }
    if exists|i: int|
        0 <= i < files.len() && (#[trigger] files[i]).path == path && files[i].content == Some(
            content,
        ) && files[i].original != Some(content) {
        let i = choose|i: int|
            0 <= i < files.len() && (#[trigger] files[i]).path == path && files[i].content == Some(
                content,
            ) && files[i].original != Some(content);
        assert(is_changed(files[i], path, content));
    }
    if removals_of(files).contains(path) {
        let i = choose|i: int| 0 <= i < files.len() && #[trigger] is_gone(files[i], path);
        assert(files[i].path == path);
    }
    if exists|i: int|
        0 <= i < files.len() && (#[trigger] files[i]).path == path && files[i].content is None
            && files[i].original is Some {
        let i = choose|i: int|
            0 <= i < files.len() && (#[trigger] files[i]).path == path && files[i].content is None
                && files[i].original is Some;
        assert(is_gone(files[i], path));
    }
}

} // verus!
