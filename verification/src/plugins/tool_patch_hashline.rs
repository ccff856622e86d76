//! Edits of files by line anchors: an operation names lines by number and tag,
//! and applies only where the tags still fit the file.
use crate::ids;
use crate::ids::fresh;
use crate::ids::{PluginId, ToolId};
use crate::json::Json;
use crate::model;
use crate::model::{NoteContent, ToolDefinition, ToolOutput};
use crate::text;
use crate::utils::hashline;
use crate::utils::hashline::{Anchor, HashLine};
use vstd::prelude::*;
use vstd::slice::slice_subrange;
use vstd::string::StrSliceExecFns;

verus! {

pub const PATCH_FORMAT: &'static str = "Expected format:\nREPLACE path FROM line:hash TO line:hash <<<TAG\ncontent\nTAG\nINSERT path BEFORE line:hash <<<TAG\ncontent\nTAG\nINSERT path AFTER line:hash <<<TAG\ncontent\nTAG\nDELETE path FROM line:hash TO line:hash";

/// An operation as the model asks for it.
#[derive(Clone, Debug, PartialEq, Eq)]
pub enum PatchHashlineOperation {
    InsertBefore { path: String, anchor: String, content: String },
    InsertAfter { path: String, anchor: String, content: String },
    Replace { path: String, anchor_start: String, anchor_end: String, content: String },
    Delete { path: String, anchor_start: String, anchor_end: String },
}

#[derive(Clone, Copy, Debug, PartialEq, Eq, Structural)]
pub enum OperationKind {
    Delete,
    Replace,
    InsertBefore,
    InsertAfter,
}

/// An operation whose path and anchors have been read.
#[derive(Clone, Debug)]
pub struct Operation {
    pub kind: OperationKind,
    pub path: String,
    pub start: Anchor,
    /// The last line, for an operation on a range.
    pub end: Option<Anchor>,
    pub body: String,
}

/// An operation in mathematical terms.
pub ghost struct OperationView {
    pub kind: OperationKind,
    pub path: Seq<char>,
    pub start: (nat, Seq<char>),
    pub end: Option<(nat, Seq<char>)>,
    pub body: Seq<char>,
}

impl View for Operation {
    type V = OperationView;

    open spec fn view(&self) -> OperationView {
        OperationView {
            kind: self.kind,
            path: self.path@,
            start: self.start.parts(),
            end: match self.end {
                Some(a) => Some(a.parts()),
                None => None,
            },
            body: self.body@,
        }
    }
}

impl Operation {
    /// Ranges have two anchors, insertions one.
    pub open spec fn wf(self) -> bool {
        self.end is Some == (self.kind is Delete || self.kind is Replace)
    }
}

// ---------------------------------------------------------------------------
// Reading an operation
// ---------------------------------------------------------------------------

pub open spec fn is_alphanumeric(c: char) -> bool {
    48 <= c as u32 <= 57 || 65 <= c as u32 <= 90 || 97 <= c as u32 <= 122
}

pub open spec fn all_alphanumeric(s: Seq<char>) -> bool {
    forall|i: int| 0 <= i < s.len() ==> is_alphanumeric(#[trigger] s[i])
}

/// The path that an operation names, or what is wrong with it.
pub open spec fn read_path(value: Seq<char>) -> Result<Seq<char>, Seq<char>> {
    let path = text::trimmed(value);
    if path.len() == 0 || text::has_text(path, "@@"@) {
        Err("patch path cannot be empty or contain @@"@)
    } else {
        Ok(path)
    }
}

/// The anchor that an operation names, or what is wrong with it.
pub open spec fn read_anchor(value: Seq<char>) -> Result<(nat, Seq<char>), Seq<char>> {
    match text::split_once(text::trimmed(value), ':') {
        None => Err("anchor must have the form '<line>:<3-character-hash>'"@),
        Some((line, tag)) => match text::parsed_upto(line, usize::MAX as nat) {
            None => Err("anchor line must be a positive number"@),
            Some(n) => if n == 0 {
                Err("anchor line must be a positive number"@)
            } else if tag.len() != 3 || !all_alphanumeric(tag) {
                Err("anchor hash must contain exactly three alphanumeric characters"@)
            } else {
                Ok((n, tag))
            },
        },
    }
}

/// The operation that is asked for, or what is wrong with the first bad part.
pub open spec fn read_parts(
    kind: OperationKind,
    path: Seq<char>,
    start: Seq<char>,
    end: Option<Seq<char>>,
    body: Seq<char>,
) -> Result<OperationView, Seq<char>> {
    match read_path(path) {
        Err(e) => Err(e),
        Ok(path) => match read_anchor(start) {
            Err(e) => Err(e),
            Ok(start) => match end {
                None => Ok(OperationView { kind, path, start, end: None, body }),
                Some(end) => match read_anchor(end) {
                    Err(e) => Err(e),
                    Ok(end) => Ok(OperationView { kind, path, start, end: Some(end), body }),
                },
            },
        },
    }
}

/// The operation that `request` asks for, or what is wrong with it.
pub open spec fn read_operation(request: PatchHashlineOperation) -> Result<
    OperationView,
    Seq<char>,
> {
    match request {
        PatchHashlineOperation::InsertBefore { path, anchor, content } => read_parts(
            OperationKind::InsertBefore,
            path@,
            anchor@,
            None,
            content@,
        ),
        PatchHashlineOperation::InsertAfter { path, anchor, content } => read_parts(
            OperationKind::InsertAfter,
            path@,
            anchor@,
            None,
            content@,
        ),
        PatchHashlineOperation::Replace { path, anchor_start, anchor_end, content } => read_parts(
            OperationKind::Replace,
            path@,
            anchor_start@,
            Some(anchor_end@),
            content@,
        ),
        PatchHashlineOperation::Delete { path, anchor_start, anchor_end } => read_parts(
            OperationKind::Delete,
            path@,
            anchor_start@,
            Some(anchor_end@),
            Seq::empty(),
        ),
    }
}

pub fn parse_path(value: &str) -> (r: Result<String, String>)
    ensures
        match r {
            Ok(p) => read_path(value@) == Ok::<Seq<char>, Seq<char>>(p@),
            Err(e) => read_path(value@) == Err::<Seq<char>, Seq<char>>(e@),
        },
{
    let path = text::trim(value);
    if path.is_empty() || text::holds(path, "@@") {
        return Err(text::owned("patch path cannot be empty or contain @@"));
    }
    Ok(text::owned(path))
}

fn alphanumeric(s: &str) -> (r: bool)
    ensures
        r == all_alphanumeric(s@),
{
    let cs = text::to_chars(s);
    let mut i: usize = 0;
    while i < cs.len()
        invariant
            i <= cs@.len(),
            cs@ == s@,
            forall|j: int| 0 <= j < i ==> is_alphanumeric(#[trigger] s@[j]),
        decreases cs@.len() - i,
    {
        let u: u32 = cs[i] as u32;
        if !((48 <= u && u <= 57) || (65 <= u && u <= 90) || (97 <= u && u <= 122)) {
            proof {
                assert(!is_alphanumeric(s@[i as int]));
            }
            return false;
        }
        i += 1;
    }
    true
}

pub fn parse_anchor(value: &str) -> (r: Result<Anchor, String>)
    ensures
        match r {
            Ok(a) => read_anchor(value@) == Ok::<(nat, Seq<char>), Seq<char>>(a.parts()),
            Err(e) => read_anchor(value@) == Err::<(nat, Seq<char>), Seq<char>>(e@),
        },
{
    let (line, tag) = match text::split_at_char(text::trim(value), ':') {
        Some(p) => p,
        None => return Err(
            text::owned("anchor must have the form '<line>:<3-character-hash>'"),
        ),
    };
    let line: usize = match text::parse_usize(line) {
        Some(n) => n,
        None => return Err(text::owned("anchor line must be a positive number")),
    };
    if line == 0 {
        return Err(text::owned("anchor line must be a positive number"));
    }
    if tag.unicode_len() != 3 || !alphanumeric(tag) {
        return Err(
            text::owned("anchor hash must contain exactly three alphanumeric characters"),
        );
    }
    Ok(Anchor { line, tag: text::owned(tag) })
}

fn read_request(
    kind: OperationKind,
    path: &str,
    start: &str,
    end: Option<&str>,
    body: &str,
) -> (r: Result<Operation, String>)
    requires
        end is Some == (kind is Delete || kind is Replace),
    ensures
        ({
            let e = match end {
                Some(t) => Some(t@),
                None => None,
            };
            match r {
                Ok(o) => o.wf() && read_parts(kind, path@, start@, e, body@) == Ok::<
                    OperationView,
                    Seq<char>,
                >(o@),
                Err(m) => read_parts(kind, path@, start@, e, body@) == Err::<
                    OperationView,
                    Seq<char>,
                >(m@),
            }
        }),
{
    let path = match parse_path(path) {
        Ok(p) => p,
        Err(e) => return Err(e),
    };
    let start = match parse_anchor(start) {
        Ok(a) => a,
        Err(e) => return Err(e),
    };
    let end = match end {
        Some(t) => match parse_anchor(t) {
            Ok(a) => Some(a),
            Err(e) => return Err(e),
        },
        None => None,
    };
    Ok(Operation { kind, path, start, end, body: text::owned(body) })
}

/// Reads the path and the anchors of an operation.
pub fn operation_to_domain(operation: &PatchHashlineOperation) -> (r: Result<Operation, String>)
    ensures
        match r {
            Ok(o) => o.wf() && read_operation(*operation) == Ok::<OperationView, Seq<char>>(o@),
            Err(m) => read_operation(*operation) == Err::<OperationView, Seq<char>>(m@),
        },
{
    match operation {
        PatchHashlineOperation::InsertBefore { path, anchor, content } => read_request(
            OperationKind::InsertBefore,
            path.as_str(),
            anchor.as_str(),
            None,
            content.as_str(),
        ),
        PatchHashlineOperation::InsertAfter { path, anchor, content } => read_request(
            OperationKind::InsertAfter,
            path.as_str(),
            anchor.as_str(),
            None,
            content.as_str(),
        ),
        PatchHashlineOperation::Replace { path, anchor_start, anchor_end, content } => read_request(
            OperationKind::Replace,
            path.as_str(),
            anchor_start.as_str(),
            Some(anchor_end.as_str()),
            content.as_str(),
        ),
        PatchHashlineOperation::Delete { path, anchor_start, anchor_end } => {
            let r = read_request(
                OperationKind::Delete,
                path.as_str(),
                anchor_start.as_str(),
                Some(anchor_end.as_str()),
                "",
            );
            proof {
                reveal_strlit("");
                assert(""@ =~= Seq::<char>::empty());
            }
            r
        },
    }
}

// ---------------------------------------------------------------------------
// Resolving anchors
// ---------------------------------------------------------------------------

#[derive(Clone, Copy, Debug, PartialEq, Eq, Structural)]
pub enum AnchorError {
    Stale,
    Ambiguous,
}

/// The positions, in order, of the lines that have `tag`.
pub open spec fn with_tag(lines: Seq<HashLine>, tag: Seq<char>) -> Seq<int>
    decreases lines.len(),
{
    if lines.len() == 0 {
        Seq::empty()
    } else if lines.last().tag@ == tag {
        with_tag(lines.drop_last(), tag).push(lines.len() - 1)
    } else {
        with_tag(lines.drop_last(), tag)
    }
}

/// The positions, in order, of the lines that have `tag` and the number `line`.
pub open spec fn with_tag_on(lines: Seq<HashLine>, tag: Seq<char>, line: nat) -> Seq<int>
    decreases lines.len(),
{
    if lines.len() == 0 {
        Seq::empty()
    } else if lines.last().tag@ == tag && lines.last().line == line {
        with_tag_on(lines.drop_last(), tag, line).push(lines.len() - 1)
    } else {
        with_tag_on(lines.drop_last(), tag, line)
    }
}

/// Where an anchor points: to the only line with its tag, or among several to
/// the one with its number.
pub open spec fn resolved(lines: Seq<HashLine>, anchor: (nat, Seq<char>)) -> Result<
    int,
    AnchorError,
> {
    let all = with_tag(lines, anchor.1);
    if all.len() == 0 {
        Err(AnchorError::Stale)
    } else if all.len() == 1 {
        Ok(all[0])
    } else {
        let here = with_tag_on(lines, anchor.1, anchor.0);
        if here.len() == 0 {
            Err(AnchorError::Stale)
        } else if here.len() == 1 {
            Ok(here[0])
        } else {
            Err(AnchorError::Ambiguous)
        }
    }
}

proof fn lemma_with_tag_range(lines: Seq<HashLine>, tag: Seq<char>, line: nat)
    ensures
        forall|i: int|
            0 <= i < with_tag(lines, tag).len() ==> 0 <= #[trigger] with_tag(lines, tag)[i]
                < lines.len(),
        forall|i: int|
            0 <= i < with_tag_on(lines, tag, line).len() ==> 0 <= #[trigger] with_tag_on(
                lines,
                tag,
                line,
            )[i] < lines.len(),
        with_tag(lines, tag).len() <= lines.len(),
        with_tag_on(lines, tag, line).len() <= lines.len(),
    decreases lines.len(),
{
    if lines.len() > 0 {
        lemma_with_tag_range(lines.drop_last(), tag, line);
    }
}

/// Finds the line that `anchor` points at.
pub fn resolve_anchor(lines: &[HashLine], anchor: &Anchor) -> (r: Result<usize, AnchorError>)
    ensures
        match r {
            Ok(i) => i < lines@.len() && resolved(lines@, anchor.parts()) == Ok::<int, AnchorError>(
                i as int,
            ),
            Err(e) => resolved(lines@, anchor.parts()) == Err::<int, AnchorError>(e),
        },
{
    let ghost tag = anchor.tag@;
    let ghost line = anchor.line as nat;
    let mut count: usize = 0;
    let mut found: usize = 0;
    let mut count_here: usize = 0;
    let mut found_here: usize = 0;
    let mut i: usize = 0;
    while i < lines.len()
        invariant
            i <= lines@.len(),
            tag == anchor.tag@,
            line == anchor.line as nat,
            count <= i,
            count_here <= i,
            count == with_tag(lines@.take(i as int), tag).len(),
            count_here == with_tag_on(lines@.take(i as int), tag, line).len(),
            count > 0 ==> found == with_tag(lines@.take(i as int), tag).last(),
            count_here > 0 ==> found_here == with_tag_on(lines@.take(i as int), tag, line).last(),
        decreases lines@.len() - i,
    {
        proof {
            assert(lines@.take(i + 1).drop_last() =~= lines@.take(i as int));
            assert(lines@.take(i + 1).last() == lines@[i as int]);
        }
        if text::same_text(lines[i].tag.as_str(), anchor.tag.as_str()) {
            count += 1;
            found = i;
            if lines[i].line == anchor.line {
                count_here += 1;
                found_here = i;
            }
        }
        i += 1;
    }
    proof {
        assert(lines@.take(i as int) =~= lines@);
        lemma_with_tag_range(lines@, tag, line);
        if count == 1 {
            assert(with_tag(lines@, tag).last() == with_tag(lines@, tag)[0]);
        }
        if count_here == 1 {
            assert(with_tag_on(lines@, tag, line).last() == with_tag_on(lines@, tag, line)[0]);
        }
    }
    if count == 0 {
        Err(AnchorError::Stale)
    } else if count == 1 {
        Ok(found)
    } else if count_here == 0 {
        Err(AnchorError::Stale)
    } else if count_here == 1 {
        Ok(found_here)
    } else {
        Err(AnchorError::Ambiguous)
    }
}

proof fn lemma_with_tag_on_unique(lines: Seq<HashLine>, tag: Seq<char>, line: nat)
    requires
        forall|i: int| 0 <= i < lines.len() ==> (#[trigger] lines[i]).line == i + 1,
    ensures
        with_tag_on(lines, tag, line).len() <= 1,
        with_tag_on(lines, tag, line).len() == 1 ==> line <= lines.len(),
    decreases lines.len(),
{
    if lines.len() > 0 {
        assert forall|i: int| 0 <= i < lines.drop_last().len() implies (
        #[trigger] lines.drop_last()[i]).line == i + 1 by {
            assert(lines.drop_last()[i] == lines[i]);
        }
        lemma_with_tag_on_unique(lines.drop_last(), tag, line);
        assert(lines.last() == lines[lines.len() - 1]);
    }
}

proof fn lemma_with_tag_on_contains(lines: Seq<HashLine>, tag: Seq<char>, line: nat, i: int)
    requires
        0 <= i < lines.len(),
        lines[i].tag@ == tag,
        lines[i].line == line,
    ensures
        with_tag_on(lines, tag, line).contains(i),
        with_tag(lines, tag).contains(i),
    decreases lines.len(),
{
    let prefix = lines.drop_last();
    if i < lines.len() - 1 {
        assert(prefix[i] == lines[i]);
        lemma_with_tag_on_contains(prefix, tag, line, i);
        let a = choose|k: int| 0 <= k < with_tag_on(prefix, tag, line).len() && with_tag_on(prefix, tag, line)[k] == i;
        let b = choose|k: int| 0 <= k < with_tag(prefix, tag).len() && with_tag(prefix, tag)[k] == i;
        assert(with_tag_on(lines, tag, line)[a] == i);
        assert(with_tag(lines, tag)[b] == i);
    } else {
        assert(lines.last() == lines[i]);
        let a = with_tag_on(lines, tag, line);
        let b = with_tag(lines, tag);
        assert(a[a.len() - 1] == i);
        assert(b[b.len() - 1] == i);
    }
}

/// The anchor of a rendered line always points at that line, however often the
/// same content occurs in the file; no anchor into a rendered file is ambiguous.
pub proof fn law_fresh_anchors_resolve(lines: Seq<HashLine>, source: Seq<char>, i: int)
    requires
        hashline::is_rendering(lines, source),
        0 <= i < lines.len(),
    ensures
        resolved(lines, (lines[i].line as nat, lines[i].tag@)) == Ok::<int, AnchorError>(i),
        forall|anchor: (nat, Seq<char>)| #[trigger]
            resolved(lines, anchor) != Err::<int, AnchorError>(AnchorError::Ambiguous),
{
    let tag = lines[i].tag@;
    let line = lines[i].line as nat;
    lemma_with_tag_on_contains(lines, tag, line, i);
    lemma_with_tag_on_unique(lines, tag, line);
    let all = with_tag(lines, tag);
    let here = with_tag_on(lines, tag, line);
    let k = choose|k: int| 0 <= k < all.len() && all[k] == i;
    let h = choose|h: int| 0 <= h < here.len() && here[h] == i;
    assert(here[h] == i && h == 0);
    if all.len() == 1 {
        assert(all[k] == i && k == 0);
    }
    assert forall|anchor: (nat, Seq<char>)| #[trigger] resolved(lines, anchor) != Err::<
        int,
        AnchorError,
    >(AnchorError::Ambiguous) by {
        lemma_with_tag_on_unique(lines, anchor.1, anchor.0);
    }
}

// ---------------------------------------------------------------------------
// Edits
// ---------------------------------------------------------------------------

/// A replacement of the characters from `start` up to `end`.
#[derive(Clone, Debug)]
pub struct LineEdit {
    pub start: usize,
    pub end: usize,
    pub replacement: String,
}

pub ghost struct EditView {
    pub start: int,
    pub end: int,
    pub replacement: Seq<char>,
}

impl View for LineEdit {
    type V = EditView;

    open spec fn view(&self) -> EditView {
        EditView { start: self.start as int, end: self.end as int, replacement: self.replacement@ }
    }
}

/// Where line `k` begins.
pub open spec fn line_offset(source: Seq<char>, k: int) -> int {
    text::concat_all(text::segments(source).take(k)).len() as int
}

/// What is inserted between `before` and `after`: the body on lines of its own.
pub open spec fn inserted(before: Seq<char>, body: Seq<char>, after: Seq<char>) -> Seq<char> {
    if body.len() == 0 {
        Seq::empty()
    } else {
        let opened = if before.len() > 0 && before.last() != '\n' {
            seq!['\n'] + body
        } else {
            body
        };
        if after.len() > 0 && opened.last() != '\n' {
            opened.push('\n')
        } else {
            opened
        }
    }
}

/// The edit that an operation makes on the lines `start` to `end` of `source`.
pub open spec fn planned_edit(
    source: Seq<char>,
    kind: OperationKind,
    start: int,
    end: int,
    body: Seq<char>,
) -> EditView {
    let lines = text::segments(source);
    match kind {
        OperationKind::Delete => EditView {
            start: line_offset(source, start),
            end: line_offset(source, end + 1),
            replacement: Seq::empty(),
        },
        OperationKind::Replace => EditView {
            start: line_offset(source, start),
            end: line_offset(source, end + 1),
            replacement: hashline::fitted(lines[end], body),
        },
        OperationKind::InsertBefore => EditView {
            start: line_offset(source, start),
            end: line_offset(source, start),
            replacement: inserted(
                text::concat_all(lines.take(start)),
                body,
                text::concat_all(lines.skip(start)),
            ),
        },
        OperationKind::InsertAfter => EditView {
            start: line_offset(source, start + 1),
            end: line_offset(source, start + 1),
            replacement: inserted(
                text::concat_all(lines.take(start + 1)),
                body,
                text::concat_all(lines.skip(start + 1)),
            ),
        },
    }
}

/// The beginnings of lines lie in the text, in order.
pub proof fn lemma_line_offset(source: Seq<char>, a: int, b: int)
    requires
        0 <= a <= b <= text::segments(source).len(),
    ensures
        0 <= line_offset(source, a) <= line_offset(source, b) <= source.len(),
        line_offset(source, text::segments(source).len() as int) == source.len(),
{
    let lines = text::segments(source);
    text::lemma_segments_concat(source);
    text::lemma_concat_all_add(lines.take(a), lines.subrange(a, b));
    assert(lines.take(a) + lines.subrange(a, b) =~= lines.take(b));
    text::lemma_concat_all_add(lines.take(b), lines.skip(b));
    assert(lines.take(b) + lines.skip(b) =~= lines);
    assert(lines.take(lines.len() as int) =~= lines);
}

fn ends_with_newline(s: &str) -> (r: bool)
    ensures
        r == (s@.len() > 0 && s@.last() == '\n'),
{
    let cs = text::to_chars(s);
    cs.len() > 0 && cs[cs.len() - 1] == '\n'
}

fn insertion(before: &str, body: &str, after: &str) -> (r: String)
    ensures
        r@ == inserted(before@, body@, after@),
{
    let mut out = String::new();
    if !body.is_empty() {
        if !before.is_empty() && !ends_with_newline(before) {
            out.push('\n');
        }
        out.push_str(body);
        proof {
            assert(seq!['\n'] + body@ =~= Seq::<char>::empty().push('\n') + body@);
            assert(Seq::<char>::empty() + body@ =~= body@);
        }
        if !after.is_empty() && !ends_with_newline(out.as_str()) {
            out.push('\n');
        }
    }
    out
}

/// Plans the edit of the lines `start` to `end` of `source`.
pub fn line_edit(source: &str, kind: OperationKind, start: usize, end: usize, body: &str) -> (r:
    LineEdit)
    requires
        start <= end < text::segments(source@).len(),
    ensures
        r@ == planned_edit(source@, kind, start as int, end as int, body@),
        r.start <= r.end <= source@.len(),
{
    let lines = hashline::split_lines_preserving_endings(source);
    let count: usize = lines.len();
    let ghost all = text::segments(source@);
    proof {
        assert(text::texts(lines@).len() == all.len());
        assert(end < count);
        assert(text::texts(lines@.subrange(0, start as int)) =~= all.take(start as int));
        assert(text::texts(lines@.subrange(0, end + 1)) =~= all.take(end + 1));
        assert(text::texts(lines@.subrange(0, start + 1)) =~= all.take(start + 1));
        assert(text::texts(lines@.subrange(start as int, lines@.len() as int)) =~= all.skip(
            start as int,
        ));
        assert(text::texts(lines@.subrange(start + 1, lines@.len() as int)) =~= all.skip(start + 1));
        assert(all[end as int] == lines@[end as int]@);
        lemma_line_offset(source@, start as int, end + 1);
        lemma_line_offset(source@, start as int, start as int);
        lemma_line_offset(source@, start + 1, start + 1);
    }
    match kind {
        OperationKind::Delete => {
            let a = text::concat_texts(slice_subrange(lines.as_slice(), 0, start));
            let b = text::concat_texts(slice_subrange(lines.as_slice(), 0, end + 1));
            LineEdit {
                start: a.as_str().unicode_len(),
                end: b.as_str().unicode_len(),
                replacement: String::new(),
            }
        },
        OperationKind::Replace => {
            let a = text::concat_texts(slice_subrange(lines.as_slice(), 0, start));
            let b = text::concat_texts(slice_subrange(lines.as_slice(), 0, end + 1));
            LineEdit {
                start: a.as_str().unicode_len(),
                end: b.as_str().unicode_len(),
                replacement: hashline::fit(lines[end].as_str(), body),
            }
        },
        OperationKind::InsertBefore => {
            let before = text::concat_texts(slice_subrange(lines.as_slice(), 0, start));
            let after = text::concat_texts(slice_subrange(lines.as_slice(), start, lines.len()));
            let at: usize = before.as_str().unicode_len();
            LineEdit {
                start: at,
                end: at,
                replacement: insertion(before.as_str(), body, after.as_str()),
            }
        },
        OperationKind::InsertAfter => {
            let before = text::concat_texts(slice_subrange(lines.as_slice(), 0, start + 1));
            let after = text::concat_texts(
                slice_subrange(lines.as_slice(), start + 1, lines.len()),
            );
            let at: usize = before.as_str().unicode_len();
            LineEdit {
                start: at,
                end: at,
                replacement: insertion(before.as_str(), body, after.as_str()),
            }
        },
    }
}

// ---------------------------------------------------------------------------
// Messages
// ---------------------------------------------------------------------------

/// Which anchor of an operation a message speaks of.
#[derive(Clone, Copy, Debug, PartialEq, Eq, Structural)]
pub enum AnchorLabel {
    Only,
    Start,
    End,
}

/// An anchor in the form `<line>:<tag>`.
pub open spec fn anchor_text(anchor: (nat, Seq<char>)) -> Seq<char> {
    text::decimal(anchor.0) + ":"@ + anchor.1
}

/// Why an anchor could not be resolved.
pub open spec fn anchor_complaint(
    label: AnchorLabel,
    anchor: (nat, Seq<char>),
    error: AnchorError,
) -> Seq<char> {
    let subject = match label {
        AnchorLabel::Only => "Anchor"@,
        AnchorLabel::Start => "Start anchor"@,
        AnchorLabel::End => "End anchor"@,
    };
    let state = match error {
        AnchorError::Stale => " is stale ("@,
        AnchorError::Ambiguous => " is ambiguous ("@,
    };
    subject + state + anchor_text(anchor) + ")."@
}

/// The complaints about the anchors of an operation, one after the other. An
/// operation whose two anchors are the same has one.
pub open spec fn complaints(
    operation: OperationView,
    start: Option<AnchorError>,
    end: Option<AnchorError>,
) -> Seq<Seq<char>> {
    match operation.end {
        None => match start {
            Some(e) => seq![anchor_complaint(AnchorLabel::Only, operation.start, e)],
            None => Seq::empty(),
        },
        Some(last) => if last == operation.start {
            match start {
                Some(e) => seq![anchor_complaint(AnchorLabel::Only, operation.start, e)],
                None => Seq::empty(),
            }
        } else {
            let first = match start {
                Some(e) => seq![anchor_complaint(AnchorLabel::Start, operation.start, e)],
                None => Seq::empty(),
            };
            match end {
                Some(e) => first.push(anchor_complaint(AnchorLabel::End, last, e)),
                None => first,
            }
        },
    }
}

/// What is said of the anchors of a file that cannot be read.
pub open spec fn unavailable(operation: OperationView) -> Seq<char> {
    text::joined(
        complaints(operation, Some(AnchorError::Stale), Some(AnchorError::Stale)),
        " "@,
    )
}

fn format_anchor(anchor: &Anchor) -> (r: String)
    ensures
        r@ == anchor_text(anchor.parts()),
{
    text::cat3(text::usize_text(anchor.line).as_str(), ":", anchor.tag.as_str())
}

fn anchor_reason(label: AnchorLabel, anchor: &Anchor, error: AnchorError) -> (r: String)
    ensures
        r@ == anchor_complaint(label, anchor.parts(), error),
{
    let subject = match label {
        AnchorLabel::Only => "Anchor",
        AnchorLabel::Start => "Start anchor",
        AnchorLabel::End => "End anchor",
    };
    let state = match error {
        AnchorError::Stale => " is stale (",
        AnchorError::Ambiguous => " is ambiguous (",
    };
    text::cat4(subject, state, format_anchor(anchor).as_str(), ").")
}

fn same_anchor(a: &Anchor, b: &Anchor) -> (r: bool)
    ensures
        r == (a.parts() == b.parts()),
{
    a.line == b.line && text::same_text(a.tag.as_str(), b.tag.as_str())
}

fn anchor_reasons(operation: &Operation, start: Option<AnchorError>, end: Option<AnchorError>) -> (r:
    Vec<String>)
    ensures
        text::texts(r@) == complaints(operation@, start, end),
{
    let mut out: Vec<String> = Vec::new();
    let single = match &operation.end {
        None => true,
        Some(last) => same_anchor(&operation.start, last),
    };
    if let Some(e) = start {
        let label = if single {
            AnchorLabel::Only
        } else {
            AnchorLabel::Start
        };
        out.push(anchor_reason(label, &operation.start, e));
    }
    if !single {
        if let (Some(last), Some(e)) = (&operation.end, end) {
            out.push(anchor_reason(AnchorLabel::End, last, e));
        }
    }
    proof {
        assert(text::texts(out@) =~= complaints(operation@, start, end));
    }
    out
}

fn unavailable_anchor_reason(operation: &Operation) -> (r: String)
    ensures
        r@ == unavailable(operation@),
{
    let reasons = anchor_reasons(
        operation,
        Some(AnchorError::Stale),
        Some(AnchorError::Stale),
    );
    text::join(reasons.as_slice(), " ")
}

/// How an operation is shown in a report.
pub open spec fn shown_operation(operation: OperationView) -> Seq<char> {
    match operation.kind {
        OperationKind::Delete => "DELETE "@ + operation.path + " FROM "@ + anchor_text(
            operation.start,
        ) + " TO "@ + anchor_text(operation.end->0),
        OperationKind::Replace => "REPLACE "@ + operation.path + " FROM "@ + anchor_text(
            operation.start,
        ) + " TO "@ + anchor_text(operation.end->0),
        OperationKind::InsertBefore => "INSERT "@ + operation.path + " BEFORE "@ + anchor_text(
            operation.start,
        ),
        OperationKind::InsertAfter => "INSERT "@ + operation.path + " AFTER "@ + anchor_text(
            operation.start,
        ),
    }
}

pub fn operation_display(operation: &Operation) -> (r: String)
    requires
        operation.wf(),
    ensures
        r@ == shown_operation(operation@),
{
    let start = format_anchor(&operation.start);
    let path = operation.path.as_str();
    match operation.kind {
        OperationKind::InsertBefore => text::cat4("INSERT ", path, " BEFORE ", start.as_str()),
        OperationKind::InsertAfter => text::cat4("INSERT ", path, " AFTER ", start.as_str()),
        OperationKind::Delete => {
            let mut out = text::cat5("DELETE ", path, " FROM ", start.as_str(), " TO ");
            if let Some(last) = &operation.end {
                out.push_str(format_anchor(last).as_str());
            }
            out
        },
        OperationKind::Replace => {
            let mut out = text::cat5("REPLACE ", path, " FROM ", start.as_str(), " TO ");
            if let Some(last) = &operation.end {
                out.push_str(format_anchor(last).as_str());
            }
            out
        },
    }
}

// ---------------------------------------------------------------------------
// Snapshots
// ---------------------------------------------------------------------------

/// What reading a file gave.
#[derive(Clone, Debug)]
pub enum FileRead {
    /// Whether the file exists could not be found out.
    Unknown { reason: String },
    Missing,
    /// The file exists and could not be read.
    Unreadable { reason: String },
    Bytes { bytes: Vec<u8> },
}

/// A file as it was before any operation.
#[derive(Clone, Debug)]
pub struct FileSnapshot {
    pub exists: bool,
    pub content: Option<String>,
    pub lines: Vec<HashLine>,
    pub error: Option<String>,
}

impl FileSnapshot {
    /// A snapshot has content exactly where the file exists and nothing went
    /// wrong, and its lines render that content.
    pub open spec fn wf(self) -> bool {
        &&& self.content is Some == (self.exists && self.error is None)
        &&& self.content matches Some(c) ==> hashline::is_rendering(self.lines@, c@)
        &&& self.content is None ==> self.lines@.len() == 0
    }
}

/// The error that a snapshot records.
pub open spec fn read_error(read: FileRead) -> Option<Seq<char>> {
    match read {
        FileRead::Unknown { reason } => Some(reason@),
        FileRead::Missing => None,
        FileRead::Unreadable { reason } => Some(reason@),
        FileRead::Bytes { bytes } => if bytes@.contains(0u8) {
            Some("cannot patch binary/NUL-containing input"@)
        } else if !vstd::utf8::valid_utf8(bytes@) {
            Some("cannot patch non-UTF-8 input"@)
        } else {
            None
        },
    }
}

pub fn has_nul(bytes: &[u8]) -> (r: bool)
    ensures
        r == bytes@.contains(0u8),
{
    let mut i: usize = 0;
    while i < bytes.len()
        invariant
            i <= bytes@.len(),
            forall|j: int| 0 <= j < i ==> bytes@[j] != 0,
        decreases bytes@.len() - i,
    {
        if bytes[i] == 0 {
            return true;
        }
        i += 1;
    }
    false
}

fn failed_snapshot(exists: bool, reason: Option<String>) -> (r: FileSnapshot)
    requires
        exists ==> reason is Some,
    ensures
        r.wf(),
        r.exists == exists,
        r.content is None,
        r.error == reason,
{
    FileSnapshot { exists, content: None, lines: Vec::new(), error: reason }
}

/// Turns what reading a file gave into a snapshot.
pub fn snapshot_file(read: FileRead) -> (r: FileSnapshot)
    ensures
        r.wf(),
        r.exists == (read is Unreadable || read is Bytes),
        text::opt_text(r.error) == read_error(read),
        r.content matches Some(c) ==> (read matches FileRead::Bytes { bytes }
            && vstd::utf8::encode_utf8(c@) == bytes@),
{
    match read {
        FileRead::Unknown { reason } => failed_snapshot(false, Some(reason)),
        FileRead::Missing => failed_snapshot(false, None),
        FileRead::Unreadable { reason } => failed_snapshot(true, Some(reason)),
        FileRead::Bytes { bytes } => {
            if has_nul(bytes.as_slice()) {
                return failed_snapshot(
                    true,
                    Some(text::owned("cannot patch binary/NUL-containing input")),
                );
            }
            match text::utf8_text(bytes) {
                Ok(content) => {
                    let lines = hashline::render(content.as_str());
                    FileSnapshot { exists: true, content: Some(content), lines, error: None }
                },
                Err(_) => failed_snapshot(
                    true,
                    Some(text::owned("cannot patch non-UTF-8 input")),
                ),
            }
        },
    }
}

// ---------------------------------------------------------------------------
// Preparing operations
// ---------------------------------------------------------------------------

/// What has become of an operation.
pub struct OperationOutcome {
    pub operation: Operation,
    pub edit: Option<LineEdit>,
    pub failure: Option<String>,
    pub applied: bool,
    /// Where the inserted text lies in the new content.
    pub final_range: Option<(usize, usize)>,
}

impl OperationOutcome {
    /// An operation that has not failed has an edit.
    pub open spec fn wf(self) -> bool {
        &&& self.operation.wf()
        &&& self.failure is None ==> self.edit is Some
        &&& self.edit matches Some(e) ==> e.start <= e.end
    }
}

pub open spec fn as_error(r: Result<int, AnchorError>) -> Option<AnchorError> {
    match r {
        Ok(_) => None,
        Err(e) => Some(e),
    }
}

/// What an operation comes to on a file: the edit to make, or why there is none.
pub open spec fn prepared(operation: OperationView, snapshot: FileSnapshot) -> Result<
    EditView,
    Seq<char>,
> {
    if let Some(error) = snapshot.error {
        Err(error@ + "; "@ + unavailable(operation))
    } else if !snapshot.exists {
        Err(unavailable(operation) + " File does not exist in the original snapshot."@)
    } else {
        let source = snapshot.content->0@;
        let start = resolved(snapshot.lines@, operation.start);
        let end = match operation.end {
            Some(last) => resolved(snapshot.lines@, last),
            None => start,
        };
        let reasons = complaints(operation, as_error(start), as_error(end));
        if reasons.len() > 0 {
            Err(text::joined(reasons, " "@))
        } else if start->Ok_0 > end->Ok_0 {
            Err("start anchor must not come after end anchor"@)
        } else {
            let edit = planned_edit(
                source,
                operation.kind,
                start->Ok_0,
                end->Ok_0,
                operation.body,
            );
            if edit.replacement == source.subrange(edit.start, edit.end) {
                Err(
                    match operation.kind {
                        OperationKind::Delete => "DELETE does not change the file"@,
                        OperationKind::Replace => "REPLACE does not change the file"@,
                        _ => "INSERT does not change the file"@,
                    },
                )
            } else {
                Ok(edit)
            }
        }
    }
}

fn failed(operation: Operation, reason: String) -> (r: OperationOutcome)
    requires
        operation.wf(),
    ensures
        r.wf(),
        r.operation == operation,
        r.edit is None,
        r.failure == Some(reason),
        !r.applied,
        r.final_range is None,
{
    OperationOutcome {
        operation,
        edit: None,
        failure: Some(reason),
        applied: false,
        final_range: None,
    }
}

/// Finds out what an operation comes to on the file that it names.
pub fn prepare_operation(operation: Operation, snapshot: &FileSnapshot) -> (r: OperationOutcome)
    requires
        operation.wf(),
        snapshot.wf(),
    ensures
        r.wf(),
        r.operation@ == operation@,
        !r.applied,
        r.final_range is None,
        match prepared(operation@, *snapshot) {
            Ok(edit) => r.failure is None && r.edit is Some && r.edit->0@ == edit
                && r.edit->0.end <= snapshot.content->0@.len(),
            Err(m) => r.edit is None && text::opt_text(r.failure) == Some(m),
        },
{
    if let Some(error) = &snapshot.error {
        let reason = text::cat3(
            error.as_str(),
            "; ",
            unavailable_anchor_reason(&operation).as_str(),
        );
        return failed(operation, reason);
    }
    let content = match &snapshot.content {
        Some(c) => c,
        None => {
            let reason = text::cat2(
                unavailable_anchor_reason(&operation).as_str(),
                " File does not exist in the original snapshot.",
            );
            return failed(operation, reason);
        },
    };
    let start = resolve_anchor(snapshot.lines.as_slice(), &operation.start);
    let end = match &operation.end {
        Some(last) => resolve_anchor(snapshot.lines.as_slice(), last),
        None => start,
    };
    let start_error = match start {
        Ok(_) => None,
        Err(e) => Some(e),
    };
    let end_error = match end {
        Ok(_) => None,
        Err(e) => Some(e),
    };
    let reasons = anchor_reasons(&operation, start_error, end_error);
    proof {
        assert(reasons@.len() == text::texts(reasons@).len());
    }
    if reasons.len() > 0 {
        let reason = text::join(reasons.as_slice(), " ");
        return failed(operation, reason);
    }
    let (first, last): (usize, usize) = match (start, end) {
        (Ok(a), Ok(b)) => (a, b),
        _ => {
            proof {
                assert(false);
            }
            (0, 0)
        },
    };
    if first > last {
        return failed(operation, text::owned("start anchor must not come after end anchor"));
    }
    proof {
        assert(snapshot.lines@.len() == text::segments(content@).len());
    }
    let edit = line_edit(content.as_str(), operation.kind, first, last, operation.body.as_str());
    let unchanged = text::same_text(
        edit.replacement.as_str(),
        content.as_str().substring_char(edit.start, edit.end),
    );
    if unchanged {
        let reason = match operation.kind {
            OperationKind::Delete => "DELETE does not change the file",
            OperationKind::Replace => "REPLACE does not change the file",
            _ => "INSERT does not change the file",
        };
        return failed(operation, text::owned(reason));
    }
    OperationOutcome {
        operation,
        edit: Some(edit),
        failure: None,
        applied: false,
        final_range: None,
    }
}

// ---------------------------------------------------------------------------
// Conflicts
// ---------------------------------------------------------------------------

/// An outcome in mathematical terms.
pub ghost struct OutcomeView {
    pub operation: OperationView,
    pub edit: Option<EditView>,
    pub failure: Option<Seq<char>>,
    pub applied: bool,
    pub final_range: Option<(int, int)>,
}

impl View for OperationOutcome {
    type V = OutcomeView;

    open spec fn view(&self) -> OutcomeView {
        OutcomeView {
            operation: self.operation@,
            edit: match self.edit {
                Some(e) => Some(e@),
                None => None,
            },
            failure: text::opt_text(self.failure),
            applied: self.applied,
            final_range: match self.final_range {
                Some(r) => Some((r.0 as int, r.1 as int)),
                None => None,
            },
        }
    }
}

/// The outcomes in mathematical terms.
pub open spec fn views(outcomes: Seq<OperationOutcome>) -> Seq<OutcomeView> {
    outcomes.map_values(|o: OperationOutcome| o@)
}

pub open spec fn all_wf(outcomes: Seq<OperationOutcome>) -> bool {
    forall|i: int| 0 <= i < outcomes.len() ==> (#[trigger] outcomes[i]).wf()
}

/// Two edits cannot both be made: they overlap, or one inserts inside the other.
pub open spec fn conflict(left: EditView, right: EditView) -> bool {
    if left.start == left.end && right.start == right.end {
        false
    } else if left.start == left.end {
        right.start < left.start < right.end
    } else if right.start == right.end {
        left.start < right.start < left.end
    } else {
        left.start < right.end && right.start < left.end
    }
}

/// Of two operations that have not failed, the later one cannot follow the earlier.
pub open spec fn clash(earlier: OutcomeView, later: OutcomeView) -> bool {
    &&& earlier.failure is None
    &&& earlier.operation.path == later.operation.path
    &&& match (earlier.edit, later.edit) {
        (Some(a), Some(b)) => conflict(a, b),
        _ => true,
    }
}

/// The first of the operations from `from` on that clashes with `later`.
pub open spec fn first_clash(earlier: Seq<OutcomeView>, later: OutcomeView, from: int) -> Option<int>
    decreases earlier.len() - from,
{
    if from < 0 || from >= earlier.len() {
        None
    } else if clash(earlier[from], later) {
        Some(from)
    } else {
        first_clash(earlier, later, from + 1)
    }
}

/// The outcomes once each operation that clashes with an earlier one has failed.
pub open spec fn settled(outcomes: Seq<OutcomeView>) -> Seq<OutcomeView>
    decreases outcomes.len(),
{
    if outcomes.len() == 0 {
        Seq::empty()
    } else {
        let earlier = settled(outcomes.drop_last());
        let last = outcomes.last();
        if last.failure is Some {
            earlier.push(last)
        } else {
            match first_clash(earlier, last, 0) {
                Some(p) => earlier.push(
                    OutcomeView {
                        failure: Some(
                            "conflicts with operation ["@ + text::decimal((p + 1) as nat) + "] "@
                                + shown_operation(earlier[p].operation),
                        ),
                        ..last
                    },
                ),
                None => earlier.push(last),
            }
        }
    }
}

/// No two operations on one file that have not failed conflict.
pub open spec fn compatible(outcomes: Seq<OutcomeView>) -> bool {
    forall|i: int, j: int|
        0 <= i < j < outcomes.len() && (#[trigger] outcomes[i]).failure is None && (
        #[trigger] outcomes[j]).failure is None ==> !clash(outcomes[i], outcomes[j])
}

proof fn lemma_first_clash(earlier: Seq<OutcomeView>, later: OutcomeView, from: int)
    requires
        0 <= from,
    ensures
        first_clash(earlier, later, from) is None ==> forall|k: int|
            from <= k < earlier.len() ==> !#[trigger] clash(earlier[k], later),
        first_clash(earlier, later, from) matches Some(p) ==> from <= p < earlier.len(),
    decreases earlier.len() - from,
{
    if from < earlier.len() && !clash(earlier[from], later) {
        lemma_first_clash(earlier, later, from + 1);
    }
}

/// Settling keeps every operation in its place and leaves no two conflicting
/// operations on one file standing.
pub proof fn law_settled_is_compatible(outcomes: Seq<OutcomeView>)
    ensures
        compatible(settled(outcomes)),
        settled(outcomes).len() == outcomes.len(),
        forall|i: int|
            0 <= i < outcomes.len() ==> (#[trigger] settled(outcomes)[i]).operation
                == outcomes[i].operation && settled(outcomes)[i].edit == outcomes[i].edit,
        forall|i: int|
            0 <= i < outcomes.len() && outcomes[i].failure is Some
                ==> #[trigger] settled(outcomes)[i] == outcomes[i],
    decreases outcomes.len(),
{
    if outcomes.len() > 0 {
        let earlier = settled(outcomes.drop_last());
        let last = outcomes.last();
        law_settled_is_compatible(outcomes.drop_last());
        lemma_first_clash(earlier, last, 0);
        let all = settled(outcomes);
        assert(all.len() == outcomes.len());
        assert forall|i: int, j: int|
            0 <= i < j < all.len() && (#[trigger] all[i]).failure is None && (
            #[trigger] all[j]).failure is None implies !clash(all[i], all[j]) by {
            assert(all[i] == earlier[i]);
            if j < earlier.len() {
                assert(all[j] == earlier[j]);
            } else {
                assert(all[j] == last);
                assert(!clash(earlier[i], last));
            }
        }
        assert forall|i: int| 0 <= i < outcomes.len() implies (
        #[trigger] all[i]).operation == outcomes[i].operation && all[i].edit == outcomes[i].edit
            && (outcomes[i].failure is Some ==> all[i] == outcomes[i]) by {
            if i < earlier.len() {
                assert(all[i] == earlier[i]);
                assert(outcomes.drop_last()[i] == outcomes[i]);
            }
        }
    }
}

pub fn edits_conflict(left: &LineEdit, right: &LineEdit) -> (r: bool)
    ensures
        r == conflict(left@, right@),
{
    if left.start == left.end && right.start == right.end {
        return false;
    }
    if left.start == left.end {
        return left.start > right.start && left.start < right.end;
    }
    if right.start == right.end {
        return right.start > left.start && right.start < left.end;
    }
    left.start < right.end && right.start < left.end
}

fn clashes(earlier: &OperationOutcome, later: &OperationOutcome) -> (r: bool)
    ensures
        r == clash(earlier@, later@),
{
    if earlier.failure.is_some() {
        return false;
    }
    if !text::same_text(earlier.operation.path.as_str(), later.operation.path.as_str()) {
        return false;
    }
    match (&earlier.edit, &later.edit) {
        (Some(a), Some(b)) => edits_conflict(a, b),
        _ => true,
    }
}

fn find_clash(outcomes: &Vec<OperationOutcome>, current: usize) -> (r: Option<usize>)
    requires
        current < outcomes@.len(),
    ensures
        match r {
            Some(p) => p < current && first_clash(
                views(outcomes@).take(current as int),
                outcomes@[current as int]@,
                0,
            ) == Some(p as int),
            None => first_clash(
                views(outcomes@).take(current as int),
                outcomes@[current as int]@,
                0,
            ) is None,
        },
{
    let ghost earlier = views(outcomes@).take(current as int);
    let ghost later = outcomes@[current as int]@;
    let mut p: usize = 0;
    while p < current
        invariant
            p <= current < outcomes@.len(),
            earlier == views(outcomes@).take(current as int),
            later == outcomes@[current as int]@,
            first_clash(earlier, later, 0) == first_clash(earlier, later, p as int),
        decreases current - p,
    {
        proof {
            assert(earlier[p as int] == outcomes@[p as int]@);
        }
        if clashes(&outcomes[p], &outcomes[current]) {
            return Some(p);
        }
        p += 1;
    }
    None
}

/// Fails every operation that clashes with an earlier one.
pub fn detect_conflicts(outcomes: &mut Vec<OperationOutcome>)
    requires
        all_wf(old(outcomes)@),
    ensures
        views(final(outcomes)@) == settled(views(old(outcomes)@)),
        all_wf(final(outcomes)@),
{
    let ghost start = views(outcomes@);
    let n: usize = outcomes.len();
    let mut current: usize = 0;
    proof {
        assert(start.take(0) =~= Seq::empty());
        assert(views(outcomes@).take(0) =~= Seq::empty());
    }
    while current < n
        invariant
            current <= n,
            n == outcomes@.len(),
            n == start.len(),
            all_wf(outcomes@),
            views(outcomes@).take(current as int) == settled(start.take(current as int)),
            views(outcomes@).skip(current as int) == start.skip(current as int),
        decreases n - current,
    {
        let ghost before = outcomes@;
        let ghost earlier = views(outcomes@).take(current as int);
        proof {
            assert(start.take(current + 1).drop_last() =~= start.take(current as int));
            assert(start.take(current + 1).last() == start[current as int]);
            assert(views(outcomes@).skip(current as int)[0] == start.skip(current as int)[0]);
            assert(outcomes@[current as int]@ == start[current as int]);
        }
        if outcomes[current].failure.is_none() {
            if let Some(p) = find_clash(&*outcomes, current) {
                let shown = operation_display(&outcomes[p].operation);
                let reason = text::cat4(
                    "conflicts with operation [",
                    text::successor_text(p).as_str(),
                    "] ",
                    shown.as_str(),
                );
                proof {
                    assert(earlier[p as int] == outcomes@[p as int]@);
                }
                outcomes[current].failure = Some(reason);
            }
        }
        proof {
            let now = views(outcomes@);
            assert(forall|k: int| 0 <= k < n && k != current ==> #[trigger] outcomes@[k] == before[k]);
            assert(now.take(current + 1).drop_last() =~= earlier);
            assert(now.take(current + 1) =~= settled(start.take(current + 1)));
            assert(now.skip(current + 1) =~= start.skip(current + 1)) by {
                assert forall|k: int| 0 <= k < n - current - 1 implies #[trigger] now.skip(
                    current + 1,
                )[k] == start.skip(current + 1)[k] by {
                    assert(views(before).skip(current as int)[k + 1] == start.skip(current as int)[k + 1]);
                }
            }
        }
        current += 1;
    }
    proof {
        assert(views(outcomes@).take(n as int) =~= views(outcomes@));
        assert(start.take(n as int) =~= start);
    }
}

// ---------------------------------------------------------------------------
// Applying edits
// ---------------------------------------------------------------------------

/// An edit with the position of its operation.
pub type Placed = (int, EditView);

/// The order in which edits are made: by position, insertions first.
pub open spec fn edit_key(e: EditView) -> int {
    2 * e.start + (if e.start != e.end {
        1int
    } else {
        0int
    })
}

/// `list` with `x` put behind all edits that come no later.
pub open spec fn insert_edit(list: Seq<Placed>, x: Placed) -> Seq<Placed>
    decreases list.len(),
{
    if list.len() > 0 && edit_key(x.1) < edit_key(list.last().1) {
        insert_edit(list.drop_last(), x).push(list.last())
    } else {
        list.push(x)
    }
}

/// The operation stands and names `path`.
pub open spec fn survives(o: OutcomeView, path: Seq<char>) -> bool {
    o.failure is None && o.operation.path == path
}

/// The edits that stand for a file, in the order in which they are made; edits
/// at one place keep the order of their operations.
pub open spec fn file_edits(outcomes: Seq<OutcomeView>, path: Seq<char>) -> Seq<Placed>
    decreases outcomes.len(),
{
    if outcomes.len() == 0 {
        Seq::empty()
    } else {
        let earlier = file_edits(outcomes.drop_last(), path);
        let last = outcomes.last();
        if survives(last, path) {
            insert_edit(earlier, (outcomes.len() - 1, last.edit->0))
        } else {
            earlier
        }
    }
}

/// Where the part of the source begins that no edit has reached.
pub open spec fn cursor(edits: Seq<Placed>) -> int {
    if edits.len() == 0 {
        0
    } else {
        edits.last().1.end
    }
}

/// The new content up to the end of the last edit.
pub open spec fn edited_head(source: Seq<char>, edits: Seq<Placed>) -> Seq<char>
    decreases edits.len(),
{
    if edits.len() == 0 {
        Seq::empty()
    } else {
        let e = edits.last().1;
        edited_head(source, edits.drop_last()) + source.subrange(cursor(edits.drop_last()), e.start)
            + e.replacement
    }
}

/// The new content.
pub open spec fn edited(source: Seq<char>, edits: Seq<Placed>) -> Seq<char> {
    edited_head(source, edits) + source.skip(cursor(edits))
}

/// Where the replacement of the `k`-th edit lies in the new content.
pub open spec fn edited_range(source: Seq<char>, edits: Seq<Placed>, k: int) -> (int, int) {
    let end = edited_head(source, edits.take(k + 1)).len() as int;
    (end - edits[k].1.replacement.len(), end)
}

/// The edits lie in the source, one behind the other.
pub open spec fn in_order(source: Seq<char>, edits: Seq<Placed>) -> bool {
    &&& forall|i: int|
        0 <= i < edits.len() ==> 0 <= (#[trigger] edits[i]).1.start <= edits[i].1.end
            <= source.len()
    &&& forall|i: int, j: int|
        0 <= i < j < edits.len() ==> (#[trigger] edits[i]).1.end <= (#[trigger] edits[j]).1.start
}

/// The edits of the operations that stand lie in `source`.
pub open spec fn edits_fit(outcomes: Seq<OutcomeView>, path: Seq<char>, source: Seq<char>) -> bool {
    forall|i: int|
        0 <= i < outcomes.len() && survives(#[trigger] outcomes[i], path) ==> {
            &&& outcomes[i].edit is Some
            &&& 0 <= outcomes[i].edit->0.start <= outcomes[i].edit->0.end <= source.len()
        }
}

pub proof fn lemma_insert_edit(list: Seq<Placed>, x: Placed, k: int)
    requires
        0 <= k <= list.len(),
        forall|j: int| k <= j < list.len() ==> edit_key(x.1) < edit_key((#[trigger] list[j]).1),
        k == 0 || edit_key(x.1) >= edit_key(list[k - 1].1),
    ensures
        insert_edit(list, x) == list.insert(k, x),
    decreases list.len(),
{
    if k == list.len() {
        assert(list.insert(k, x) =~= list.push(x));
    } else {
        assert(list.last() == list[list.len() - 1]);
        assert forall|j: int| k <= j < list.len() - 1 implies edit_key(x.1) < edit_key(
            (#[trigger] list.drop_last()[j]).1,
        ) by {
            assert(list.drop_last()[j] == list[j]);
        }
        lemma_insert_edit(list.drop_last(), x, k);
        assert(list.drop_last().insert(k, x).push(list.last()) =~= list.insert(k, x));
    }
}

/// The edits are sorted by their keys.
pub open spec fn keys_sorted(list: Seq<Placed>) -> bool {
    forall|i: int, j: int|
        0 <= i < j < list.len() ==> edit_key((#[trigger] list[i]).1) <= edit_key(
            (#[trigger] list[j]).1,
        )
}

proof fn lemma_insert_edit_sorted(list: Seq<Placed>, x: Placed)
    requires
        keys_sorted(list),
    ensures
        keys_sorted(insert_edit(list, x)),
        insert_edit(list, x).len() == list.len() + 1,
        forall|i: int|
            0 <= i < insert_edit(list, x).len() ==> (#[trigger] insert_edit(list, x)[i] == x
                || list.contains(insert_edit(list, x)[i])),
        insert_edit(list, x).contains(x),
        forall|y: Placed| list.contains(y) ==> #[trigger] insert_edit(list, x).contains(y),
        list.len() > 0 && edit_key(x.1) < edit_key(list.last().1) ==> edit_key(
            insert_edit(list, x).last().1,
        ) == edit_key(list.last().1),
        !(list.len() > 0 && edit_key(x.1) < edit_key(list.last().1)) ==> edit_key(
            insert_edit(list, x).last().1,
        ) == edit_key(x.1),
    decreases list.len(),
{
    let r = insert_edit(list, x);
    if list.len() > 0 && edit_key(x.1) < edit_key(list.last().1) {
        let p = list.drop_last();
        assert forall|i: int, j: int| 0 <= i < j < p.len() implies edit_key((#[trigger] p[i]).1)
            <= edit_key((#[trigger] p[j]).1) by {
            assert(p[i] == list[i] && p[j] == list[j]);
        }
        lemma_insert_edit_sorted(p, x);
        let q = insert_edit(p, x);
        if p.len() > 0 {
            assert(p.last() == list[list.len() - 2]);
            assert(edit_key(p.last().1) <= edit_key(list[list.len() - 1].1));
        }
        assert(edit_key(q.last().1) <= edit_key(list.last().1));
        assert forall|i: int, j: int| 0 <= i < j < r.len() implies edit_key((#[trigger] r[i]).1)
            <= edit_key((#[trigger] r[j]).1) by {
            assert(r[i] == q[i]);
            if j < q.len() {
                assert(r[j] == q[j]);
            } else {
                assert(q.last() == q[q.len() - 1]);
                if i < q.len() - 1 {
                    assert(edit_key(q[i].1) <= edit_key(q[q.len() - 1].1));
                }
            }
        }
        assert forall|i: int| 0 <= i < r.len() implies (#[trigger] r[i] == x || list.contains(r[i])) by {
            if i < q.len() {
                assert(r[i] == q[i]);
                if q[i] != x {
                    let m = choose|m: int| 0 <= m < p.len() && p[m] == q[i];
                    assert(list[m] == r[i]);
                }
            } else {
                assert(r[i] == list[list.len() - 1]);
            }
        }
        assert(r.contains(x)) by {
            let m = choose|m: int| 0 <= m < q.len() && q[m] == x;
            assert(r[m] == x);
        }
        assert forall|y: Placed| list.contains(y) implies #[trigger] r.contains(y) by {
            let m = choose|m: int| 0 <= m < list.len() && list[m] == y;
            if m < p.len() {
                assert(p[m] == y);
                assert(p.contains(y));
                assert(q.contains(y));
                let n = choose|n: int| 0 <= n < q.len() && q[n] == y;
                assert(r[n] == y);
            } else {
                assert(r[r.len() - 1] == y);
            }
        }
    } else {
        assert forall|i: int, j: int| 0 <= i < j < r.len() implies edit_key((#[trigger] r[i]).1)
            <= edit_key((#[trigger] r[j]).1) by {
            if list.len() > 0 && i < list.len() - 1 {
                assert(edit_key(list[i].1) <= edit_key(list[list.len() - 1].1));
            }
        }
        assert(r[r.len() - 1] == x);
        assert forall|y: Placed| list.contains(y) implies #[trigger] r.contains(y) by {
            let m = choose|m: int| 0 <= m < list.len() && list[m] == y;
            assert(r[m] == y);
        }
    }
}

/// The edits of a file are those of its operations that stand, each once.
pub proof fn lemma_file_edits(outcomes: Seq<OutcomeView>, path: Seq<char>)
    ensures
        keys_sorted(file_edits(outcomes, path)),
        forall|k: int|
            0 <= k < file_edits(outcomes, path).len() ==> {
                let p = #[trigger] file_edits(outcomes, path)[k];
                &&& 0 <= p.0 < outcomes.len()
                &&& survives(outcomes[p.0], path)
                &&& p.1 == outcomes[p.0].edit->0
            },
        forall|k: int, l: int|
            0 <= k < l < file_edits(outcomes, path).len() ==> (#[trigger] file_edits(
                outcomes,
                path,
            )[k]).0 != (#[trigger] file_edits(outcomes, path)[l]).0,
        forall|i: int|
            0 <= i < outcomes.len() && survives(#[trigger] outcomes[i], path) ==> file_edits(
                outcomes,
                path,
            ).contains((i, outcomes[i].edit->0)),
    decreases outcomes.len(),
{
    if outcomes.len() > 0 {
        let shorter = outcomes.drop_last();
        lemma_file_edits(shorter, path);
        let earlier = file_edits(shorter, path);
        let last = outcomes.last();
        let n = outcomes.len() - 1;
        if survives(last, path) {
            let x: Placed = (n, last.edit->0);
            lemma_insert_edit_sorted(earlier, x);
            lemma_insert_position(earlier, x);
            let r = insert_edit(earlier, x);
            assert forall|k: int| 0 <= k < r.len() implies ({
                let p = #[trigger] r[k];
                &&& 0 <= p.0 < outcomes.len()
                &&& survives(outcomes[p.0], path)
                &&& p.1 == outcomes[p.0].edit->0
            }) by {
                if r[k] != x {
                    let m = choose|m: int| 0 <= m < earlier.len() && earlier[m] == r[k];
                    assert(earlier[m] == r[k]);
                    assert(shorter[earlier[m].0] == outcomes[earlier[m].0]);
                }
            }
            let at = choose|at: int| 0 <= at <= earlier.len() && r == earlier.insert(at, x);
            assert forall|k: int, l: int| 0 <= k < l < r.len() implies (#[trigger] r[k]).0 != (
            #[trigger] r[l]).0 by {
                if k == at {
                    assert(r[l] == earlier[l - 1]);
                } else if l == at {
                    assert(r[k] == earlier[k]);
                } else {
                    let a = if k < at {
                        k
                    } else {
                        k - 1
                    };
                    let b = if l < at {
                        l
                    } else {
                        l - 1
                    };
                    assert(r[k] == earlier[a] && r[l] == earlier[b]);
                }
            }
            assert forall|i: int|
                0 <= i < outcomes.len() && survives(#[trigger] outcomes[i], path) implies r.contains(
                (i, outcomes[i].edit->0),
            ) by {
                if i < n {
                    assert(shorter[i] == outcomes[i]);
                    assert(earlier.contains((i, outcomes[i].edit->0)));
                }
            }
        } else {
            assert forall|k: int| 0 <= k < earlier.len() implies ({
                let p = #[trigger] earlier[k];
                &&& 0 <= p.0 < outcomes.len()
                &&& survives(outcomes[p.0], path)
                &&& p.1 == outcomes[p.0].edit->0
            }) by {
                assert(shorter[earlier[k].0] == outcomes[earlier[k].0]);
            }
            assert forall|i: int|
                0 <= i < outcomes.len() && survives(#[trigger] outcomes[i], path) implies earlier.contains(
                (i, outcomes[i].edit->0),
            ) by {
                if i < n {
                    assert(shorter[i] == outcomes[i]);
                }
            }
        }
    }
}

proof fn lemma_insert_position(list: Seq<Placed>, x: Placed)
    ensures
        exists|at: int| 0 <= at <= list.len() && insert_edit(list, x) == #[trigger] list.insert(at, x),
    decreases list.len(),
{
    if list.len() > 0 && edit_key(x.1) < edit_key(list.last().1) {
        lemma_insert_position(list.drop_last(), x);
        let at = choose|at: int|
            0 <= at <= list.len() - 1 && insert_edit(list.drop_last(), x) == #[trigger] list.drop_last().insert(at, x);
        assert(list.drop_last().insert(at, x).push(list.last()) =~= list.insert(at, x));
    } else {
        assert(list.push(x) =~= list.insert(list.len() as int, x));
    }
}

/// The edits that stand for one file never overlap: they can be made from the
/// beginning of the file to its end.
pub proof fn law_standing_edits_are_in_order(
    outcomes: Seq<OutcomeView>,
    path: Seq<char>,
    source: Seq<char>,
)
    requires
        compatible(outcomes),
        edits_fit(outcomes, path, source),
    ensures
        in_order(source, file_edits(outcomes, path)),
{
    let edits = file_edits(outcomes, path);
    lemma_file_edits(outcomes, path);
    assert forall|i: int| 0 <= i < edits.len() implies 0 <= (#[trigger] edits[i]).1.start
        <= edits[i].1.end <= source.len() by {
        assert(survives(outcomes[edits[i].0], path));
    }
    assert forall|i: int, j: int| 0 <= i < j < edits.len() implies (#[trigger] edits[i]).1.end <= (
    #[trigger] edits[j]).1.start by {
        let a = edits[i];
        let b = edits[j];
        assert(survives(outcomes[a.0], path) && survives(outcomes[b.0], path));
        assert(edit_key(a.1) <= edit_key(b.1));
        assert(a.0 != b.0);
        if a.0 < b.0 {
            assert(!clash(outcomes[a.0], outcomes[b.0]));
        } else {
            assert(!clash(outcomes[b.0], outcomes[a.0]));
        }
        assert(!conflict(a.1, b.1) || !conflict(b.1, a.1));
    }
}

pub open spec fn placed(edits: Seq<(usize, LineEdit)>) -> Seq<Placed> {
    edits.map_values(|e: (usize, LineEdit)| (e.0 as int, e.1@))
}

/// Makes edits that lie one behind the other.
pub fn apply_edits(source: &str, edits: &Vec<(usize, LineEdit)>) -> (r: (String, Vec<
    (usize, (usize, usize)),
>))
    requires
        in_order(source@, placed(edits@)),
    ensures
        r.0@ == edited(source@, placed(edits@)),
        r.1@.len() == edits@.len(),
        forall|k: int|
            0 <= k < edits@.len() ==> (#[trigger] r.1@[k]).0 == edits@[k].0 && (
                r.1@[k].1.0 as int,
                r.1@[k].1.1 as int,
            ) == edited_range(source@, placed(edits@), k),
{
    let ghost all = placed(edits@);
    let mut result = String::new();
    let mut ranges: Vec<(usize, (usize, usize))> = Vec::new();
    let mut at: usize = 0;
    let mut i: usize = 0;
    let total: usize = source.unicode_len();
    while i < edits.len()
        invariant
            i <= edits@.len(),
            total == source@.len(),
            all == placed(edits@),
            in_order(source@, all),
            at == cursor(all.take(i as int)),
            at <= source@.len(),
            result@ == edited_head(source@, all.take(i as int)),
            ranges@.len() == i,
            forall|k: int|
                0 <= k < i ==> (#[trigger] ranges@[k]).0 == edits@[k].0 && (
                    ranges@[k].1.0 as int,
                    ranges@[k].1.1 as int,
                ) == edited_range(source@, all, k),
        decreases edits@.len() - i,
    {
        let edit = &edits[i].1;
        proof {
            assert(all[i as int].1 == edit@);
            assert(all.take(i + 1).drop_last() =~= all.take(i as int));
            assert(all.take(i + 1).last() == all[i as int]);
            if i > 0 {
                assert(all.take(i as int).last() == all[i - 1]);
                assert(all[i - 1].1.end <= all[i as int].1.start);
            }
        }
        result.push_str(source.substring_char(at, edit.start));
        let start: usize = result.as_str().unicode_len();
        result.push_str(edit.replacement.as_str());
        let end: usize = result.as_str().unicode_len();
        ranges.push((edits[i].0, (start, end)));
        at = edit.end;
        i += 1;
    }
    proof {
        assert(all.take(i as int) =~= all);
    }
    result.push_str(source.substring_char(at, total));
    (result, ranges)
}

// ---------------------------------------------------------------------------
// Plans
// ---------------------------------------------------------------------------

/// The new content of one file.
#[derive(Clone, Debug)]
pub struct FilePlan {
    pub path: String,
    pub content: String,
    pub old_content: String,
}

/// The snapshot that was taken of `path`.
pub open spec fn snapshot_of(snapshots: Seq<(String, FileSnapshot)>, path: Seq<char>) -> Option<
    FileSnapshot,
>
    decreases snapshots.len(),
{
    if snapshots.len() == 0 {
        None
    } else if snapshots[0].0@ == path {
        Some(snapshots[0].1)
    } else {
        snapshot_of(snapshots.drop_first(), path)
    }
}

pub fn find_snapshot<'a>(snapshots: &'a Vec<(String, FileSnapshot)>, path: &str) -> (r: Option<
    &'a FileSnapshot,
>)
    ensures
        match r {
            Some(s) => snapshot_of(snapshots@, path@) == Some(*s),
            None => snapshot_of(snapshots@, path@) is None,
        },
{
    let mut i: usize = 0;
    proof {
        assert(snapshots@.skip(0) =~= snapshots@);
    }
    while i < snapshots.len()
        invariant
            i <= snapshots@.len(),
            snapshot_of(snapshots@, path@) == snapshot_of(snapshots@.skip(i as int), path@),
        decreases snapshots@.len() - i,
    {
        let ghost rest = snapshots@.skip(i as int);
        proof {
            assert(rest[0] == snapshots@[i as int]);
            assert(rest.drop_first() =~= snapshots@.skip(i + 1));
        }
        if text::same_text(snapshots[i].0.as_str(), path) {
            return Some(&snapshots[i].1);
        }
        i += 1;
    }
    None
}

/// The content of `path` before any operation.
pub open spec fn old_content(snapshots: Seq<(String, FileSnapshot)>, path: Seq<char>) -> Seq<char> {
    snapshot_of(snapshots, path)->0.content->0@
}

/// The content of `path` once all operations on it that stand are made.
pub open spec fn new_content(
    outcomes: Seq<OutcomeView>,
    snapshots: Seq<(String, FileSnapshot)>,
    path: Seq<char>,
) -> Seq<char> {
    edited(old_content(snapshots, path), file_edits(outcomes, path))
}

/// Every operation that stands has a readable file in which its edit lies.
pub open spec fn ready(outcomes: Seq<OutcomeView>, snapshots: Seq<(String, FileSnapshot)>) -> bool {
    forall|i: int|
        0 <= i < outcomes.len() && (#[trigger] outcomes[i]).failure is None ==> {
            let snapshot = snapshot_of(snapshots, outcomes[i].operation.path);
            &&& snapshot is Some && snapshot->0.content is Some
            &&& outcomes[i].edit is Some
            &&& 0 <= outcomes[i].edit->0.start <= outcomes[i].edit->0.end
                <= snapshot->0.content->0@.len()
        }
}

pub open spec fn limit_message(max_bytes: nat) -> Seq<char> {
    "patched file exceeds limit of "@ + text::decimal(max_bytes) + " bytes"@
}

/// Where the text of operation `i` lies in the new content of its file.
pub open spec fn is_final_range(
    before: Seq<OutcomeView>,
    snapshots: Seq<(String, FileSnapshot)>,
    i: int,
    range: Option<(int, int)>,
) -> bool {
    let path = before[i].operation.path;
    let edits = file_edits(before, path);
    exists|k: int|
        0 <= k < edits.len() && (#[trigger] edits[k]).0 == i && range == Some(
            edited_range(old_content(snapshots, path), edits, k),
        )
}

/// What planning makes of operation `i`.
pub open spec fn planned(
    before: Seq<OutcomeView>,
    snapshots: Seq<(String, FileSnapshot)>,
    max_bytes: nat,
    i: int,
    after: OutcomeView,
) -> bool {
    let o = before[i];
    if o.failure is Some {
        after == o
    } else if text::utf8_len(new_content(before, snapshots, o.operation.path)) > max_bytes {
        after == OutcomeView { failure: Some(limit_message(max_bytes)), ..o }
    } else {
        &&& after == OutcomeView { final_range: after.final_range, ..o }
        &&& is_final_range(before, snapshots, i, after.final_range)
    }
}

/// A file gets new content exactly where an operation on it stands and the
/// content keeps to the limit.
pub open spec fn is_planned_path(
    before: Seq<OutcomeView>,
    snapshots: Seq<(String, FileSnapshot)>,
    max_bytes: nat,
    path: Seq<char>,
) -> bool {
    &&& exists|i: int| 0 <= i < before.len() && survives(#[trigger] before[i], path)
    &&& text::utf8_len(new_content(before, snapshots, path)) <= max_bytes
}

pub open spec fn plan_paths(plans: Seq<FilePlan>) -> Seq<Seq<char>> {
    plans.map_values(|p: FilePlan| p.path@)
}

proof fn lemma_file_edits_same(a: Seq<OutcomeView>, b: Seq<OutcomeView>, path: Seq<char>)
    requires
        a.len() == b.len(),
        forall|i: int|
            0 <= i < a.len() ==> survives(#[trigger] a[i], path) == survives(b[i], path) && (
            survives(a[i], path) ==> a[i].edit == b[i].edit),
    ensures
        file_edits(a, path) == file_edits(b, path),
    decreases a.len(),
{
    if a.len() > 0 {
        assert forall|i: int| 0 <= i < a.drop_last().len() implies survives(
            #[trigger] a.drop_last()[i],
            path,
        ) == survives(b.drop_last()[i], path) && (survives(a.drop_last()[i], path)
            ==> a.drop_last()[i].edit == b.drop_last()[i].edit) by {
            assert(a.drop_last()[i] == a[i] && b.drop_last()[i] == b[i]);
        }
        lemma_file_edits_same(a.drop_last(), b.drop_last(), path);
        let n = a.len() - 1;
        assert(a.last() == a[n] && b.last() == b[n]);
        assert(survives(a[n], path) == survives(b[n], path));
    }
}

fn clone_edit(e: &LineEdit) -> (r: LineEdit)
    ensures
        r@ == e@,
{
    LineEdit { start: e.start, end: e.end, replacement: text::owned(e.replacement.as_str()) }
}

fn is_range_edit(e: &LineEdit) -> (r: bool)
    ensures
        r == (e@.start != e@.end),
{
    e.start != e.end
}

fn comes_before(a: &LineEdit, b: &LineEdit) -> (r: bool)
    ensures
        r == (edit_key(a@) < edit_key(b@)),
{
    a.start < b.start || (a.start == b.start && !is_range_edit(a) && is_range_edit(b))
}

/// The edits that stand for `path`, in the order in which they are made.
fn collect_edits(outcomes: &Vec<OperationOutcome>, path: &str) -> (r: Vec<(usize, LineEdit)>)
    requires
        all_wf(outcomes@),
    ensures
        placed(r@) == file_edits(views(outcomes@), path@),
{
    let mut out: Vec<(usize, LineEdit)> = Vec::new();
    let mut i: usize = 0;
    proof {
        assert(placed(out@) =~= Seq::empty());
        assert(views(outcomes@).take(0) =~= Seq::empty());
    }
    while i < outcomes.len()
        invariant
            i <= outcomes@.len(),
            all_wf(outcomes@),
            placed(out@) == file_edits(views(outcomes@).take(i as int), path@),
        decreases outcomes@.len() - i,
    {
        let o = &outcomes[i];
        let ghost all = views(outcomes@);
        proof {
            assert(all.take(i + 1).drop_last() =~= all.take(i as int));
            assert(all.take(i + 1).last() == outcomes@[i as int]@);
            assert(outcomes@[i as int].wf());
        }
        if o.failure.is_none() && text::same_text(o.operation.path.as_str(), path) {
            if let Some(e) = &o.edit {
                let edit = clone_edit(e);
                let mut k: usize = out.len();
                while k > 0 && comes_before(&edit, &out[k - 1].1)
                    invariant
                        k <= out@.len(),
                        forall|j: int|
                            k <= j < out@.len() ==> edit_key(edit@) < edit_key((#[trigger] placed(out@)[j]).1),
                    decreases k,
                {
                    k -= 1;
                }
                let ghost list = placed(out@);
                proof {
                    if k > 0 {
                        assert(list[k - 1].1 == out@[k - 1].1@);
                    }
                    lemma_insert_edit(list, (i as int, edit@), k as int);
                }
                out.insert(k, (i, edit));
                proof {
                    assert(placed(out@) =~= list.insert(k as int, (i as int, edit@)));
                }
            }
        }
        i += 1;
    }
    proof {
        assert(views(outcomes@).take(i as int) =~= views(outcomes@));
    }
    out
}

/// The operations on `path` fail for their size.
fn fail_oversized(outcomes: &mut Vec<OperationOutcome>, path: &str, max_bytes: usize)
    requires
        all_wf(old(outcomes)@),
    ensures
        all_wf(final(outcomes)@),
        final(outcomes)@.len() == old(outcomes)@.len(),
        forall|i: int|
            0 <= i < old(outcomes)@.len() ==> (#[trigger] final(outcomes)@[i])@ == (if survives(
                old(outcomes)@[i]@,
                path@,
            ) {
                OutcomeView {
                    failure: Some(limit_message(max_bytes as nat)),
                    ..old(outcomes)@[i]@
                }
            } else {
                old(outcomes)@[i]@
            }),
{
    let ghost start = outcomes@;
    let mut i: usize = 0;
    while i < outcomes.len()
        invariant
            i <= outcomes@.len(),
            outcomes@.len() == start.len(),
            all_wf(outcomes@),
            forall|j: int| i <= j < start.len() ==> outcomes@[j] == start[j],
            forall|j: int|
                0 <= j < i ==> (#[trigger] outcomes@[j])@ == (if survives(start[j]@, path@) {
                    OutcomeView { failure: Some(limit_message(max_bytes as nat)), ..start[j]@ }
                } else {
                    start[j]@
                }),
        decreases outcomes@.len() - i,
    {
        if outcomes[i].failure.is_none() && text::same_text(
            outcomes[i].operation.path.as_str(),
            path,
        ) {
            let reason = text::cat3(
                "patched file exceeds limit of ",
                text::usize_text(max_bytes).as_str(),
                " bytes",
            );
            outcomes[i].failure = Some(reason);
        }
        i += 1;
    }
}

/// Records where the texts of the operations on `path` lie.
fn set_ranges(
    outcomes: &mut Vec<OperationOutcome>,
    edits: &Vec<(usize, LineEdit)>,
    ranges: &Vec<(usize, (usize, usize))>,
)
    requires
        all_wf(old(outcomes)@),
        ranges@.len() == edits@.len(),
        forall|k: int| 0 <= k < edits@.len() ==> (#[trigger] ranges@[k]).0 == edits@[k].0,
        forall|k: int| 0 <= k < edits@.len() ==> (#[trigger] edits@[k]).0 < old(outcomes)@.len(),
        forall|k: int, l: int|
            0 <= k < l < edits@.len() ==> (#[trigger] edits@[k]).0 != (#[trigger] edits@[l]).0,
    ensures
        all_wf(final(outcomes)@),
        final(outcomes)@.len() == old(outcomes)@.len(),
        forall|i: int|
            0 <= i < old(outcomes)@.len() ==> (#[trigger] final(outcomes)@[i])@ == (OutcomeView {
                final_range: final(outcomes)@[i]@.final_range,
                ..old(outcomes)@[i]@
            }),
        forall|i: int|
            0 <= i < old(outcomes)@.len() && (forall|k: int|
                0 <= k < edits@.len() ==> (#[trigger] edits@[k]).0 != i) ==> (
            #[trigger] final(outcomes)@[i])@ == old(outcomes)@[i]@,
        forall|k: int|
            0 <= k < edits@.len() ==> final(outcomes)@[(#[trigger] edits@[k]).0 as int]@.final_range
                == Some((ranges@[k].1.0 as int, ranges@[k].1.1 as int)),
{
    let ghost start = outcomes@;
    let mut k: usize = 0;
    while k < ranges.len()
        invariant
            k <= ranges@.len(),
            ranges@.len() == edits@.len(),
            outcomes@.len() == start.len(),
            all_wf(outcomes@),
            forall|m: int| 0 <= m < edits@.len() ==> (#[trigger] ranges@[m]).0 == edits@[m].0,
            forall|m: int| 0 <= m < edits@.len() ==> (#[trigger] edits@[m]).0 < start.len(),
            forall|m: int, l: int|
                0 <= m < l < edits@.len() ==> (#[trigger] edits@[m]).0 != (#[trigger] edits@[l]).0,
            forall|i: int|
                0 <= i < start.len() ==> (#[trigger] outcomes@[i])@ == (OutcomeView {
                    final_range: outcomes@[i]@.final_range,
                    ..start[i]@
                }),
            forall|i: int|
                0 <= i < start.len() && (forall|m: int|
                    0 <= m < edits@.len() ==> (#[trigger] edits@[m]).0 != i) ==> (
                #[trigger] outcomes@[i])@ == start[i]@,
            forall|m: int|
                0 <= m < k ==> outcomes@[(#[trigger] edits@[m]).0 as int]@.final_range == Some(
                    (ranges@[m].1.0 as int, ranges@[m].1.1 as int),
                ),
        decreases ranges@.len() - k,
    {
        let index: usize = ranges[k].0;
        let ghost before = outcomes@;
        proof {
            assert(ranges@[k as int].0 == edits@[k as int].0);
            assert(before[index as int].wf());
        }
        outcomes[index].final_range = Some(ranges[k].1);
        proof {
            assert forall|i: int| 0 <= i < start.len() && i != index implies outcomes@[i] == before[i] by {}
            assert forall|m: int| 0 <= m < k + 1 implies outcomes@[(
            #[trigger] edits@[m]).0 as int]@.final_range == Some(
                (ranges@[m].1.0 as int, ranges@[m].1.1 as int),
            ) by {
                if m < k {
                    assert(edits@[m].0 != edits@[k as int].0);
                    assert(outcomes@[edits@[m].0 as int] == before[edits@[m].0 as int]);
                }
            }
        }
        k += 1;
    }
}

/// The plans are those of the files that get new content, each once.
pub open spec fn are_plans(
    before: Seq<OutcomeView>,
    snapshots: Seq<(String, FileSnapshot)>,
    max_bytes: nat,
    plans: Seq<FilePlan>,
) -> bool {
    &&& forall|k: int|
        0 <= k < plans.len() ==> {
            &&& is_planned_path(before, snapshots, max_bytes, (#[trigger] plans[k]).path@)
            &&& plans[k].content@ == new_content(before, snapshots, plans[k].path@)
            &&& plans[k].old_content@ == old_content(snapshots, plans[k].path@)
        }
    &&& forall|k: int, l: int|
        0 <= k < l < plans.len() ==> (#[trigger] plans[k]).path@ != (#[trigger] plans[l]).path@
    &&& forall|path: Seq<char>| #[trigger]
        is_planned_path(before, snapshots, max_bytes, path) ==> plan_paths(plans).contains(path)
}

/// Works out the new content of every file, and fails the operations on files
/// that would become too long.
#[verifier::rlimit(60)]
#[verifier::spinoff_prover]
pub fn build_file_plans(
    outcomes: &mut Vec<OperationOutcome>,
    snapshots: &Vec<(String, FileSnapshot)>,
    max_bytes: usize,
) -> (plans: Vec<FilePlan>)
    requires
        all_wf(old(outcomes)@),
        compatible(views(old(outcomes)@)),
        ready(views(old(outcomes)@), snapshots@),
    ensures
        all_wf(final(outcomes)@),
        final(outcomes)@.len() == old(outcomes)@.len(),
        forall|i: int|
            0 <= i < old(outcomes)@.len() ==> planned(
                views(old(outcomes)@),
                snapshots@,
                max_bytes as nat,
                i,
                (#[trigger] final(outcomes)@[i])@,
            ),
        are_plans(views(old(outcomes)@), snapshots@, max_bytes as nat, plans@),
{
    let ghost start = outcomes@;
    let ghost before = views(outcomes@);
    let ghost max = max_bytes as nat;
    let mut done: Vec<String> = Vec::new();
    let mut plans: Vec<FilePlan> = Vec::new();
    let mut i: usize = 0;
    let n: usize = outcomes.len();
    while i < n
        invariant
            i <= n,
            n == start.len(),
            outcomes@.len() == n,
            before == views(start),
            max == max_bytes as nat,
            all_wf(outcomes@),
            compatible(before),
            ready(before, snapshots@),
            forall|j: int|
                0 <= j < n ==> (if before[j].failure is Some || !text::texts(done@).contains(
                    before[j].operation.path,
                ) {
                    (#[trigger] outcomes@[j])@ == before[j]
                } else {
                    planned(before, snapshots@, max, j, outcomes@[j]@)
                }),
            forall|j: int|
                0 <= j < i && (#[trigger] before[j]).failure is None ==> text::texts(
                    done@,
                ).contains(before[j].operation.path),
            forall|k: int|
                0 <= k < plans@.len() ==> {
                    &&& is_planned_path(before, snapshots@, max, (#[trigger] plans@[k]).path@)
                    &&& plans@[k].content@ == new_content(before, snapshots@, plans@[k].path@)
                    &&& plans@[k].old_content@ == old_content(snapshots@, plans@[k].path@)
                    &&& text::texts(done@).contains(plans@[k].path@)
                },
            forall|k: int, l: int|
                0 <= k < l < plans@.len() ==> (#[trigger] plans@[k]).path@ != (
                #[trigger] plans@[l]).path@,
            forall|path: Seq<char>| #[trigger]
                text::texts(done@).contains(path) && is_planned_path(
                    before,
                    snapshots@,
                    max,
                    path,
                ) ==> plan_paths(plans@).contains(path),
        decreases n - i,
    {
        let fresh_path = outcomes[i].failure.is_none() && !text::contains_text(
            done.as_slice(),
            outcomes[i].operation.path.as_str(),
        );
        let ghost here = before[i as int];
        proof {
            assert(outcomes@[i as int].wf());
        }
        if fresh_path {
            let path = text::owned(outcomes[i].operation.path.as_str());
            let ghost now = outcomes@;
            let ghost done_before = text::texts(done@);
            let ghost plans_before = plans@;
            proof {
                assert(now[i as int]@ == before[i as int]) by {
                    if before[i as int].failure is None {
                        if done_before.contains(before[i as int].operation.path) {
                            assert(planned(before, snapshots@, max, i as int, now[i as int]@));
                            assert(now[i as int]@.operation == before[i as int].operation);
                        }
                    }
                }
                assert(!done_before.contains(path@));
                assert(survives(before[i as int], path@));
                assert forall|j: int| 0 <= j < n implies survives(
                    #[trigger] views(now)[j],
                    path@,
                ) == survives(before[j], path@) && (survives(views(now)[j], path@) ==> views(
                    now,
                )[j].edit == before[j].edit) by {
                    assert(views(now)[j] == now[j]@);
                    if before[j].failure is None && done_before.contains(before[j].operation.path) {
                        assert(planned(before, snapshots@, max, j, now[j]@));
                    }
                }
                lemma_file_edits_same(views(now), before, path@);
            }
            let snapshot = match find_snapshot(snapshots, path.as_str()) {
                Some(s) => s,
                None => {
                    proof {
                        assert(false);
                    }
                    return plans;
                },
            };
            let source = match &snapshot.content {
                Some(c) => c,
                None => {
                    proof {
                        assert(false);
                    }
                    return plans;
                },
            };
            let edits = collect_edits(&*outcomes, path.as_str());
            let ghost list = file_edits(before, path@);
            proof {
                assert(edits_fit(before, path@, source@));
                law_standing_edits_are_in_order(before, path@, source@);
                lemma_file_edits(before, path@);
            }
            let (content, ranges) = apply_edits(source.as_str(), &edits);
            let ghost text_now = content@;
            proof {
                assert(text_now == new_content(before, snapshots@, path@));
                assert forall|k: int| 0 <= k < edits@.len() implies (
                #[trigger] edits@[k]).0 < n by {
                    assert(placed(edits@)[k].0 == edits@[k].0);
                    assert(list[k].0 < n);
                }
                assert forall|k: int, l: int| 0 <= k < l < edits@.len() implies (
                #[trigger] edits@[k]).0 != (#[trigger] edits@[l]).0 by {
                    assert(placed(edits@)[k].0 == edits@[k].0 && placed(edits@)[l].0 == edits@[l].0);
                    assert(list[k].0 != list[l].0);
                }
            }
            if text::byte_len(content.as_str()) > max_bytes {
                fail_oversized(outcomes, path.as_str(), max_bytes);
                proof {
                    assert forall|j: int| 0 <= j < n implies (if before[j].failure is Some || !(
                    done_before.contains(before[j].operation.path) || before[j].operation.path
                        == path@) {
                        (#[trigger] outcomes@[j])@ == before[j]
                    } else {
                        planned(before, snapshots@, max, j, outcomes@[j]@)
                    }) by {
                        assert(views(now)[j] == now[j]@);
                        assert(survives(views(now)[j], path@) == survives(before[j], path@));
                    }
                }
            } else {
                set_ranges(outcomes, &edits, &ranges);
                proof {
                    assert forall|j: int| 0 <= j < n implies (if before[j].failure is Some || !(
                    done_before.contains(before[j].operation.path) || before[j].operation.path
                        == path@) {
                        (#[trigger] outcomes@[j])@ == before[j]
                    } else {
                        planned(before, snapshots@, max, j, outcomes@[j]@)
                    }) by {
                        assert(views(now)[j] == now[j]@);
                        assert(survives(views(now)[j], path@) == survives(before[j], path@));
                        if survives(before[j], path@) {
                            assert(list.contains((j, before[j].edit->0)));
                            let k = choose|k: int|
                                0 <= k < list.len() && list[k] == (j, before[j].edit->0);
                            assert(list[k].0 == j);
                            assert(placed(edits@)[k].0 == edits@[k].0);
                            assert(edits@[k].0 == j);
                            assert(ranges@[k].0 == j);
                            assert(is_final_range(before, snapshots@, j, outcomes@[j]@.final_range));
                            assert(now[j]@ == before[j]) by {
                                if done_before.contains(before[j].operation.path) {
                                    assert(false);
                                }
                            }
                        } else {
                            assert forall|k: int| 0 <= k < edits@.len() implies (
                            #[trigger] edits@[k]).0 != j by {
                                assert(placed(edits@)[k].0 == edits@[k].0);
                                assert(survives(before[list[k].0], path@));
                            }
                        }
                    }
                }
                let old = text::owned(source.as_str());
                plans.push(FilePlan { path: text::owned(path.as_str()), content, old_content: old });
                proof {
                    assert(is_planned_path(before, snapshots@, max, path@));
                    assert(plan_paths(plans@).last() == path@);
                    assert(plans@.drop_last() =~= plans_before);
                }
            }
            let ghost path_text = path@;
            done.push(path);
            proof {
                assert(text::texts(done@) =~= done_before.push(path_text));
                assert forall|p: Seq<char>| #[trigger]
                    text::texts(done@).contains(p) == (done_before.contains(p) || p == path_text) by {
                    if done_before.contains(p) {
                        let m = choose|m: int| 0 <= m < done_before.len() && done_before[m] == p;
                        assert(text::texts(done@)[m] == p);
                    }
                    if p == path_text {
                        assert(text::texts(done@)[done_before.len() as int] == p);
                    }
                    if text::texts(done@).contains(p) {
                        let m = choose|m: int|
                            0 <= m < text::texts(done@).len() && text::texts(done@)[m] == p;
                        if m < done_before.len() {
                            assert(done_before[m] == p);
                        }
                    }
                }
                assert forall|p: Seq<char>| #[trigger]
                    text::texts(done@).contains(p) && is_planned_path(
                        before,
                        snapshots@,
                        max,
                        p,
                    ) implies plan_paths(plans@).contains(p) by {
                    if done_before.contains(p) {
                        assert(plan_paths(plans_before).contains(p));
                        let m = choose|m: int|
                            0 <= m < plan_paths(plans_before).len() && plan_paths(plans_before)[m] == p;
                        assert(plan_paths(plans@)[m] == p);
                    } else {
                        assert(plan_paths(plans@)[plans@.len() - 1] == p);
                    }
                }
            }
        }
        i += 1;
    }
    proof {
        assert forall|path: Seq<char>| #[trigger]
            is_planned_path(before, snapshots@, max, path) implies plan_paths(plans@).contains(
            path,
        ) by {
            let j = choose|j: int| 0 <= j < before.len() && survives(#[trigger] before[j], path);
            assert(survives(before[j], path));
            assert(text::texts(done@).contains(path));
        }
    }
    plans
}

// ---------------------------------------------------------------------------
// Showing files
// ---------------------------------------------------------------------------

/// The number of line feeds in `s`.
pub open spec fn line_feeds(s: Seq<char>) -> nat
    decreases s.len(),
{
    if s.len() == 0 {
        0
    } else {
        line_feeds(s.drop_last()) + (if s.last() == '\n' {
            1nat
        } else {
            0nat
        })
    }
}

pub open spec fn min(a: int, b: int) -> int {
    if a <= b {
        a
    } else {
        b
    }
}

pub open spec fn max(a: int, b: int) -> int {
    if a >= b {
        a
    } else {
        b
    }
}

/// The line in which position `at` lies.
pub open spec fn first_line(source: Seq<char>, at: int) -> int {
    min(line_feeds(source.take(at)) as int + 1, text::lines_of(source).len() as int)
}

/// The line in which the text up to position `at` ends.
pub open spec fn last_line(source: Seq<char>, at: int) -> int {
    let prefix = source.take(at);
    line_feeds(prefix) + (if prefix.len() > 0 && prefix.last() == '\n' {
        0int
    } else {
        1int
    })
}

pub open spec fn omitted(count: int) -> Seq<char> {
    "... "@ + text::decimal(count as nat) + " line(s) omitted ..."@
}

/// The lines of `source` that show the text in `range`, with one line around
/// it; of more than six lines the middle is left out.
pub open spec fn region(source: Seq<char>, range: (int, int)) -> Seq<Seq<char>> {
    let shown = hashline::shown_lines(source);
    let n = shown.len() as int;
    let start = first_line(source, range.0);
    let end = min(max(last_line(source, range.1), start), n);
    let count = end - start + 1;
    let from = max(start - 2, 0);
    let to = min(end + 1, n);
    if count > 6 {
        shown.subrange(from, start + 2).push(omitted(count - 6)) + shown.subrange(end - 3, to)
    } else {
        shown.subrange(from, to)
    }
}

proof fn lemma_line_feeds_bound(s: Seq<char>)
    ensures
        line_feeds(s) <= s.len(),
    decreases s.len(),
{
    if s.len() > 0 {
        lemma_line_feeds_bound(s.drop_last());
    }
}

fn count_line_feeds(cs: &[char]) -> (r: usize)
    ensures
        r == line_feeds(cs@),
        r <= cs@.len(),
{
    let mut n: usize = 0;
    let mut i: usize = 0;
    while i < cs.len()
        invariant
            i <= cs@.len(),
            n <= i,
            n == line_feeds(cs@.take(i as int)),
        decreases cs@.len() - i,
    {
        proof {
            assert(cs@.take(i + 1).drop_last() =~= cs@.take(i as int));
            assert(cs@.take(i + 1).last() == cs@[i as int]);
        }
        if cs[i] == '\n' {
            n += 1;
        }
        i += 1;
    }
    proof {
        assert(cs@.take(i as int) =~= cs@);
    }
    n
}

/// The lines `from` up to `to` as they are shown.
fn show_range(lines: &Vec<HashLine>, from: usize, to: usize, Ghost(source): Ghost<Seq<char>>, out: &mut Vec<String>)
    requires
        hashline::is_rendering(lines@, source),
        from <= to <= lines@.len(),
    ensures
        text::texts(final(out)@) == text::texts(old(out)@) + hashline::shown_lines(source).subrange(
            from as int,
            to as int,
        ),
{
    let ghost shown = hashline::shown_lines(source);
    let ghost before = text::texts(out@);
    let mut i: usize = from;
    proof {
        assert(before + shown.subrange(from as int, from as int) =~= before);
    }
    while i < to
        invariant
            from <= i <= to <= lines@.len(),
            hashline::is_rendering(lines@, source),
            shown == hashline::shown_lines(source),
            text::texts(out@) == before + shown.subrange(from as int, i as int),
        decreases to - i,
    {
        let ghost now = text::texts(out@);
        out.push(hashline::format_hash_line(&lines[i]));
        proof {
            assert(lines@[i as int].line == i + 1);
            assert(text::texts(out@) =~= now.push(shown[i as int]));
            assert(shown.subrange(from as int, i + 1) =~= shown.subrange(from as int, i as int).push(
                shown[i as int],
            ));
            assert(text::texts(out@) =~= before + shown.subrange(from as int, i + 1));
        }
        i += 1;
    }
}

fn omission(count: usize) -> (r: String)
    ensures
        r@ == omitted(count as int),
{
    text::cat3("... ", text::usize_text(count).as_str(), " line(s) omitted ...")
}

/// Shows the lines around the text in `range` of `source`.
pub fn render_updated_region(source: &str, range: (usize, usize)) -> (r: String)
    requires
        range.0 <= range.1 <= source@.len(),
    ensures
        r@ == (if text::lines_of(source@).len() == 0 {
            "(file is empty)"@
        } else {
            text::joined(region(source@, (range.0 as int, range.1 as int)), "\n"@)
        }),
{
    let lines = hashline::render(source);
    if lines.len() == 0 {
        return text::owned("(file is empty)");
    }
    let n: usize = lines.len();
    let cs = text::to_chars(source);
    let feeds: usize = count_line_feeds(slice_subrange(cs.as_slice(), 0, range.0));
    let start: usize = if feeds < n {
        feeds + 1
    } else {
        n
    };
    let prefix = slice_subrange(cs.as_slice(), 0, range.1);
    let mut end: usize = count_line_feeds(prefix);
    if !(prefix.len() > 0 && prefix[prefix.len() - 1] == '\n') {
        proof {
            if prefix@.len() > 0 {
                lemma_line_feeds_bound(prefix@.drop_last());
            }
        }
        end = end + 1;
    }
    if end < start {
        end = start;
    }
    if end > n {
        end = n;
    }
    proof {
        assert(source@.take(range.0 as int) =~= cs@.subrange(0, range.0 as int));
        assert(source@.take(range.1 as int) =~= cs@.subrange(0, range.1 as int));
        assert(start == first_line(source@, range.0 as int));
        assert(hashline::shown_lines(source@).len() == n);
    }
    let count: usize = end - start + 1;
    let from: usize = if start >= 2 {
        start - 2
    } else {
        0
    };
    let to: usize = if end < n {
        end + 1
    } else {
        n
    };
    let mut out: Vec<String> = Vec::new();
    proof {
        assert(text::texts(out@) =~= Seq::empty());
    }
    if count > 6 {
        show_range(&lines, from, start + 2, Ghost(source@), &mut out);
        let ghost a = text::texts(out@);
        out.push(omission(count - 6));
        proof {
            assert(text::texts(out@) =~= a.push(omitted(count - 6)));
        }
        show_range(&lines, end - 3, to, Ghost(source@), &mut out);
    } else {
        show_range(&lines, from, to, Ghost(source@), &mut out);
    }
    proof {
        assert(text::texts(out@) =~= region(source@, (range.0 as int, range.1 as int)));
    }
    text::join(out.as_slice(), "\n")
}

/// The lines around an anchor, in a file of `n` lines.
pub open spec fn window(line: int, n: int) -> (int, int) {
    let at = min(max(line, 1), n);
    (max(at - 1, 1), min(at + 1, n))
}

/// `list` with `w` put behind all windows that come no later.
pub open spec fn insert_window(list: Seq<(int, int)>, w: (int, int)) -> Seq<(int, int)>
    decreases list.len(),
{
    if list.len() > 0 && (w.0 < list.last().0 || (w.0 == list.last().0 && w.1 < list.last().1)) {
        insert_window(list.drop_last(), w).push(list.last())
    } else {
        list.push(w)
    }
}

/// The windows of the anchors, sorted.
pub open spec fn windows(anchors: Seq<(nat, Seq<char>)>, n: int) -> Seq<(int, int)>
    decreases anchors.len(),
{
    if anchors.len() == 0 {
        Seq::empty()
    } else {
        insert_window(windows(anchors.drop_last(), n), window(anchors.last().0 as int, n))
    }
}

/// Sorted windows, with those joined that touch or overlap.
pub open spec fn merged(list: Seq<(int, int)>) -> Seq<(int, int)>
    decreases list.len(),
{
    if list.len() == 0 {
        Seq::empty()
    } else {
        let m = merged(list.drop_last());
        let w = list.last();
        if m.len() > 0 && w.0 <= m.last().1 + 1 {
            m.drop_last().push((m.last().0, max(m.last().1, w.1)))
        } else {
            m.push(w)
        }
    }
}

/// The windows as they are shown: the lines of each, and between two the number
/// of lines left out.
pub open spec fn shown_windows(lines: Seq<Seq<char>>, list: Seq<(int, int)>) -> Seq<Seq<char>>
    decreases list.len(),
{
    if list.len() == 0 {
        Seq::empty()
    } else {
        let earlier = shown_windows(lines, list.drop_last());
        let w = list.last();
        let gap = if list.len() > 1 {
            seq![omitted(max(w.0 - (list[list.len() - 2].1 + 1), 0))]
        } else {
            Seq::empty()
        };
        earlier + gap + lines.subrange(w.0 - 1, w.1)
    }
}

/// What is shown of a file around anchors that did not fit.
pub open spec fn context_around(lines: Seq<Seq<char>>, anchors: Seq<(nat, Seq<char>)>) -> Seq<char> {
    if lines.len() == 0 {
        "(file is empty)"@
    } else {
        text::joined(shown_windows(lines, merged(windows(anchors, lines.len() as int))), "\n"@)
    }
}

/// Lines as they are shown.
pub open spec fn show_all(lines: Seq<HashLine>) -> Seq<Seq<char>> {
    lines.map_values(|l: HashLine| hashline::shown_line(l.line as nat, l.tag@, l.text@))
}

pub open spec fn anchor_parts(anchors: Seq<&Anchor>) -> Seq<(nat, Seq<char>)> {
    anchors.map_values(|a: &Anchor| a.parts())
}

pub open spec fn window_views(list: Seq<(usize, usize)>) -> Seq<(int, int)> {
    list.map_values(|w: (usize, usize)| (w.0 as int, w.1 as int))
}

/// Each window lies in a file of `n` lines.
pub open spec fn windows_fit(list: Seq<(int, int)>, n: int) -> bool {
    forall|i: int| 0 <= i < list.len() ==> 1 <= (#[trigger] list[i]).0 <= list[i].1 <= n
}

proof fn lemma_insert_window(list: Seq<(int, int)>, w: (int, int), k: int)
    requires
        0 <= k <= list.len(),
        forall|j: int|
            k <= j < list.len() ==> w.0 < (#[trigger] list[j]).0 || (w.0 == list[j].0 && w.1
                < list[j].1),
        k == 0 || !(w.0 < list[k - 1].0 || (w.0 == list[k - 1].0 && w.1 < list[k - 1].1)),
    ensures
        insert_window(list, w) == list.insert(k, w),
    decreases list.len(),
{
    if k == list.len() {
        assert(list.insert(k, w) =~= list.push(w));
    } else {
        assert(list.last() == list[list.len() - 1]);
        assert forall|j: int| k <= j < list.len() - 1 implies w.0 < (
        #[trigger] list.drop_last()[j]).0 || (w.0 == list.drop_last()[j].0 && w.1
            < list.drop_last()[j].1) by {
            assert(list.drop_last()[j] == list[j]);
        }
        lemma_insert_window(list.drop_last(), w, k);
        assert(list.drop_last().insert(k, w).push(list.last()) =~= list.insert(k, w));
    }
}

fn sorted_windows(anchors: &Vec<&Anchor>, n: usize) -> (r: Vec<(usize, usize)>)
    requires
        n > 0,
    ensures
        window_views(r@) == windows(anchor_parts(anchors@), n as int),
        windows_fit(window_views(r@), n as int),
{
    let mut out: Vec<(usize, usize)> = Vec::new();
    let mut i: usize = 0;
    proof {
        assert(window_views(out@) =~= Seq::empty());
        assert(anchor_parts(anchors@).take(0) =~= Seq::empty());
    }
    while i < anchors.len()
        invariant
            i <= anchors@.len(),
            n > 0,
            window_views(out@) == windows(anchor_parts(anchors@).take(i as int), n as int),
            windows_fit(window_views(out@), n as int),
        decreases anchors@.len() - i,
    {
        let ghost all = anchor_parts(anchors@);
        proof {
            assert(all.take(i + 1).drop_last() =~= all.take(i as int));
            assert(all.take(i + 1).last() == anchors@[i as int].parts());
        }
        let line: usize = anchors[i].line;
        let at: usize = if line < 1 {
            1
        } else if line > n {
            n
        } else {
            line
        };
        let a: usize = if at > 1 {
            at - 1
        } else {
            1
        };
        let b: usize = if at < n {
            at + 1
        } else {
            n
        };
        let ghost list = window_views(out@);
        let ghost w = (a as int, b as int);
        let mut k: usize = out.len();
        while k > 0 && (a < out[k - 1].0 || (a == out[k - 1].0 && b < out[k - 1].1))
            invariant
                k <= out@.len(),
                list == window_views(out@),
                forall|j: int|
                    k <= j < list.len() ==> a < (#[trigger] list[j]).0 || (a == list[j].0 && b
                        < list[j].1),
            decreases k,
        {
            k -= 1;
        }
        proof {
            if k > 0 {
                assert(list[k - 1] == (out@[k - 1].0 as int, out@[k - 1].1 as int));
            }
            assert(w == window(line as int, n as int));
            lemma_insert_window(list, w, k as int);
        }
        out.insert(k, (a, b));
        proof {
            assert(window_views(out@) =~= list.insert(k as int, w));
            assert forall|j: int| 0 <= j < window_views(out@).len() implies 1 <= (
            #[trigger] window_views(out@)[j]).0 <= window_views(out@)[j].1 <= n by {
                if j < k {
                    assert(window_views(out@)[j] == list[j]);
                } else if j > k {
                    assert(window_views(out@)[j] == list[j - 1]);
                }
            }
        }
        i += 1;
    }
    proof {
        assert(anchor_parts(anchors@).take(i as int) =~= anchor_parts(anchors@));
    }
    out
}

fn merge_windows(list: &Vec<(usize, usize)>, n: usize) -> (r: Vec<(usize, usize)>)
    requires
        windows_fit(window_views(list@), n as int),
    ensures
        window_views(r@) == merged(window_views(list@)),
        windows_fit(window_views(r@), n as int),
{
    let mut out: Vec<(usize, usize)> = Vec::new();
    let mut i: usize = 0;
    proof {
        assert(window_views(out@) =~= Seq::empty());
        assert(window_views(list@).take(0) =~= Seq::empty());
    }
    while i < list.len()
        invariant
            i <= list@.len(),
            windows_fit(window_views(list@), n as int),
            window_views(out@) == merged(window_views(list@).take(i as int)),
            windows_fit(window_views(out@), n as int),
        decreases list@.len() - i,
    {
        let ghost all = window_views(list@);
        let ghost before = window_views(out@);
        proof {
            assert(all.take(i + 1).drop_last() =~= all.take(i as int));
            assert(all.take(i + 1).last() == all[i as int]);
        }
        let w = list[i];
        let m: usize = out.len();
        proof {
            if m > 0 {
                assert(before.last() == before[m - 1]);
                assert(before[m - 1] == (out@[m - 1].0 as int, out@[m - 1].1 as int));
            }
            assert(all[i as int] == (w.0 as int, w.1 as int));
        }
        if m > 0 && w.0 - 1 <= out[m - 1].1 {
            let last = out[m - 1];
            let end: usize = if last.1 >= w.1 {
                last.1
            } else {
                w.1
            };
            out.set(m - 1, (last.0, end));
            proof {
                assert(window_views(out@) =~= before.drop_last().push((last.0 as int, end as int)));
            }
        } else {
            out.push(w);
            proof {
                assert(window_views(out@) =~= before.push(all[i as int]));
            }
        }
        i += 1;
    }
    proof {
        assert(window_views(list@).take(i as int) =~= window_views(list@));
    }
    out
}

/// Shows the lines around the anchors of an operation.
pub fn surrounding_context(lines: &[HashLine], anchors: Vec<&Anchor>) -> (r: String)
    ensures
        r@ == context_around(show_all(lines@), anchor_parts(anchors@)),
{
    if lines.len() == 0 {
        return text::owned("(file is empty)");
    }
    let n: usize = lines.len();
    let sorted = sorted_windows(&anchors, n);
    let list = merge_windows(&sorted, n);
    let ghost all = window_views(list@);
    let ghost shown = show_all(lines@);
    let mut out: Vec<String> = Vec::new();
    let mut i: usize = 0;
    proof {
        assert(text::texts(out@) =~= Seq::empty());
        assert(all.take(0) =~= Seq::empty());
    }
    while i < list.len()
        invariant
            i <= list@.len(),
            n == lines@.len(),
            all == window_views(list@),
            shown == show_all(lines@),
            windows_fit(all, n as int),
            text::texts(out@) == shown_windows(shown, all.take(i as int)),
        decreases list@.len() - i,
    {
        let w = list[i];
        let ghost start = text::texts(out@);
        proof {
            assert(all.take(i + 1).drop_last() =~= all.take(i as int));
            assert(all.take(i + 1).last() == all[i as int]);
            assert(all[i as int] == (w.0 as int, w.1 as int));
        }
        let ghost gap = if i > 0 {
            seq![omitted(max(w.0 - (all[i - 1].1 + 1), 0))]
        } else {
            Seq::empty()
        };
        if i > 0 {
            let previous_end: usize = list[i - 1].1;
            proof {
                assert(all[i - 1] == (list@[i - 1].0 as int, list@[i - 1].1 as int));
                assert(all.take(i + 1)[i - 1] == all[i - 1]);
            }
            let skipped: usize = if w.0 - 1 > previous_end {
                w.0 - 1 - previous_end
            } else {
                0
            };
            out.push(omission(skipped));
        }
        proof {
            assert(text::texts(out@) =~= start + gap);
        }
        let mut j: usize = w.0 - 1;
        proof {
            assert(start + gap + shown.subrange(j as int, j as int) =~= start + gap);
        }
        while j < w.1
            invariant
                1 <= w.0 <= w.1 <= n,
                n == lines@.len(),
                w.0 - 1 <= j <= w.1,
                shown == show_all(lines@),
                text::texts(out@) == start + gap + shown.subrange(w.0 - 1, j as int),
            decreases w.1 - j,
        {
            let ghost now = text::texts(out@);
            out.push(hashline::format_hash_line(&lines[j]));
            proof {
                assert(text::texts(out@) =~= now.push(shown[j as int]));
                assert(shown.subrange(w.0 - 1, j + 1) =~= shown.subrange(w.0 - 1, j as int).push(
                    shown[j as int],
                ));
                assert(text::texts(out@) =~= start + gap + shown.subrange(w.0 - 1, j + 1));
            }
            j += 1;
        }
        i += 1;
    }
    proof {
        assert(all.take(i as int) =~= all);
        assert(shown.len() == n);
    }
    text::join(out.as_slice(), "\n")
}

// ---------------------------------------------------------------------------
// Diffs
// ---------------------------------------------------------------------------

/// How many leading lines two files share.
pub open spec fn common_prefix(a: Seq<Seq<char>>, b: Seq<Seq<char>>) -> nat
    decreases a.len(),
{
    if a.len() > 0 && b.len() > 0 && a[0] == b[0] {
        1 + common_prefix(a.drop_first(), b.drop_first())
    } else {
        0
    }
}

/// How many trailing lines two files share.
pub open spec fn common_suffix(a: Seq<Seq<char>>, b: Seq<Seq<char>>) -> nat
    decreases a.len(),
{
    if a.len() > 0 && b.len() > 0 && a.last() == b.last() {
        1 + common_suffix(a.drop_last(), b.drop_last())
    } else {
        0
    }
}

/// Lines with a mark in front and a line feed behind, one after the other.
pub open spec fn marked(lines: Seq<Seq<char>>, mark: char) -> Seq<char>
    decreases lines.len(),
{
    if lines.len() == 0 {
        Seq::empty()
    } else {
        marked(lines.drop_last(), mark) + seq![mark] + lines.last() + seq!['\n']
    }
}

/// The change from `old` to `new`: one hunk, from the first line that differs to
/// the last.
pub open spec fn diff_of(path: Seq<char>, old: Seq<char>, new: Seq<char>) -> Seq<char> {
    let a = text::lines_of(old);
    let b = text::lines_of(new);
    let p = common_prefix(a, b) as int;
    let s = common_suffix(a.skip(p), b.skip(p)) as int;
    let removed = a.subrange(p, a.len() - s);
    let added = b.subrange(p, b.len() - s);
    "--- "@ + path + "\n+++ "@ + path + "\n@@ -"@ + text::decimal((p + 1) as nat) + ","@
        + text::decimal(removed.len()) + " +"@ + text::decimal((p + 1) as nat) + ","@
        + text::decimal(added.len()) + " @@\n"@ + marked(removed, '-') + marked(added, '+')
}

pub proof fn lemma_common_prefix(a: Seq<Seq<char>>, b: Seq<Seq<char>>, i: int)
    requires
        0 <= i <= a.len(),
        i <= b.len(),
        a.take(i) == b.take(i),
    ensures
        common_prefix(a, b) == i + common_prefix(a.skip(i), b.skip(i)),
    decreases i,
{
    if i == 0 {
        assert(a.skip(0) =~= a);
        assert(b.skip(0) =~= b);
    } else {
        assert(a.take(i)[0] == b.take(i)[0]);
        assert(a.drop_first().take(i - 1) =~= a.take(i).drop_first());
        assert(b.drop_first().take(i - 1) =~= b.take(i).drop_first());
        lemma_common_prefix(a.drop_first(), b.drop_first(), i - 1);
        assert(a.drop_first().skip(i - 1) =~= a.skip(i));
        assert(b.drop_first().skip(i - 1) =~= b.skip(i));
    }
}

pub proof fn lemma_common_prefix_bound(a: Seq<Seq<char>>, b: Seq<Seq<char>>)
    ensures
        common_prefix(a, b) <= a.len(),
        common_prefix(a, b) <= b.len(),
        a.take(common_prefix(a, b) as int) == b.take(common_prefix(a, b) as int),
    decreases a.len(),
{
    let n = common_prefix(a, b) as int;
    if n > 0 {
        lemma_common_prefix_bound(a.drop_first(), b.drop_first());
        assert(a.take(n) =~= seq![a[0]] + a.drop_first().take(n - 1));
        assert(b.take(n) =~= seq![b[0]] + b.drop_first().take(n - 1));
    } else {
        assert(a.take(0) =~= b.take(0));
    }
}

pub proof fn lemma_common_suffix_bound(a: Seq<Seq<char>>, b: Seq<Seq<char>>)
    ensures
        common_suffix(a, b) <= a.len(),
        common_suffix(a, b) <= b.len(),
        a.skip(a.len() - common_suffix(a, b)) == b.skip(b.len() - common_suffix(a, b)),
    decreases a.len(),
{
    let n = common_suffix(a, b) as int;
    if n > 0 {
        lemma_common_suffix_bound(a.drop_last(), b.drop_last());
        let x = a.drop_last();
        let y = b.drop_last();
        assert(a.skip(a.len() - n) =~= x.skip(x.len() - (n - 1)).push(a.last()));
        assert(b.skip(b.len() - n) =~= y.skip(y.len() - (n - 1)).push(b.last()));
    } else {
        assert(a.skip(a.len() as int) =~= b.skip(b.len() as int));
    }
}

proof fn lemma_common_suffix(a: Seq<Seq<char>>, b: Seq<Seq<char>>, i: int)
    requires
        0 <= i <= a.len(),
        i <= b.len(),
        a.skip(a.len() - i) == b.skip(b.len() - i),
    ensures
        common_suffix(a, b) == i + common_suffix(a.take(a.len() - i), b.take(b.len() - i)),
    decreases i,
{
    if i == 0 {
        assert(a.take(a.len() as int) =~= a);
        assert(b.take(b.len() as int) =~= b);
    } else {
        let x = a.skip(a.len() - i);
        let y = b.skip(b.len() - i);
        assert(x[i - 1] == y[i - 1]);
        assert(a.last() == x[i - 1] && b.last() == y[i - 1]);
        assert(a.drop_last().skip(a.len() - 1 - (i - 1)) =~= x.drop_last());
        assert(b.drop_last().skip(b.len() - 1 - (i - 1)) =~= y.drop_last());
        lemma_common_suffix(a.drop_last(), b.drop_last(), i - 1);
        assert(a.drop_last().take(a.len() - i) =~= a.take(a.len() - i));
        assert(b.drop_last().take(b.len() - i) =~= b.take(b.len() - i));
    }
}

/// The lines that a diff leaves out are the same in both files: putting the
/// added lines in place of the removed ones turns the old lines into the new.
pub proof fn law_diff_turns_old_into_new(a: Seq<Seq<char>>, b: Seq<Seq<char>>)
    ensures
        ({
            let p = common_prefix(a, b) as int;
            let s = common_suffix(a.skip(p), b.skip(p)) as int;
            &&& p + s <= a.len() && p + s <= b.len()
            &&& a.take(p) + b.subrange(p, b.len() - s) + a.skip(a.len() - s) == b
            &&& (a == b ==> a.subrange(p, a.len() - s).len() == 0)
        }),
{
    let p = common_prefix(a, b) as int;
    lemma_common_prefix_bound(a, b);
    lemma_common_suffix_bound(a.skip(p), b.skip(p));
    let s = common_suffix(a.skip(p), b.skip(p)) as int;
    assert(a.skip(p).skip(a.len() - p - s) =~= a.skip(a.len() - s));
    assert(b.skip(p).skip(b.len() - p - s) =~= b.skip(b.len() - s));
    assert(b.take(p) + b.subrange(p, b.len() - s) + b.skip(b.len() - s) =~= b);
    if a == b {
        lemma_common_prefix(a, b, a.len() as int);
        assert(a.skip(a.len() as int) =~= Seq::empty());
        assert(p == a.len());
    }
}

fn push_marked(diff: &mut String, lines: &Vec<String>, from: usize, to: usize, mark: char)
    requires
        from <= to <= lines@.len(),
    ensures
        final(diff)@ == old(diff)@ + marked(
            text::texts(lines@).subrange(from as int, to as int),
            mark,
        ),
{
    let ghost all = text::texts(lines@);
    let ghost start = diff@;
    let mut i: usize = from;
    proof {
        assert(all.subrange(from as int, from as int) =~= Seq::empty());
        assert(start + Seq::<char>::empty() =~= start);
    }
    while i < to
        invariant
            from <= i <= to <= lines@.len(),
            all == text::texts(lines@),
            diff@ == start + marked(all.subrange(from as int, i as int), mark),
        decreases to - i,
    {
        let ghost now = diff@;
        diff.push(mark);
        diff.push_str(lines[i].as_str());
        diff.push('\n');
        proof {
            let part = all.subrange(from as int, i + 1);
            assert(part.drop_last() =~= all.subrange(from as int, i as int));
            assert(part.last() == lines@[i as int]@);
            assert(diff@ =~= start + marked(part, mark));
        }
        i += 1;
    }
}

/// The change from `old` to `new` as one unified hunk.
pub fn unified_diff(path: &str, old: &str, new: &str) -> (r: String)
    ensures
        r@ == diff_of(path@, old@, new@),
{
    let a = text::split_lines(old);
    let b = text::split_lines(new);
    let ghost x = text::texts(a@);
    let ghost y = text::texts(b@);
    let mut p: usize = 0;
    proof {
        assert(x.take(0) =~= y.take(0));
    }
    while p < a.len() && p < b.len() && text::same_text(a[p].as_str(), b[p].as_str())
        invariant
            p <= a@.len(),
            p <= b@.len(),
            x == text::texts(a@),
            y == text::texts(b@),
            x.take(p as int) == y.take(p as int),
        decreases a@.len() - p,
    {
        proof {
            assert(x.take(p + 1) =~= x.take(p as int).push(a@[p as int]@));
            assert(y.take(p + 1) =~= y.take(p as int).push(b@[p as int]@));
        }
        p += 1;
    }
    proof {
        lemma_common_prefix(x, y, p as int);
        if p < a@.len() && p < b@.len() {
            assert(x.skip(p as int)[0] == a@[p as int]@);
            assert(y.skip(p as int)[0] == b@[p as int]@);
        }
        assert(common_prefix(x, y) == p);
    }
    let ghost u = x.skip(p as int);
    let ghost v = y.skip(p as int);
    let mut s: usize = 0;
    proof {
        assert(u.skip(u.len() as int) =~= v.skip(v.len() as int));
    }
    while s < a.len() - p && s < b.len() - p && text::same_text(
        a[a.len() - s - 1].as_str(),
        b[b.len() - s - 1].as_str(),
    )
        invariant
            p <= a@.len(),
            p <= b@.len(),
            s <= a@.len() - p,
            s <= b@.len() - p,
            x == text::texts(a@),
            y == text::texts(b@),
            u == x.skip(p as int),
            v == y.skip(p as int),
            u.skip(u.len() - s) == v.skip(v.len() - s),
        decreases a@.len() - p - s,
    {
        proof {
            assert(u.skip(u.len() - s - 1) =~= seq![a@[a@.len() - s - 1]@] + u.skip(u.len() - s));
            assert(v.skip(v.len() - s - 1) =~= seq![b@[b@.len() - s - 1]@] + v.skip(v.len() - s));
        }
        s += 1;
    }
    proof {
        lemma_common_suffix(u, v, s as int);
        let uu = u.take(u.len() - s);
        let vv = v.take(v.len() - s);
        if uu.len() > 0 && vv.len() > 0 {
            assert(uu.last() == a@[a@.len() - s - 1]@);
            assert(vv.last() == b@[b@.len() - s - 1]@);
        }
        assert(common_suffix(u, v) == s);
    }
    let old_end: usize = a.len() - s;
    let new_end: usize = b.len() - s;
    let at = text::successor_text(p);
    let mut diff = text::cat5("--- ", path, "\n+++ ", path, "\n@@ -");
    diff.push_str(at.as_str());
    diff.push_str(",");
    diff.push_str(text::usize_text(old_end - p).as_str());
    diff.push_str(" +");
    diff.push_str(at.as_str());
    diff.push_str(",");
    diff.push_str(text::usize_text(new_end - p).as_str());
    diff.push_str(" @@\n");
    push_marked(&mut diff, &a, p, old_end, '-');
    push_marked(&mut diff, &b, p, new_end, '+');
    diff
}

// ---------------------------------------------------------------------------
// A whole patch
// ---------------------------------------------------------------------------

/// A patch on its way: the operations, the files as they were and the contents
/// to write.
pub struct PatchRun {
    pub outcomes: Vec<OperationOutcome>,
    pub plans: Vec<FilePlan>,
    pub snapshots: Vec<(String, FileSnapshot)>,
}

/// The plan for `path`.
pub open spec fn plan_of(plans: Seq<FilePlan>, path: Seq<char>) -> Option<FilePlan>
    decreases plans.len(),
{
    if plans.len() == 0 {
        None
    } else if plans[0].path@ == path {
        Some(plans[0])
    } else {
        plan_of(plans.drop_first(), path)
    }
}

/// Every recorded range lies in the planned content of its file.
pub open spec fn ranges_fit(outcomes: Seq<OutcomeView>, plans: Seq<FilePlan>) -> bool {
    forall|i: int|
        0 <= i < outcomes.len() && (#[trigger] outcomes[i]).final_range is Some ==> {
            let r = outcomes[i].final_range->0;
            plan_of(plans, outcomes[i].operation.path) matches Some(p) ==> 0 <= r.0 <= r.1
                <= p.content@.len()
        }
}

impl PatchRun {
    pub open spec fn wf(self) -> bool {
        all_wf(self.outcomes@) && ranges_fit(views(self.outcomes@), self.plans@)
    }
}

/// What an operation comes to on its own.
pub open spec fn prepared_outcome(operation: OperationView, snapshot: FileSnapshot) -> OutcomeView {
    OutcomeView {
        operation,
        edit: match prepared(operation, snapshot) {
            Ok(e) => Some(e),
            Err(_) => None,
        },
        failure: match prepared(operation, snapshot) {
            Ok(_) => None,
            Err(m) => Some(m),
        },
        applied: false,
        final_range: None,
    }
}

/// What the operations come to, each on its own.
pub open spec fn prepared_all(
    operations: Seq<Operation>,
    snapshots: Seq<(String, FileSnapshot)>,
) -> Seq<OutcomeView> {
    operations.map_values(
        |o: Operation| prepared_outcome(o@, snapshot_of(snapshots, o@.path)->0),
    )
}

/// Every operation has a snapshot of its file.
pub open spec fn covered(operations: Seq<Operation>, snapshots: Seq<(String, FileSnapshot)>) -> bool {
    &&& forall|i: int|
        0 <= i < operations.len() ==> (#[trigger] operations[i]).wf() && snapshot_of(
            snapshots,
            operations[i].path@,
        ) is Some
    &&& forall|i: int| 0 <= i < snapshots.len() ==> (#[trigger] snapshots[i]).1.wf()
}

proof fn lemma_snapshot_wf(snapshots: Seq<(String, FileSnapshot)>, path: Seq<char>)
    requires
        forall|i: int| 0 <= i < snapshots.len() ==> (#[trigger] snapshots[i]).1.wf(),
        snapshot_of(snapshots, path) is Some,
    ensures
        snapshot_of(snapshots, path)->0.wf(),
    decreases snapshots.len(),
{
    if snapshots[0].0@ != path {
        assert forall|i: int| 0 <= i < snapshots.drop_first().len() implies (
        #[trigger] snapshots.drop_first()[i]).1.wf() by {
            assert(snapshots.drop_first()[i] == snapshots[i + 1]);
        }
        lemma_snapshot_wf(snapshots.drop_first(), path);
    }
}

proof fn lemma_plan_of(plans: Seq<FilePlan>, path: Seq<char>)
    ensures
        plan_of(plans, path) matches Some(p) ==> exists|k: int|
            0 <= k < plans.len() && #[trigger] plans[k] == p && p.path@ == path,
    decreases plans.len(),
{
    if plans.len() > 0 && plans[0].path@ != path {
        lemma_plan_of(plans.drop_first(), path);
        if let Some(p) = plan_of(plans.drop_first(), path) {
            let k = choose|k: int| 0 <= k < plans.drop_first().len() && plans.drop_first()[k] == p;
            assert(plans[k + 1] == p);
        }
    } else if plans.len() > 0 {
        assert(plans[0] == plan_of(plans, path)->0);
    }
}

proof fn lemma_edited_range(source: Seq<char>, edits: Seq<Placed>, k: int)
    requires
        in_order(source, edits),
        0 <= k < edits.len(),
    ensures
        0 <= edited_range(source, edits, k).0 <= edited_range(source, edits, k).1 <= edited(
            source,
            edits,
        ).len(),
    decreases edits.len() - k,
{
    let head = edits.take(k + 1);
    assert(head.last() == edits[k]);
    lemma_head_grows(source, edits, k + 1);
    assert(edits.take(edits.len() as int) =~= edits);
}

proof fn lemma_head_grows(source: Seq<char>, edits: Seq<Placed>, k: int)
    requires
        0 <= k <= edits.len(),
    ensures
        edited_head(source, edits.take(k)).len() <= edited_head(source, edits).len(),
    decreases edits.len() - k,
{
    if k < edits.len() {
        lemma_head_grows(source, edits, k + 1);
        assert(edits.take(k + 1).drop_last() =~= edits.take(k));
    } else {
        assert(edits.take(k) =~= edits);
    }
}

/// What a write makes of an operation on the written file.
pub open spec fn after_write(o: OutcomeView, path: Seq<char>, error: Option<Seq<char>>) -> OutcomeView {
    if !survives(o, path) {
        o
    } else {
        match error {
            Some(reason) => OutcomeView {
                failure: Some("could not write operation result: "@ + reason),
                final_range: None,
                applied: false,
                ..o
            },
            None => OutcomeView { applied: true, ..o },
        }
    }
}

/// How many operations have been applied.
pub open spec fn applied_count(outcomes: Seq<OutcomeView>) -> nat
    decreases outcomes.len(),
{
    if outcomes.len() == 0 {
        0
    } else {
        applied_count(outcomes.drop_last()) + (if outcomes.last().applied {
            1nat
        } else {
            0nat
        })
    }
}

pub open spec fn header(applied: nat, total: nat) -> Seq<char> {
    if applied == total {
        "Success: Applied "@ + text::decimal(total) + " operations."@
    } else if applied == 0 {
        "Failure: Applied 0 of "@ + text::decimal(total) + " operations."@
    } else {
        "Partial Failure: Applied "@ + text::decimal(applied) + " of "@ + text::decimal(total)
            + " operations."@
    }
}

/// The anchors of an operation.
pub open spec fn operation_anchors(o: OperationView) -> Seq<(nat, Seq<char>)> {
    match o.end {
        Some(last) => seq![o.start, last],
        None => seq![o.start],
    }
}

/// What a report says of one operation.
pub open spec fn entry(
    o: OutcomeView,
    plans: Seq<FilePlan>,
    snapshots: Seq<(String, FileSnapshot)>,
) -> Seq<char> {
    let path = o.operation.path;
    if o.applied {
        match (plan_of(plans, path), o.final_range) {
            (Some(plan), Some(range)) => "\nUpdated file:\n"@ + (if text::lines_of(
                plan.content@,
            ).len() == 0 {
                "(file is empty)"@
            } else {
                text::joined(region(plan.content@, range), "\n"@)
            }),
            _ => Seq::empty(),
        }
    } else {
        let reason = match o.failure {
            Some(m) => m,
            None => "operation could not be applied"@,
        };
        "\nReason: "@ + reason + (match snapshot_of(snapshots, path) {
            None => Seq::empty(),
            Some(snapshot) => "\nCurrent file:\n"@ + (if snapshot.content is Some {
                context_around(show_all(snapshot.lines@), operation_anchors(o.operation))
            } else if snapshot.exists {
                "(file contents are unavailable)"@
            } else {
                "(file does not exist in the original snapshot)"@
            }),
        })
    }
}

/// What a report says of all operations.
pub open spec fn entries(
    outcomes: Seq<OutcomeView>,
    plans: Seq<FilePlan>,
    snapshots: Seq<(String, FileSnapshot)>,
) -> Seq<char>
    decreases outcomes.len(),
{
    if outcomes.len() == 0 {
        Seq::empty()
    } else {
        let o = outcomes.last();
        entries(outcomes.drop_last(), plans, snapshots) + "\n\n["@ + text::decimal(outcomes.len())
            + (if o.applied {
            "] APPLIED \""@
        } else {
            "] FAILED \""@
        }) + shown_operation(o.operation) + "\""@ + entry(o, plans, snapshots)
    }
}

/// What the user is told of the operations that failed.
pub open spec fn failures(outcomes: Seq<OutcomeView>) -> Seq<char>
    decreases outcomes.len(),
{
    if outcomes.len() == 0 {
        "Patch failed:\n"@
    } else {
        let o = outcomes.last();
        let earlier = failures(outcomes.drop_last());
        if o.applied {
            earlier
        } else {
            earlier + o.operation.path + (match o.failure {
                Some(m) => ": "@ + m,
                None => Seq::empty(),
            }) + "\n"@
        }
    }
}

/// Some operation on `path` has been applied.
pub open spec fn touched(outcomes: Seq<OutcomeView>, path: Seq<char>) -> bool {
    exists|i: int|
        0 <= i < outcomes.len() && (#[trigger] outcomes[i]).applied && outcomes[i].operation.path
            == path
}

/// The diffs that the user is shown, one for each file that changed.
pub open spec fn diff_notes(outcomes: Seq<OutcomeView>, plans: Seq<FilePlan>) -> Seq<
    model::NoteView,
>
    decreases plans.len(),
{
    if plans.len() == 0 {
        Seq::empty()
    } else {
        let p = plans.last();
        let earlier = diff_notes(outcomes, plans.drop_last());
        if touched(outcomes, p.path@) {
            earlier.push(
                model::NoteView::Diff(p.path@, diff_of(p.path@, p.old_content@, p.content@)),
            )
        } else {
            earlier
        }
    }
}

/// The limits of the tool.
pub struct ToolPatchHashline {
    pub id: ToolId,
    pub max_bytes: usize,
}

pub open spec fn syntax_complaint(message: Seq<char>) -> Seq<char> {
    "Patch syntax error: "@ + message + "\n\n"@ + PATCH_FORMAT@
}

impl Default for ToolPatchHashline {
    fn default() -> (r: Self)
        ensures
            ids::is_random(r.id.0),
            r.max_bytes == 1024 * 1024,
    {
        ToolPatchHashline::new()
    }
}

impl ToolPatchHashline {
    pub fn new() -> (r: Self)
        ensures
            ids::is_random(r.id.0),
            r.max_bytes == 1024 * 1024,
    {
        ToolPatchHashline { id: ToolId(fresh()), max_bytes: 1024 * 1024 }
    }

    pub fn with_max_bytes(self, max_bytes: usize) -> (r: Self)
        ensures
            r.max_bytes == max_bytes,
            r.id == self.id,
    {
        ToolPatchHashline { id: self.id, max_bytes }
    }

    pub fn name(&self) -> (r: &'static str)
        ensures
            r@ == "patch_hashline"@,
    {
        "patch_hashline"
    }

    /// The answer to a request that cannot be read, and the note about it.
    pub fn reject(&self, message: &str) -> (r: (ToolOutput, NoteContent))
        ensures
            r.0@ == model::OutputView::Failure(syntax_complaint(message@)),
            r.1@ == model::NoteView::Alert("Patch failed: "@ + message@),
    {
        let content = text::cat4("Patch syntax error: ", message, "\n\n", PATCH_FORMAT);
        let note = text::cat2("Patch failed: ", message);
        (ToolOutput::Failure { content }, NoteContent::Alert { content: note })
    }

    /// Works out what the operations come to on the files as they are.
    pub fn plan(&self, operations: Vec<Operation>, snapshots: Vec<(String, FileSnapshot)>) -> (r:
        PatchRun)
        requires
            covered(operations@, snapshots@),
        ensures
            r.wf(),
            r.snapshots == snapshots,
            r.outcomes@.len() == operations@.len(),
            forall|i: int|
                0 <= i < operations@.len() ==> planned(
                    settled(prepared_all(operations@, snapshots@)),
                    snapshots@,
                    self.max_bytes as nat,
                    i,
                    (#[trigger] r.outcomes@[i])@,
                ),
            are_plans(
                settled(prepared_all(operations@, snapshots@)),
                snapshots@,
                self.max_bytes as nat,
                r.plans@,
            ),
    {
        let ghost ops = operations@;
        let ghost wanted = prepared_all(ops, snapshots@);
        let mut rest = operations;
        let mut outcomes: Vec<OperationOutcome> = Vec::new();
        let n: usize = rest.len();
        let mut i: usize = 0;
        while i < n
            invariant
                i <= n,
                n == ops.len(),
                rest@ == ops.skip(i as int),
                covered(ops, snapshots@),
                wanted == prepared_all(ops, snapshots@),
                outcomes@.len() == i,
                all_wf(outcomes@),
                views(outcomes@) == wanted.take(i as int),
                ready(views(outcomes@), snapshots@),
            decreases n - i,
        {
            let operation = rest.remove(0);
            proof {
                assert(operation == ops[i as int]);
                assert(rest@ =~= ops.skip(i + 1));
                lemma_snapshot_wf(snapshots@, operation.path@);
            }
            let snapshot = match find_snapshot(&snapshots, operation.path.as_str()) {
                Some(s) => s,
                None => {
                    proof {
                        assert(false);
                    }
                    return PatchRun { outcomes, plans: Vec::new(), snapshots };
                },
            };
            let ghost before = outcomes@;
            let outcome = prepare_operation(operation, snapshot);
            let ghost shown = outcome@;
            proof {
                assert(shown == wanted[i as int]);
            }
            outcomes.push(outcome);
            proof {
                assert(views(outcomes@) =~= views(before).push(shown));
                assert(views(outcomes@) =~= wanted.take(i + 1));
                assert forall|j: int|
                    0 <= j < views(outcomes@).len() && (#[trigger] views(outcomes@)[j]).failure is None implies ({
                    let snapshot = snapshot_of(snapshots@, views(outcomes@)[j].operation.path);
                    &&& snapshot is Some && snapshot->0.content is Some
                    &&& views(outcomes@)[j].edit is Some
                    &&& 0 <= views(outcomes@)[j].edit->0.start <= views(outcomes@)[j].edit->0.end
                        <= snapshot->0.content->0@.len()
                }) by {
                    if j < i {
                        assert(views(outcomes@)[j] == views(before)[j]);
                    }
                }
            }
            i += 1;
        }
        proof {
            assert(wanted.take(i as int) =~= wanted);
            law_settled_is_compatible(wanted);
        }
        detect_conflicts(&mut outcomes);
        let ghost ready_now = views(outcomes@);
        proof {
            assert forall|j: int|
                0 <= j < ready_now.len() && (#[trigger] ready_now[j]).failure is None implies ({
                let snapshot = snapshot_of(snapshots@, ready_now[j].operation.path);
                &&& snapshot is Some && snapshot->0.content is Some
                &&& ready_now[j].edit is Some
                &&& 0 <= ready_now[j].edit->0.start <= ready_now[j].edit->0.end
                    <= snapshot->0.content->0@.len()
            }) by {
                assert(settled(wanted)[j].operation == wanted[j].operation);
                if wanted[j].failure is Some {
                    assert(settled(wanted)[j] == wanted[j]);
                }
                assert(wanted[j].failure is None);
            }
        }
        let plans = build_file_plans(&mut outcomes, &snapshots, self.max_bytes);
        proof {
            let after = views(outcomes@);
            assert forall|j: int|
                0 <= j < after.len() && (#[trigger] after[j]).final_range is Some implies ({
                let range = after[j].final_range->0;
                plan_of(plans@, after[j].operation.path) matches Some(p) ==> 0 <= range.0 <= range.1
                    <= p.content@.len()
            }) by {
                assert(planned(ready_now, snapshots@, self.max_bytes as nat, j, outcomes@[j]@));
                let path = ready_now[j].operation.path;
                lemma_plan_of(plans@, path);
                if ready_now[j].failure is None {
                    if plan_of(plans@, path) is Some {
                        let p = plan_of(plans@, path)->0;
                        let k = choose|k: int| 0 <= k < plans@.len() && plans@[k] == p;
                        assert(plans@[k].content@ == new_content(ready_now, snapshots@, plans@[k].path@));
                        assert(is_planned_path(ready_now, snapshots@, self.max_bytes as nat, path));
                        let edits = file_edits(ready_now, path);
                        let source = old_content(snapshots@, path);
                        assert(edits_fit(ready_now, path, source));
                        law_standing_edits_are_in_order(ready_now, path, source);
                        let m = choose|m: int|
                            0 <= m < edits.len() && (#[trigger] edits[m]).0 == j
                                && after[j].final_range == Some(edited_range(source, edits, m));
                        lemma_edited_range(source, edits, m);
                    }
                } else {
                    assert(settled(wanted)[j].failure is Some);
                    lemma_settled_untouched(wanted);
                    assert(ready_now[j].final_range is None);
                }
            }
        }
        PatchRun { outcomes, plans, snapshots }
    }
}

proof fn lemma_settled_untouched(outcomes: Seq<OutcomeView>)
    requires
        forall|i: int| 0 <= i < outcomes.len() ==> (#[trigger] outcomes[i]).final_range is None,
    ensures
        forall|i: int|
            0 <= i < settled(outcomes).len() ==> (#[trigger] settled(outcomes)[i]).final_range is None,
        settled(outcomes).len() == outcomes.len(),
    decreases outcomes.len(),
{
    if outcomes.len() > 0 {
        assert forall|i: int| 0 <= i < outcomes.drop_last().len() implies (
        #[trigger] outcomes.drop_last()[i]).final_range is None by {
            assert(outcomes.drop_last()[i] == outcomes[i]);
        }
        lemma_settled_untouched(outcomes.drop_last());
        assert(outcomes.last() == outcomes[outcomes.len() - 1]);
    }
}

impl PatchRun {
    /// Records how writing the new content of `path` went.
    pub fn record_write(&mut self, path: &str, error: Option<&str>)
        requires
            old(self).wf(),
        ensures
            final(self).wf(),
            final(self).plans == old(self).plans,
            final(self).snapshots == old(self).snapshots,
            final(self).outcomes@.len() == old(self).outcomes@.len(),
            forall|i: int|
                0 <= i < old(self).outcomes@.len() ==> (#[trigger] final(self).outcomes@[i])@
                    == after_write(
                    old(self).outcomes@[i]@,
                    path@,
                    match error {
                        Some(m) => Some(m@),
                        None => None,
                    },
                ),
    {
        let ghost start = self.outcomes@;
        let ghost reason = match error {
            Some(m) => Some(m@),
            None => None,
        };
        let mut i: usize = 0;
        while i < self.outcomes.len()
            invariant
                i <= self.outcomes@.len(),
                self.outcomes@.len() == start.len(),
                self.plans == old(self).plans,
                self.snapshots == old(self).snapshots,
                start == old(self).outcomes@,
                old(self).wf(),
                all_wf(self.outcomes@),
                reason == (match error {
                    Some(m) => Some(m@),
                    None => None,
                }),
                forall|j: int| i <= j < start.len() ==> self.outcomes@[j] == start[j],
                forall|j: int|
                    0 <= j < i ==> (#[trigger] self.outcomes@[j])@ == after_write(
                        start[j]@,
                        path@,
                        reason,
                    ),
            decreases self.outcomes@.len() - i,
        {
            if self.outcomes[i].failure.is_none() && text::same_text(
                self.outcomes[i].operation.path.as_str(),
                path,
            ) {
                proof {
                    assert(self.outcomes@[i as int].wf());
                }
                match error {
                    Some(m) => {
                        self.outcomes[i].failure = Some(
                            text::cat2("could not write operation result: ", m),
                        );
                        self.outcomes[i].final_range = None;
                        self.outcomes[i].applied = false;
                    },
                    None => {
                        self.outcomes[i].applied = true;
                    },
                }
            }
            i += 1;
        }
        proof {
            let now = views(self.outcomes@);
            assert forall|j: int|
                0 <= j < now.len() && (#[trigger] now[j]).final_range is Some implies ({
                let r = now[j].final_range->0;
                plan_of(self.plans@, now[j].operation.path) matches Some(p) ==> 0 <= r.0 <= r.1
                    <= p.content@.len()
            }) by {
                assert(self.outcomes@[j]@ == after_write(start[j]@, path@, reason));
                assert(views(start)[j] == start[j]@);
                assert(views(start)[j].final_range is Some);
            }
        }
    }
}

fn find_plan<'a>(plans: &'a Vec<FilePlan>, path: &str) -> (r: Option<&'a FilePlan>)
    ensures
        match r {
            Some(p) => plan_of(plans@, path@) == Some(*p),
            None => plan_of(plans@, path@) is None,
        },
{
    let mut i: usize = 0;
    proof {
        assert(plans@.skip(0) =~= plans@);
    }
    while i < plans.len()
        invariant
            i <= plans@.len(),
            plan_of(plans@, path@) == plan_of(plans@.skip(i as int), path@),
        decreases plans@.len() - i,
    {
        proof {
            let rest = plans@.skip(i as int);
            assert(rest[0] == plans@[i as int]);
            assert(rest.drop_first() =~= plans@.skip(i + 1));
        }
        if text::same_text(plans[i].path.as_str(), path) {
            return Some(&plans[i]);
        }
        i += 1;
    }
    None
}

fn patch_header(applied: usize, total: usize) -> (r: String)
    ensures
        r@ == header(applied as nat, total as nat),
{
    let t = text::usize_text(total);
    if applied == total {
        text::cat3("Success: Applied ", t.as_str(), " operations.")
    } else if applied == 0 {
        text::cat3("Failure: Applied 0 of ", t.as_str(), " operations.")
    } else {
        text::cat5(
            "Partial Failure: Applied ",
            text::usize_text(applied).as_str(),
            " of ",
            t.as_str(),
            " operations.",
        )
    }
}

impl PatchRun {
    fn count_applied(&self) -> (n: usize)
        ensures
            n == applied_count(views(self.outcomes@)),
            n <= self.outcomes@.len(),
    {
        let ghost all = views(self.outcomes@);
        let mut n: usize = 0;
        let mut i: usize = 0;
        while i < self.outcomes.len()
            invariant
                i <= self.outcomes@.len(),
                all == views(self.outcomes@),
                n <= i,
                n == applied_count(all.take(i as int)),
            decreases self.outcomes@.len() - i,
        {
            proof {
                assert(all.take(i + 1).drop_last() =~= all.take(i as int));
                assert(all.take(i + 1).last() == self.outcomes@[i as int]@);
            }
            if self.outcomes[i].applied {
                n += 1;
            }
            i += 1;
        }
        proof {
            assert(all.take(i as int) =~= all);
        }
        n
    }

    fn is_touched(&self, path: &str) -> (r: bool)
        ensures
            r == touched(views(self.outcomes@), path@),
    {
        let ghost all = views(self.outcomes@);
        let mut i: usize = 0;
        while i < self.outcomes.len()
            invariant
                i <= self.outcomes@.len(),
                all == views(self.outcomes@),
                forall|j: int|
                    0 <= j < i ==> !((#[trigger] all[j]).applied && all[j].operation.path == path@),
            decreases self.outcomes@.len() - i,
        {
            if self.outcomes[i].applied && text::same_text(
                self.outcomes[i].operation.path.as_str(),
                path,
            ) {
                proof {
                    assert(all[i as int].applied);
                }
                return true;
            }
            i += 1;
        }
        false
    }

    /// What the report says of operation `i`.
    fn report_entry(&self, i: usize) -> (r: String)
        requires
            self.wf(),
            i < self.outcomes@.len(),
        ensures
            r@ == entry(self.outcomes@[i as int]@, self.plans@, self.snapshots@),
    {
        let o = &self.outcomes[i];
        proof {
            assert(views(self.outcomes@)[i as int] == o@);
        }
        if o.applied {
            match (find_plan(&self.plans, o.operation.path.as_str()), o.final_range) {
                (Some(plan), Some(range)) => text::cat2(
                    "\nUpdated file:\n",
                    render_updated_region(plan.content.as_str(), range).as_str(),
                ),
                _ => String::new(),
            }
        } else {
            let reason = match &o.failure {
                Some(m) => m.as_str(),
                None => "operation could not be applied",
            };
            let mut out = text::cat2("\nReason: ", reason);
            if let Some(snapshot) = find_snapshot(&self.snapshots, o.operation.path.as_str()) {
                out.push_str("\nCurrent file:\n");
                if snapshot.content.is_some() {
                    let mut anchors: Vec<&Anchor> = Vec::new();
                    anchors.push(&o.operation.start);
                    if let Some(last) = &o.operation.end {
                        anchors.push(last);
                    }
                    proof {
                        assert(anchor_parts(anchors@) =~= operation_anchors(o.operation@));
                    }
                    let shown = surrounding_context(snapshot.lines.as_slice(), anchors);
                    out.push_str(shown.as_str());
                } else if snapshot.exists {
                    out.push_str("(file contents are unavailable)");
                } else {
                    out.push_str("(file does not exist in the original snapshot)");
                }
            }
            proof {
                assert(out@ =~= entry(o@, self.plans@, self.snapshots@));
            }
            out
        }
    }

    fn report_text(&self) -> (r: String)
        requires
            self.wf(),
        ensures
            r@ == entries(views(self.outcomes@), self.plans@, self.snapshots@),
    {
        let ghost all = views(self.outcomes@);
        let mut out = String::new();
        let mut i: usize = 0;
        proof {
            assert(all.take(0) =~= Seq::empty());
        }
        while i < self.outcomes.len()
            invariant
                i <= self.outcomes@.len(),
                self.wf(),
                all == views(self.outcomes@),
                out@ == entries(all.take(i as int), self.plans@, self.snapshots@),
            decreases self.outcomes@.len() - i,
        {
            proof {
                assert(all.take(i + 1).drop_last() =~= all.take(i as int));
                assert(all.take(i + 1).last() == self.outcomes@[i as int]@);
                assert(self.outcomes@[i as int].wf());
            }
            let shown = operation_display(&self.outcomes[i].operation);
            let detail = self.report_entry(i);
            out.push_str("\n\n[");
            out.push_str(text::usize_text(i + 1).as_str());
            out.push_str(
                if self.outcomes[i].applied {
                    "] APPLIED \""
                } else {
                    "] FAILED \""
                },
            );
            out.push_str(shown.as_str());
            out.push_str("\"");
            out.push_str(detail.as_str());
            i += 1;
        }
        proof {
            assert(all.take(i as int) =~= all);
        }
        out
    }

    fn failure_summary(&self) -> (r: String)
        ensures
            r@ == failures(views(self.outcomes@)),
    {
        let ghost all = views(self.outcomes@);
        let mut out = text::owned("Patch failed:\n");
        let mut i: usize = 0;
        proof {
            assert(all.take(0) =~= Seq::empty());
        }
        while i < self.outcomes.len()
            invariant
                i <= self.outcomes@.len(),
                all == views(self.outcomes@),
                out@ == failures(all.take(i as int)),
            decreases self.outcomes@.len() - i,
        {
            let ghost before = out@;
            proof {
                assert(all.take(i + 1).drop_last() =~= all.take(i as int));
                assert(all.take(i + 1).last() == self.outcomes@[i as int]@);
            }
            if !self.outcomes[i].applied {
                out.push_str(self.outcomes[i].operation.path.as_str());
                if let Some(m) = &self.outcomes[i].failure {
                    out.push_str(": ");
                    out.push_str(m.as_str());
                }
                out.push_str("\n");
                proof {
                    assert(out@ =~= failures(all.take(i + 1)));
                }
            }
            i += 1;
        }
        proof {
            assert(all.take(i as int) =~= all);
        }
        out
    }

    /// The answer to the model, and the notes for the user: a diff for each file
    /// that changed, and an alert where an operation failed.
    pub fn report(&self) -> (r: (ToolOutput, Vec<NoteContent>))
        requires
            self.wf(),
        ensures
            ({
                let all = views(self.outcomes@);
                let done = applied_count(all);
                let body = header(done, all.len()) + entries(all, self.plans@, self.snapshots@);
                let diffs = diff_notes(all, self.plans@);
                if done < all.len() {
                    &&& r.0@ == model::OutputView::Failure(body)
                    &&& model::note_views(r.1@) == diffs.push(model::NoteView::Alert(failures(all)))
                } else {
                    &&& r.0@ == model::OutputView::Success(body)
                    &&& model::note_views(r.1@) == diffs
                }
            }),
    {
        let ghost all = views(self.outcomes@);
        let done: usize = self.count_applied();
        let mut content = patch_header(done, self.outcomes.len());
        content.push_str(self.report_text().as_str());
        let mut notes: Vec<NoteContent> = Vec::new();
        let mut k: usize = 0;
        proof {
            assert(self.plans@.take(0) =~= Seq::empty());
            assert(model::note_views(notes@) =~= Seq::empty());
        }
        while k < self.plans.len()
            invariant
                k <= self.plans@.len(),
                all == views(self.outcomes@),
                model::note_views(notes@) == diff_notes(all, self.plans@.take(k as int)),
            decreases self.plans@.len() - k,
        {
            let plan = &self.plans[k];
            let ghost before = model::note_views(notes@);
            proof {
                assert(self.plans@.take(k + 1).drop_last() =~= self.plans@.take(k as int));
                assert(self.plans@.take(k + 1).last() == self.plans@[k as int]);
            }
            if self.is_touched(plan.path.as_str()) {
                let diff = unified_diff(
                    plan.path.as_str(),
                    plan.old_content.as_str(),
                    plan.content.as_str(),
                );
                let note = NoteContent::Diff {
                    file: text::owned(plan.path.as_str()),
                    content: diff,
                };
                let ghost shown = note@;
                notes.push(note);
                proof {
                    assert(model::note_views(notes@) =~= before.push(shown));
                }
            }
            k += 1;
        }
        proof {
            assert(self.plans@.take(k as int) =~= self.plans@);
        }
        if done < self.outcomes.len() {
            let ghost before = model::note_views(notes@);
            let note = NoteContent::Alert { content: self.failure_summary() };
            let ghost shown = note@;
            notes.push(note);
            proof {
                assert(model::note_views(notes@) =~= before.push(shown));
            }
            (ToolOutput::Failure { content }, notes)
        } else {
            (ToolOutput::Success { content }, notes)
        }
    }
}

/// The plugin that offers the tool, where line anchors are switched on.
pub struct ToolPatchHashlinePlugin {
    pub id: PluginId,
}

impl ToolPatchHashlinePlugin {
    pub fn new() -> (r: Self)
        ensures
            ids::is_random(r.id.0),
    {
        ToolPatchHashlinePlugin { id: PluginId(fresh()) }
    }

    pub fn name(&self) -> (r: &'static str)
        ensures
            r@ == "tool_patch_hashline"@,
    {
        "tool_patch_hashline"
    }
}

/// The prefixes under which the lines of a file are shown: number and tag.
pub open spec fn line_prefixes(source: Seq<char>) -> Seq<Seq<char>> {
    text::lines_of(source).map(
        |i: int, line: Seq<char>| anchor_text(((i + 1) as nat, hashline::line_tag(line))),
    )
}

/// Puts the anchor in front of each of the lines that are shown of a file, from
/// the first on; prefixes beyond the file stay as they are.
pub fn augment_file_context(source: &str, prefixes: &mut Vec<String>)
    ensures
        ({
            let anchors = line_prefixes(source@);
            let before = text::texts(old(prefixes)@);
            let after = text::texts(final(prefixes)@);
            &&& after.len() == before.len()
            &&& forall|i: int|
                0 <= i < after.len() ==> #[trigger] after[i] == (if i < anchors.len() {
                    anchors[i]
                } else {
                    before[i]
                })
        }),
{
    let lines = hashline::render(source);
    let ghost anchors = line_prefixes(source@);
    let ghost start = prefixes@;
    let mut i: usize = 0;
    while i < prefixes.len() && i < lines.len()
        invariant
            i <= lines@.len(),
            i <= prefixes@.len(),
            prefixes@.len() == start.len(),
            hashline::is_rendering(lines@, source@),
            anchors == line_prefixes(source@),
            forall|j: int| i <= j < start.len() ==> prefixes@[j] == start[j],
            forall|j: int| 0 <= j < i ==> (#[trigger] prefixes@[j])@ == anchors[j],
        decreases lines@.len() - i,
    {
        let shown = text::cat3(
            text::usize_text(lines[i].line).as_str(),
            ":",
            lines[i].tag.as_str(),
        );
        proof {
            assert(lines@[i as int].line == i + 1);
        }
        prefixes.set(i, shown);
        i += 1;
    }
}

impl ToolPatchHashline {
    /// How the tool is described to a provider; `prompt` explains its use and
    /// `schema` is that of its input.
    pub fn definition(&self, prompt: &str, schema: Json) -> (r: ToolDefinition)
        ensures
            r.name@ == "patch_hashline"@,
            r.description@ == prompt@,
            r.schema == schema,
            r.freeform is None,
    {
        ToolDefinition::new("patch_hashline", prompt, schema)
    }
}

// ---------------------------------------------------------------------------
// Laws
// ---------------------------------------------------------------------------

proof fn lemma_cut_at_line(lines: Seq<Seq<char>>, source: Seq<char>, k: int)
    requires
        text::are_lines(lines),
        source == text::concat_all(lines),
        0 <= k <= lines.len(),
    ensures
        text::segments(source) == lines,
        source.take(line_offset(source, k)) == text::concat_all(lines.take(k)),
        source.skip(line_offset(source, k)) == text::concat_all(lines.skip(k)),
        0 <= line_offset(source, k) <= source.len(),
{
    text::law_lines_are_told_apart(lines);
    text::lemma_concat_all_add(lines.take(k), lines.skip(k));
    assert(lines.take(k) + lines.skip(k) =~= lines);
    let n = line_offset(source, k);
    assert(source.take(n) =~= text::concat_all(lines.take(k)));
    assert(source.skip(n) =~= text::concat_all(lines.skip(k)));
}

/// The content of a file after one operation on it.
pub open spec fn after_one(
    operation: Operation,
    snapshots: Seq<(String, FileSnapshot)>,
) -> Seq<char> {
    new_content(
        settled(prepared_all(seq![operation], snapshots)),
        snapshots,
        operation.path@,
    )
}

proof fn lemma_after_one(operation: Operation, snapshots: Seq<(String, FileSnapshot)>)
    requires
        snapshot_of(snapshots, operation.path@) is Some,
        prepared(operation@, snapshot_of(snapshots, operation.path@)->0) is Ok,
    ensures
        ({
            let snapshot = snapshot_of(snapshots, operation.path@)->0;
            let source = snapshot.content->0@;
            let e = prepared(operation@, snapshot)->Ok_0;
            &&& settled(prepared_all(seq![operation], snapshots))[0].failure is None
            &&& 0 <= e.start <= e.end <= source.len() ==> after_one(operation, snapshots)
                == source.take(e.start) + e.replacement + source.skip(e.end)
        }),
{
    let all = prepared_all(seq![operation], snapshots);
    let snapshot = snapshot_of(snapshots, operation.path@)->0;
    let source = snapshot.content->0@;
    let e = prepared(operation@, snapshot)->Ok_0;
    assert(all.len() == 1 && all[0] == prepared_outcome(operation@, snapshot));
    assert(all.drop_last() =~= Seq::empty());
    assert(settled(all.drop_last()) =~= Seq::empty());
    let done = settled(all);
    assert(done =~= seq![all[0]]);
    assert(done.drop_last() =~= Seq::empty());
    let path = operation.path@;
    let edits = file_edits(done, path);
    assert(file_edits(done.drop_last(), path) =~= Seq::empty());
    assert(edits =~= seq![(0int, e)]);
    assert(edits.drop_last() =~= Seq::empty());
    assert(edited_head(source, edits.drop_last()) =~= Seq::empty());
    if 0 <= e.start <= e.end <= source.len() {
        assert(edited(source, edits) =~= source.take(e.start) + e.replacement + source.skip(e.end));
    }
}

/// One operation on a file of which every line is known changes the lines that its
/// anchors point at. Text that is inserted stands right before or right behind the
/// anchored line, on lines of its own: a line feed comes before it only where the line
/// there lacks one, and behind it only where lines follow and it has none itself. Text
/// that replaces lines stands in their place, ended as they were. All other lines stay
/// as they are.
pub proof fn law_operations_edit_the_anchored_lines(
    operation: Operation,
    snapshots: Seq<(String, FileSnapshot)>,
    lines: Seq<Seq<char>>,
    first: int,
    last: int,
)
    requires
        operation.wf(),
        snapshot_of(snapshots, operation.path@) is Some,
        snapshot_of(snapshots, operation.path@)->0.wf(),
        snapshot_of(snapshots, operation.path@)->0.content is Some,
        snapshot_of(snapshots, operation.path@)->0.content->0@ == text::concat_all(lines),
        text::are_lines(lines),
        prepared(operation@, snapshot_of(snapshots, operation.path@)->0) is Ok,
        resolved(
            snapshot_of(snapshots, operation.path@)->0.lines@,
            operation.start.parts(),
        ) == Ok::<int, AnchorError>(first),
        operation.end matches Some(a) ==> resolved(
            snapshot_of(snapshots, operation.path@)->0.lines@,
            a.parts(),
        ) == Ok::<int, AnchorError>(last),
    ensures
        0 <= first < lines.len(),
        ({
            let new = after_one(operation, snapshots);
            let body = operation.body@;
            let feed = seq!['\n'];
            let none = Seq::<char>::empty();
            match operation.kind {
                OperationKind::InsertBefore => new == text::concat_all(lines.take(first)) + body + (
                if body.last() != '\n' {
                    feed
                } else {
                    none
                }) + text::concat_all(lines.skip(first)),
                OperationKind::InsertAfter => new == text::concat_all(lines.take(first + 1)) + (
                if lines[first].last() != '\n' {
                    feed
                } else {
                    none
                }) + body + (if first + 1 < lines.len() && body.last() != '\n' {
                    feed
                } else {
                    none
                }) + text::concat_all(lines.skip(first + 1)),
                OperationKind::Delete => first <= last < lines.len() && new == text::concat_all(
                    lines.take(first),
                ) + text::concat_all(lines.skip(last + 1)),
                OperationKind::Replace => first <= last < lines.len() && new == text::concat_all(
                    lines.take(first),
                ) + body + (if lines[last].last() == '\n' && body.len() > 0 && body.last()
                    != '\n' {
                    feed
                } else {
                    none
                }) + text::concat_all(lines.skip(last + 1)),
            }
        }),
        (operation.kind is InsertBefore || operation.kind is InsertAfter)
            ==> operation.body@.len() > 0,
{
    let snapshot = snapshot_of(snapshots, operation.path@)->0;
    let source = snapshot.content->0@;
    let body = operation.body@;
    text::law_lines_are_told_apart(lines);
    lemma_resolved_range(snapshot.lines@, operation.start.parts());
    assert(snapshot.lines@.len() == lines.len());
    if let Some(a) = operation.end {
        lemma_resolved_range(snapshot.lines@, a.parts());
        lemma_cut_at_line(lines, source, last + 1);
    }
    lemma_cut_at_line(lines, source, first);
    lemma_cut_at_line(lines, source, first + 1);
    let e = prepared(operation@, snapshot)->Ok_0;
    lemma_after_one(operation, snapshots);
    let new = after_one(operation, snapshots);
    let before = text::concat_all(lines.take(first));
    let none = Seq::<char>::empty();
    match operation.kind {
        OperationKind::InsertBefore => {
            lemma_ends_with_feed(lines, first);
            lemma_some_text(lines.skip(first));
            if body.len() == 0 {
                assert(source.subrange(e.start, e.end) =~= none);
            }
            assert(new =~= before + body + (if body.last() != '\n' {
                seq!['\n']
            } else {
                none
            }) + text::concat_all(lines.skip(first)));
        },
        OperationKind::InsertAfter => {
            let head = text::concat_all(lines.take(first + 1));
            assert(lines.take(first + 1).last() == lines[first]);
            assert(lines[first].len() > 0);
            assert(head.last() == lines[first].last());
            if first + 1 < lines.len() {
                lemma_some_text(lines.skip(first + 1));
            } else {
                assert(lines.skip(first + 1) =~= Seq::empty());
            }
            if body.len() == 0 {
                assert(source.subrange(e.start, e.end) =~= none);
            }
            if lines[first].last() != '\n' {
                assert((seq!['\n'] + body).last() == body.last());
            }
            assert(new =~= head + (if lines[first].last() != '\n' {
                seq!['\n']
            } else {
                none
            }) + body + (if first + 1 < lines.len() && body.last() != '\n' {
                seq!['\n']
            } else {
                none
            }) + text::concat_all(lines.skip(first + 1)));
        },
        OperationKind::Delete => {
            lemma_line_offset(source, first, last + 1);
            assert(new =~= before + text::concat_all(lines.skip(last + 1)));
        },
        OperationKind::Replace => {
            lemma_line_offset(source, first, last + 1);
            assert(lines[last].len() > 0);
            assert(new =~= before + body + (if lines[last].last() == '\n' && body.len() > 0
                && body.last() != '\n' {
                seq!['\n']
            } else {
                none
            }) + text::concat_all(lines.skip(last + 1)));
        },
    }
}

proof fn lemma_some_text(lines: Seq<Seq<char>>)
    requires
        lines.len() > 0,
        lines.last().len() > 0,
    ensures
        text::concat_all(lines).len() > 0,
{
}

proof fn lemma_ends_with_feed(lines: Seq<Seq<char>>, k: int)
    requires
        text::are_lines(lines),
        0 <= k < lines.len(),
    ensures
        text::concat_all(lines.take(k)).len() == 0 || text::concat_all(lines.take(k)).last() == '\n',
{
    if k > 0 {
        assert(lines.take(k).last() == lines[k - 1]);
        assert(lines[k - 1][lines[k - 1].len() - 1] == '\n');
    }
}

proof fn lemma_resolved_range(lines: Seq<HashLine>, anchor: (nat, Seq<char>))
    ensures
        resolved(lines, anchor) matches Ok(i) ==> 0 <= i < lines.len(),
{
    lemma_with_tag_range(lines, anchor.1, anchor.0);
}

proof fn lemma_tagged(lines: Seq<HashLine>, tag: Seq<char>, line: nat)
    ensures
        forall|k: int|
            0 <= k < with_tag(lines, tag).len() ==> lines[#[trigger] with_tag(lines, tag)[k]].tag@
                == tag,
        forall|i: int|
            0 <= i < lines.len() && (#[trigger] lines[i]).tag@ == tag ==> with_tag(
                lines,
                tag,
            ).contains(i),
        forall|k: int|
            0 <= k < with_tag_on(lines, tag, line).len() ==> {
                let i = #[trigger] with_tag_on(lines, tag, line)[k];
                lines[i].tag@ == tag && lines[i].line == line
            },
        forall|i: int|
            0 <= i < lines.len() && (#[trigger] lines[i]).tag@ == tag && lines[i].line == line
                ==> with_tag_on(lines, tag, line).contains(i),
    decreases lines.len(),
{
    lemma_with_tag_range(lines, tag, line);
    if lines.len() > 0 {
        let front = lines.drop_last();
        lemma_tagged(front, tag, line);
        lemma_with_tag_range(front, tag, line);
        let a = with_tag(lines, tag);
        let b = with_tag(front, tag);
        let c = with_tag_on(lines, tag, line);
        let d = with_tag_on(front, tag, line);
        assert forall|k: int| 0 <= k < a.len() implies lines[#[trigger] a[k]].tag@ == tag by {
            if k < b.len() {
                assert(a[k] == b[k]);
                assert(front[b[k]].tag@ == tag);
            }
        }
        assert forall|k: int| 0 <= k < c.len() implies ({
            let i = #[trigger] c[k];
            lines[i].tag@ == tag && lines[i].line == line
        }) by {
            if k < d.len() {
                assert(c[k] == d[k]);
                assert(front[d[k]].tag@ == tag);
            }
        }
        assert forall|i: int|
            0 <= i < lines.len() && (#[trigger] lines[i]).tag@ == tag implies a.contains(i) by {
            if i < front.len() {
                assert(front[i] == lines[i]);
                let k = b.index_of(i);
                assert(a[k] == i);
            } else {
                assert(a[a.len() - 1] == i);
            }
        }
        assert forall|i: int|
            0 <= i < lines.len() && (#[trigger] lines[i]).tag@ == tag && lines[i].line
                == line implies c.contains(i) by {
            if i < front.len() {
                assert(front[i] == lines[i]);
                let k = d.index_of(i);
                assert(c[k] == i);
            } else {
                assert(c[c.len() - 1] == i);
            }
        }
    }
}

/// An anchor points at a line that has its tag, and at the one with its number where
/// several lines have that tag. Without a line of its tag it points nowhere, and where
/// only one line has its tag it always points there, whatever its number.
pub proof fn law_anchors_point_at_their_tag(
    lines: Seq<HashLine>,
    anchor: (nat, Seq<char>),
    i: int,
    j: int,
)
    requires
        0 <= i < lines.len(),
        0 <= j < lines.len(),
    ensures
        resolved(lines, anchor) matches Ok(k) ==> {
            &&& 0 <= k < lines.len()
            &&& lines[k].tag@ == anchor.1
            &&& i != k && lines[i].tag@ == anchor.1 ==> lines[k].line == anchor.0
        },
        resolved(lines, anchor) == Err::<int, AnchorError>(AnchorError::Stale) && lines[i].tag@
            == anchor.1 ==> lines[i].line != anchor.0,
        (forall|k: int| 0 <= k < lines.len() && k != i ==> (#[trigger] lines[k]).tag@ != anchor.1)
            && lines[i].tag@ == anchor.1 ==> resolved(lines, anchor) == Ok::<int, AnchorError>(i),
        (forall|k: int| 0 <= k < lines.len() ==> (#[trigger] lines[k]).tag@ != anchor.1)
            ==> resolved(lines, anchor) == Err::<int, AnchorError>(AnchorError::Stale),
        i != j && lines[i].tag@ == anchor.1 && lines[j].tag@ == anchor.1 && lines[i].line
            == anchor.0 && lines[j].line == anchor.0 ==> resolved(lines, anchor) == Err::<
            int,
            AnchorError,
        >(AnchorError::Ambiguous),
{
    let tag = anchor.1;
    let line = anchor.0;
    lemma_tagged(lines, tag, line);
    lemma_with_tag_range(lines, tag, line);
    lemma_tags_once(lines, tag, line);
    let all = with_tag(lines, tag);
    let here = with_tag_on(lines, tag, line);
    if all.len() > 0 {
        assert(lines[all[0]].tag@ == tag);
    }
    if all.len() > 1 {
        assert(lines[all[1]].tag@ == tag);
        assert(all[0] != all[1]);
    }
    if here.len() > 0 {
        assert(lines[here[0]].tag@ == tag);
    }
    if lines[i].tag@ == tag {
        let k = all.index_of(i);
        assert(all[k] == i);
    }
    if lines[j].tag@ == tag {
        let k = all.index_of(j);
        assert(all[k] == j);
    }
    if lines[i].tag@ == tag && lines[i].line == line {
        let k = here.index_of(i);
        assert(here[k] == i);
    }
    if lines[j].tag@ == tag && lines[j].line == line {
        let k = here.index_of(j);
        assert(here[k] == j);
    }
}

proof fn lemma_tags_once(lines: Seq<HashLine>, tag: Seq<char>, line: nat)
    ensures
        forall|a: int, b: int|
            0 <= a < b < with_tag(lines, tag).len() ==> (#[trigger] with_tag(lines, tag)[a]) < (
            #[trigger] with_tag(lines, tag)[b]),
    decreases lines.len(),
{
    if lines.len() > 0 {
        lemma_tags_once(lines.drop_last(), tag, line);
        lemma_with_tag_range(lines.drop_last(), tag, line);
    }
}

/// Two edits conflict exactly where both would change one character, or where one
/// inserts text strictly inside what the other replaces.
pub proof fn law_edits_conflict_where_they_meet(left: EditView, right: EditView)
    requires
        left.start <= left.end,
        right.start <= right.end,
    ensures
        conflict(left, right) == conflict(right, left),
        left.start < left.end && right.start < right.end ==> (conflict(left, right) <==> exists|
            c: int,
        |
            left.start <= c < left.end && right.start <= #[trigger] same(c) < right.end),
        left.start == left.end && right.start < right.end ==> (conflict(left, right)
            <==> right.start < left.start && left.start < right.end),
        left.start == left.end && right.start == right.end ==> !conflict(left, right),
{
    if left.start < left.end && right.start < right.end && conflict(left, right) {
        let c = if left.start > right.start {
            left.start
        } else {
            right.start
        };
        assert(right.start <= same(c) < right.end);
    }
}

pub open spec fn same(c: int) -> int {
    c
}

/// An operation fails by settling only where an earlier one on its file still stands
/// and their edits conflict; every other operation is left as it is.
pub proof fn law_only_conflicting_operations_fail(outcomes: Seq<OutcomeView>, i: int)
    requires
        0 <= i < outcomes.len(),
        forall|k: int|
            0 <= k < outcomes.len() && (#[trigger] outcomes[k]).failure is None
                ==> outcomes[k].edit is Some,
    ensures
        settled(outcomes).len() == outcomes.len(),
        settled(outcomes)[i] == outcomes[i] || exists|j: int|
            0 <= j < i && (#[trigger] settled(outcomes)[j]).failure is None
                && outcomes[j].operation.path == outcomes[i].operation.path && conflict(
                outcomes[j].edit->0,
                outcomes[i].edit->0,
            ),
    decreases outcomes.len(),
{
    law_settled_is_compatible(outcomes);
    let front = outcomes.drop_last();
    let earlier = settled(front);
    let all = settled(outcomes);
    law_settled_is_compatible(front);
    assert forall|k: int| 0 <= k < front.len() && (#[trigger] front[k]).failure is None implies front[
    k].edit is Some by {
        assert(front[k] == outcomes[k]);
    }
    assert forall|k: int| 0 <= k < earlier.len() implies #[trigger] all[k] == earlier[k] by {}
    if i < front.len() {
        law_only_conflicting_operations_fail(front, i);
        if settled(front)[i] != front[i] {
            let j = choose|j: int|
                0 <= j < i && (#[trigger] earlier[j]).failure is None && front[j].operation.path
                    == front[i].operation.path && conflict(front[j].edit->0, front[i].edit->0);
            assert(all[j].failure is None);
        }
    } else if all[i] != outcomes[i] {
        lemma_first_clash_is(earlier, outcomes.last(), 0);
        let p = first_clash(earlier, outcomes.last(), 0)->0;
        assert(all[p].failure is None);
        assert(earlier[p].edit == front[p].edit && earlier[p].operation == front[p].operation);
        assert(front[p] == outcomes[p]);
        if front[p].failure is Some {
            assert(earlier[p] == front[p]);
        }
    }
}

proof fn lemma_first_clash_is(earlier: Seq<OutcomeView>, later: OutcomeView, from: int)
    requires
        0 <= from,
    ensures
        first_clash(earlier, later, from) matches Some(p) ==> from <= p < earlier.len() && clash(
            earlier[p],
            later,
        ),
    decreases earlier.len() - from,
{
    if from < earlier.len() && !clash(earlier[from], later) {
        lemma_first_clash_is(earlier, later, from + 1);
    }
}

/// Edits that lie one behind the other are all made: in the new content each
/// replacement stands where it is said to stand, and between two replacements, before
/// the first and behind the last stands what stood there before.
pub proof fn law_edits_keep_what_lies_between(source: Seq<char>, edits: Seq<Placed>, k: int)
    requires
        in_order(source, edits),
        0 <= k < edits.len(),
    ensures
        ({
            let new = edited(source, edits);
            let here = edited_range(source, edits, k);
            let before = if k == 0 {
                (0int, 0int)
            } else {
                (edits[k - 1].1.end, edited_range(source, edits, k - 1).1)
            };
            &&& 0 <= before.1 <= here.0 <= here.1 <= new.len()
            &&& new.subrange(here.0, here.1) == edits[k].1.replacement
            &&& new.subrange(before.1, here.0) == source.subrange(before.0, edits[k].1.start)
            &&& k == edits.len() - 1 ==> new.skip(here.1) == source.skip(edits[k].1.end)
        }),
    decreases edits.len(),
{
    let new = edited(source, edits);
    let n = edits.len() as int;
    lemma_head_begins(source, edits, k + 1);
    lemma_head_begins(source, edits, k);
    let now = edited_head(source, edits.take(k + 1));
    let earlier = edited_head(source, edits.take(k));
    let e = edits[k].1;
    assert(edits.take(k + 1).drop_last() =~= edits.take(k));
    assert(edits.take(k + 1).last() == edits[k]);
    assert(cursor(edits.take(k)) == (if k == 0 {
        0
    } else {
        edits[k - 1].1.end
    }));
    let from = cursor(edits.take(k));
    let gap = source.subrange(from, e.start);
    assert(now == earlier + gap + e.replacement);
    assert(0 <= from <= e.start <= e.end <= source.len());
    assert(new.take(now.len() as int) == now) by {
        assert(edited_head(source, edits).take(now.len() as int) == now);
        assert(new.take(now.len() as int) =~= edited_head(source, edits).take(now.len() as int));
    }
    let here = edited_range(source, edits, k);
    assert(here.0 == earlier.len() + gap.len() && here.1 == now.len());
    assert(new.subrange(here.0, here.1) =~= now.subrange(here.0, here.1)) by {
        assert forall|x: int| here.0 <= x < here.1 implies new[x] == now[x] by {
            assert(new.take(now.len() as int)[x] == now[x]);
        }
    }
    assert(now.subrange(here.0, here.1) =~= e.replacement);
    let at = earlier.len() as int;
    if k > 0 {
        assert(edited_range(source, edits, k - 1).1 == at);
    } else {
        assert(edits.take(0) =~= Seq::empty());
    }
    assert(new.subrange(at, here.0) =~= gap) by {
        assert forall|x: int| at <= x < here.0 implies new[x] == now[x] by {
            assert(new.take(now.len() as int)[x] == now[x]);
        }
    }
    if k == n - 1 {
        assert(edits.take(n) =~= edits);
        assert(new.skip(here.1) =~= source.skip(e.end));
    }
}

proof fn lemma_head_begins(source: Seq<char>, edits: Seq<Placed>, k: int)
    requires
        0 <= k <= edits.len(),
    ensures
        edited_head(source, edits.take(k)).len() <= edited_head(source, edits).len(),
        edited_head(source, edits).take(edited_head(source, edits.take(k)).len() as int)
            == edited_head(source, edits.take(k)),
    decreases edits.len() - k,
{
    let part = edited_head(source, edits.take(k));
    if k == edits.len() {
        assert(edits.take(k) =~= edits);
        assert(part.take(part.len() as int) =~= part);
    } else {
        lemma_head_begins(source, edits, k + 1);
        let next = edited_head(source, edits.take(k + 1));
        let whole = edited_head(source, edits);
        assert(edits.take(k + 1).drop_last() =~= edits.take(k));
        assert(next.take(part.len() as int) =~= part);
        assert(whole.take(part.len() as int) =~= next.take(part.len() as int)) by {
            assert forall|x: int| 0 <= x < part.len() implies whole[x] == next[x] by {
                assert(whole.take(next.len() as int)[x] == next[x]);
            }
        }
    }
}

/// A request is read as what it is: its kind, its path, its anchors and its content.
pub proof fn law_requests_are_read(
    request: PatchHashlineOperation,
    path: Seq<char>,
    first: nat,
    last: nat,
    tag: Seq<char>,
    other: Seq<char>,
)
    requires
        path.len() > 0,
        !text::is_whitespace(path[0]) && !text::is_whitespace(path.last()),
        !text::has_text(path, "@@"@),
        0 < first <= usize::MAX,
        0 < last <= usize::MAX,
        tag.len() == 3 && all_alphanumeric(tag) && !text::is_whitespace(tag[2]),
        other.len() == 3 && all_alphanumeric(other) && !text::is_whitespace(other[2]),
    ensures
        ({
            let start = text::decimal(first) + seq![':'] + tag;
            let end = text::decimal(last) + seq![':'] + other;
            &&& request matches PatchHashlineOperation::InsertBefore { path: p, anchor, content }
                ==> p@ == path && anchor@ == start ==> read_operation(request) == Ok::<
                OperationView,
                Seq<char>,
            >(
                OperationView {
                    kind: OperationKind::InsertBefore,
                    path,
                    start: (first, tag),
                    end: None,
                    body: content@,
                },
            )
            &&& request matches PatchHashlineOperation::InsertAfter { path: p, anchor, content }
                ==> p@ == path && anchor@ == start ==> read_operation(request) == Ok::<
                OperationView,
                Seq<char>,
            >(
                OperationView {
                    kind: OperationKind::InsertAfter,
                    path,
                    start: (first, tag),
                    end: None,
                    body: content@,
                },
            )
            &&& request matches PatchHashlineOperation::Replace {
                path: p,
                anchor_start,
                anchor_end,
                content,
            } ==> p@ == path && anchor_start@ == start && anchor_end@ == end ==> read_operation(
                request,
            ) == Ok::<OperationView, Seq<char>>(
                OperationView {
                    kind: OperationKind::Replace,
                    path,
                    start: (first, tag),
                    end: Some((last, other)),
                    body: content@,
                },
            )
            &&& request matches PatchHashlineOperation::Delete {
                path: p,
                anchor_start,
                anchor_end,
            } ==> p@ == path && anchor_start@ == start && anchor_end@ == end ==> read_operation(
                request,
            ) == Ok::<OperationView, Seq<char>>(
                OperationView {
                    kind: OperationKind::Delete,
                    path,
                    start: (first, tag),
                    end: Some((last, other)),
                    body: Seq::empty(),
                },
            )
        }),
{
    lemma_anchor_is_read(first, tag);
    lemma_anchor_is_read(last, other);
    text::law_blanks_are_trimmed(Seq::empty(), path, Seq::empty());
    assert(Seq::<char>::empty() + path + Seq::<char>::empty() =~= path);
}

proof fn lemma_anchor_is_read(number: nat, tag: Seq<char>)
    requires
        0 < number <= usize::MAX,
        tag.len() == 3 && all_alphanumeric(tag) && !text::is_whitespace(tag[2]),
    ensures
        read_anchor(text::decimal(number) + seq![':'] + tag) == Ok::<
            (nat, Seq<char>),
            Seq<char>,
        >((number, tag)),
{
    let d = text::decimal(number);
    let s = d + seq![':'] + tag;
    text::lemma_decimal(number);
    assert(text::is_digit(d[0]));
    assert(s[0] == d[0] && s.last() == tag[2]);
    text::law_blanks_are_trimmed(Seq::empty(), s, Seq::empty());
    assert(Seq::<char>::empty() + s + Seq::<char>::empty() =~= s);
    assert(!d.contains(':')) by {
        if d.contains(':') {
            let k = d.index_of(':');
            assert(text::is_digit(d[k]));
        }
    }
    text::law_texts_are_cut_at_separators(d, ':', tag);
    text::law_numbers_are_written_in_tens(number, 0, usize::MAX as nat);
}

/// Lines are marked one by one and in their order, and what was applied is counted.
pub proof fn law_changes_are_marked_and_counted(
    a: Seq<Seq<char>>,
    b: Seq<Seq<char>>,
    line: Seq<char>,
    mark: char,
    c: Seq<OutcomeView>,
    o: OutcomeView,
)
    ensures
        marked(a + b, mark) == marked(a, mark) + marked(b, mark),
        marked(seq![line], mark) == seq![mark] + line + seq!['\n'],
        o.applied ==> applied_count(c.push(o)) == applied_count(c) + 1,
        !o.applied ==> applied_count(c.push(o)) == applied_count(c),
        applied_count(Seq::empty()) == 0,
    decreases b.len(),
{
    reveal_with_fuel(marked, 2);
    assert(seq![line].drop_last() =~= Seq::empty());
    assert(marked(seq![line], mark) =~= seq![mark] + line + seq!['\n']);
    assert(c.push(o).drop_last() =~= c);
    if b.len() == 0 {
        assert(a + b =~= a);
        assert(marked(a, mark) + marked(b, mark) =~= marked(a, mark));
    } else {
        law_changes_are_marked_and_counted(a, b.drop_last(), line, mark, c, o);
        assert((a + b).drop_last() =~= a + b.drop_last());
        assert((a + b).last() == b.last());
        assert(marked(a + b, mark) =~= marked(a, mark) + marked(b, mark));
    }
}

/// A write that fails fails the operations on its file that had not failed before, and one
/// that succeeds applies them; those on other files are not touched.
pub proof fn law_writes_decide_their_operations(
    o: OutcomeView,
    path: Seq<char>,
    reason: Seq<char>,
)
    ensures
        o.operation.path != path ==> after_write(o, path, Some(reason)) == o && after_write(
            o,
            path,
            None,
        ) == o,
        o.failure is Some ==> after_write(o, path, Some(reason)) == o && after_write(o, path, None)
            == o,
        survives(o, path) ==> after_write(o, path, None).applied && !after_write(
            o,
            path,
            Some(reason),
        ).applied && after_write(o, path, Some(reason)).failure is Some && after_write(
            o,
            path,
            None,
        ).failure == o.failure,
{
}

/// Around a line its neighbours are shown, as far as there are any.
pub proof fn law_neighbours_are_shown(line: int, n: int)
    requires
        1 <= line <= n,
    ensures
        window(line, n).0 == (if line > 1 {
            line - 1
        } else {
            1
        }),
        window(line, n).1 == (if line < n {
            line + 1
        } else {
            n
        }),
{
}

spec fn starts_sorted(list: Seq<(int, int)>) -> bool {
    forall|i: int, j: int| 0 <= i < j < list.len() ==> (#[trigger] list[i]).0 <= (#[trigger] list[j]).0
}

spec fn covers(list: Seq<(int, int)>, w: (int, int)) -> bool {
    exists|m: int| 0 <= m < list.len() && (#[trigger] list[m]).0 <= w.0 && w.1 <= list[m].1
}

spec fn all_within(list: Seq<(int, int)>, n: int) -> bool {
    forall|i: int| 0 <= i < list.len() ==> 1 <= (#[trigger] list[i]).0 <= list[i].1 <= n
}

proof fn lemma_window_inserted(list: Seq<(int, int)>, w: (int, int), n: int)
    requires
        starts_sorted(list),
        all_within(list, n),
        1 <= w.0 <= w.1 <= n,
    ensures
        starts_sorted(insert_window(list, w)),
        all_within(insert_window(list, w), n),
        insert_window(list, w).contains(w),
        forall|x: (int, int)| list.contains(x) ==> #[trigger] insert_window(list, w).contains(x),
        list.len() > 0 ==> insert_window(list, w).last().0 == (if w.0 > list.last().0 {
            w.0
        } else {
            list.last().0
        }),
        insert_window(list, w).len() == list.len() + 1,
    decreases list.len(),
{
    let all = insert_window(list, w);
    if list.len() > 0 && (w.0 < list.last().0 || (w.0 == list.last().0 && w.1 < list.last().1)) {
        let front = list.drop_last();
        let some = insert_window(front, w);
        assert forall|i: int, j: int| 0 <= i < j < front.len() implies (#[trigger] front[i]).0 <= (
        #[trigger] front[j]).0 by {
            assert(list[i].0 <= list[j].0);
        }
        assert forall|i: int| 0 <= i < front.len() implies 1 <= (#[trigger] front[i]).0
            <= front[i].1 <= n by {
            assert(list[i].0 >= 1);
        }
        lemma_window_inserted(front, w, n);
        if front.len() > 0 {
            assert(list[front.len() - 1].0 <= list[list.len() - 1].0);
        }
        assert forall|i: int, j: int| 0 <= i < j < all.len() implies (#[trigger] all[i]).0 <= (
        #[trigger] all[j]).0 by {
            assert(all[i] == some[i]);
            if j < some.len() {
                assert(all[j] == some[j]);
            } else if i < some.len() - 1 {
                assert(some[i].0 <= some[some.len() - 1].0);
            }
        }
        assert forall|i: int| 0 <= i < all.len() implies 1 <= (#[trigger] all[i]).0 <= all[i].1
            <= n by {
            if i < some.len() {
                assert(all[i] == some[i]);
            } else {
                assert(all[i] == list[list.len() - 1]);
            }
        }
        assert(all[some.index_of(w)] == w);
        assert forall|x: (int, int)| list.contains(x) implies #[trigger] all.contains(x) by {
            let k = list.index_of(x);
            if k < front.len() {
                assert(front[k] == x);
                assert(front.contains(x));
                assert(some.contains(x));
                assert(all[some.index_of(x)] == x);
            } else {
                assert(all[all.len() - 1] == x);
            }
        }
    } else {
        assert(all[list.len() as int] == w);
        assert forall|i: int, j: int| 0 <= i < j < all.len() implies (#[trigger] all[i]).0 <= (
        #[trigger] all[j]).0 by {
            assert(all[i] == list[i]);
            if j < list.len() {
                assert(all[j] == list[j]);
            } else if i < list.len() - 1 {
                assert(list[i].0 <= list[list.len() - 1].0);
            }
        }
        assert forall|x: (int, int)| list.contains(x) implies #[trigger] all.contains(x) by {
            assert(all[list.index_of(x)] == x);
        }
    }
}

proof fn lemma_windows(anchors: Seq<(nat, Seq<char>)>, n: int)
    requires
        n >= 1,
    ensures
        starts_sorted(windows(anchors, n)),
        all_within(windows(anchors, n), n),
        forall|i: int|
            0 <= i < anchors.len() ==> windows(anchors, n).contains(
                window((#[trigger] anchors[i]).0 as int, n),
            ),
    decreases anchors.len(),
{
    if anchors.len() > 0 {
        let front = anchors.drop_last();
        lemma_windows(front, n);
        let w = window(anchors.last().0 as int, n);
        lemma_window_inserted(windows(front, n), w, n);
        assert forall|i: int| 0 <= i < anchors.len() implies windows(anchors, n).contains(
            window((#[trigger] anchors[i]).0 as int, n),
        ) by {
            if i < front.len() {
                assert(front[i] == anchors[i]);
            }
        }
    }
}

proof fn lemma_merged(list: Seq<(int, int)>, n: int)
    requires
        starts_sorted(list),
        all_within(list, n),
    ensures
        all_within(merged(list), n),
        list.len() > 0 ==> merged(list).len() > 0 && merged(list).last().0 <= list.last().0,
        forall|x: (int, int)| #[trigger] list.contains(x) ==> covers(merged(list), x),
    decreases list.len(),
{
    if list.len() > 0 {
        let front = list.drop_last();
        let w = list.last();
        assert forall|i: int, j: int| 0 <= i < j < front.len() implies (#[trigger] front[i]).0 <= (
        #[trigger] front[j]).0 by {
            assert(list[i].0 <= list[j].0);
        }
        assert forall|i: int| 0 <= i < front.len() implies 1 <= (#[trigger] front[i]).0
            <= front[i].1 <= n by {
            assert(list[i].0 >= 1);
        }
        lemma_merged(front, n);
        let m = merged(front);
        let all = merged(list);
        assert(list[list.len() - 1] == w);
        if front.len() > 0 {
            assert(list[front.len() - 1].0 <= list[list.len() - 1].0);
        }
        if m.len() > 0 && w.0 <= m.last().1 + 1 {
            assert(m[m.len() - 1] == m.last());
            assert forall|i: int| 0 <= i < all.len() implies 1 <= (#[trigger] all[i]).0
                <= all[i].1 <= n by {
                if i < all.len() - 1 {
                    assert(all[i] == m[i]);
                }
            }
        } else {
            assert forall|i: int| 0 <= i < all.len() implies 1 <= (#[trigger] all[i]).0
                <= all[i].1 <= n by {
                if i < m.len() {
                    assert(all[i] == m[i]);
                }
            }
        }
        assert forall|x: (int, int)| #[trigger] list.contains(x) implies covers(all, x) by {
            let k = list.index_of(x);
            if k < front.len() {
                assert(front[k] == x);
                assert(front.contains(x));
                let c = choose|c: int|
                    0 <= c < m.len() && (#[trigger] m[c]).0 <= x.0 && x.1 <= m[c].1;
                assert(all[c].0 <= x.0 && x.1 <= all[c].1);
            } else {
                assert(all[all.len() - 1].0 <= w.0 && w.1 <= all[all.len() - 1].1);
            }
        }
    }
}

proof fn lemma_shown_windows(lines: Seq<Seq<char>>, list: Seq<(int, int)>, m: int, k: int)
    requires
        all_within(list, lines.len() as int),
        0 <= m < list.len(),
        list[m].0 - 1 <= k < list[m].1,
    ensures
        shown_windows(lines, list).contains(lines[k]),
    decreases list.len(),
{
    let all = shown_windows(lines, list);
    let earlier = shown_windows(lines, list.drop_last());
    let w = list.last();
    let cut = lines.subrange(w.0 - 1, w.1);
    assert(list[list.len() - 1] == w);
    if m < list.len() - 1 {
        assert forall|i: int| 0 <= i < list.drop_last().len() implies 1 <= (
        #[trigger] list.drop_last()[i]).0 <= list.drop_last()[i].1 <= lines.len() by {
            assert(list[i].0 >= 1);
        }
        lemma_shown_windows(lines, list.drop_last(), m, k);
        assert(all[earlier.index_of(lines[k])] == lines[k]);
    } else {
        assert(cut[k - (w.0 - 1)] == lines[k]);
        assert(all[all.len() - cut.len() + k - (w.0 - 1)] == lines[k]);
    }
}

/// Every line that an anchor names is shown with its neighbours.
pub proof fn law_anchored_lines_are_shown(
    lines: Seq<Seq<char>>,
    anchors: Seq<(nat, Seq<char>)>,
    i: int,
    number: int,
)
    requires
        0 <= i < anchors.len(),
        1 <= anchors[i].0 <= lines.len(),
        1 <= number <= lines.len(),
        anchors[i].0 - 1 <= number <= anchors[i].0 + 1,
    ensures
        exists|shown: Seq<Seq<char>>|
            #![trigger text::joined(shown, "\n"@)]
            context_around(lines, anchors) == text::joined(shown, "\n"@) && shown.contains(
                lines[number - 1],
            ),
{
    let n = lines.len() as int;
    lemma_windows(anchors, n);
    let list = windows(anchors, n);
    lemma_merged(list, n);
    let all = merged(list);
    let w = window(anchors[i].0 as int, n);
    assert(list.contains(w));
    assert(covers(all, w));
    let m = choose|m: int| 0 <= m < all.len() && (#[trigger] all[m]).0 <= w.0 && w.1 <= all[m].1;
    lemma_shown_windows(lines, all, m, number - 1);
    let shown = shown_windows(lines, all);
    assert(context_around(lines, anchors) == text::joined(shown, "\n"@));
}

/// Every operation that failed is reported with its file and its reason, in its turn.
pub proof fn law_failures_are_reported(outcomes: Seq<OutcomeView>, o: OutcomeView, reason: Seq<char>)
    ensures
        o.applied ==> failures(outcomes.push(o)) == failures(outcomes),
        !o.applied && o.failure == Some(reason) ==> failures(outcomes.push(o)) == failures(outcomes)
            + o.operation.path + (": "@ + reason) + "\n"@,
        failures(Seq::empty()) == "Patch failed:\n"@,
{
    assert(outcomes.push(o).drop_last() =~= outcomes);
}

} // verus!
