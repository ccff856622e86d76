//! Paths as texts, read part by part: slashes separate the parts, a leading one
//! stands for the root, and single dots within a path mean nothing.
use crate::text;
use vstd::prelude::*;

verus! {

/// A part of a path.
#[derive(Debug, PartialEq, Eq)]
pub enum Part {
    Root,
    /// A dot at the start of a relative path.
    Here,
    /// Two dots.
    Up,
    Name(String),
}

pub ghost enum PartView {
    Root,
    Here,
    Up,
    Name(Seq<char>),
}

impl View for Part {
    type V = PartView;

    open spec fn view(&self) -> PartView {
        match *self {
            Part::Root => PartView::Root,
            Part::Here => PartView::Here,
            Part::Up => PartView::Up,
            Part::Name(n) => PartView::Name(n@),
        }
    }
}

pub open spec fn part_views(parts: Seq<Part>) -> Seq<PartView> {
    parts.map_values(|p: Part| p@)
}

pub open spec fn is_absolute(path: Seq<char>) -> bool {
    path.len() > 0 && path[0] == '/'
}

/// What a piece between slashes stands for.
pub open spec fn part_of(piece: Seq<char>, first: bool) -> Seq<PartView> {
    if piece.len() == 0 {
        Seq::empty()
    } else if piece == "."@ {
        if first {
            seq![PartView::Here]
        } else {
            Seq::empty()
        }
    } else if piece == ".."@ {
        seq![PartView::Up]
    } else {
        seq![PartView::Name(piece)]
    }
}

/// What the pieces between slashes stand for.
pub open spec fn parts_of(pieces: Seq<Seq<char>>) -> Seq<PartView>
    decreases pieces.len(),
{
    if pieces.len() == 0 {
        Seq::empty()
    } else {
        parts_of(pieces.drop_last()) + part_of(pieces.last(), pieces.len() == 1)
    }
}

/// The parts of a path.
pub open spec fn parts(path: Seq<char>) -> Seq<PartView> {
    let root = if is_absolute(path) {
        seq![PartView::Root]
    } else {
        Seq::empty()
    };
    root + parts_of(text::split(path, '/'))
}

/// Whether a path is relative to the root of the file system.
pub fn absolute(path: &str) -> (r: bool)
    ensures
        r == is_absolute(path@),
{
    let cs = text::to_chars(path);
    cs.len() > 0 && cs[0] == '/'
}

/// Reads a path part by part.
pub fn components(path: &str) -> (r: Vec<Part>)
    ensures
        part_views(r@) == parts(path@),
{
    let pieces = text::split_char(path, '/');
    let ghost all = text::texts(pieces@);
    let mut out: Vec<Part> = Vec::new();
    let ghost root: Seq<PartView> = if is_absolute(path@) {
        seq![PartView::Root]
    } else {
        Seq::empty()
    };
    if absolute(path) {
        out.push(Part::Root);
    }
    proof {
        assert(part_views(out@) =~= root);
        assert(all.take(0) =~= Seq::empty());
        assert(root + parts_of(all.take(0)) =~= root);
    }
    let mut i: usize = 0;
    while i < pieces.len()
        invariant
            i <= pieces@.len(),
            all == text::texts(pieces@),
            part_views(out@) == root + parts_of(all.take(i as int)),
        decreases pieces@.len() - i,
    {
        let piece = pieces[i].as_str();
        let ghost before = out@;
        proof {
            assert(all.take(i + 1).drop_last() =~= all.take(i as int));
            assert(all.take(i + 1).last() == piece@);
        }
        if piece.is_empty() {
        } else if text::same_text(piece, ".") {
            if i == 0 {
                out.push(Part::Here);
            }
        } else if text::same_text(piece, "..") {
            out.push(Part::Up);
        } else {
            out.push(Part::Name(text::owned(piece)));
        }
        proof {
            assert(part_views(out@) =~= part_views(before) + part_of(piece@, i == 0));
            assert(part_views(out@) =~= root + parts_of(all.take(i + 1)));
        }
        i += 1;
    }
    proof {
        assert(all.take(i as int) =~= all);
    }
    out
}

// ---------------------------------------------------------------------------
// Spelling
// ---------------------------------------------------------------------------

/// How a part is written between slashes.
pub open spec fn part_text(part: PartView) -> Seq<char> {
    match part {
        PartView::Root => Seq::empty(),
        PartView::Here => "."@,
        PartView::Up => ".."@,
        PartView::Name(n) => n,
    }
}

pub open spec fn part_texts(parts: Seq<PartView>) -> Seq<Seq<char>> {
    parts.map_values(|p: PartView| part_text(p))
}

/// The plain spelling of parts.
pub open spec fn spelled(parts: Seq<PartView>) -> Seq<char> {
    if parts.len() > 0 && parts[0] == PartView::Root {
        "/"@ + text::joined(part_texts(parts.skip(1)), "/"@)
    } else {
        text::joined(part_texts(parts), "/"@)
    }
}

/// Spells the parts from `from` up to `to`.
pub fn spell(list: &[Part], from: usize, to: usize) -> (r: String)
    requires
        from <= to <= list@.len(),
    ensures
        r@ == spelled(part_views(list@.subrange(from as int, to as int))),
{
    let ghost wanted = part_views(list@.subrange(from as int, to as int));
    let rooted = from < to && matches!(list[from], Part::Root);
    let start: usize = if rooted {
        from + 1
    } else {
        from
    };
    let ghost rest = if rooted {
        wanted.skip(1)
    } else {
        wanted
    };
    let mut texts: Vec<String> = Vec::new();
    let mut i: usize = start;
    proof {
        if from < to {
            assert(wanted[0] == list@[from as int]@);
        }
        assert(rest.len() == to - start);
        assert forall|k: int| 0 <= k < rest.len() implies #[trigger] rest[k] == list@[start + k]@ by {
        }
        assert(text::texts(texts@) =~= part_texts(rest).take(0));
    }
    while i < to
        invariant
            from <= start <= i <= to <= list@.len(),
            rest.len() == to - start,
            forall|k: int| 0 <= k < rest.len() ==> #[trigger] rest[k] == list@[start + k]@,
            text::texts(texts@) == part_texts(rest).take(i - start),
        decreases to - i,
    {
        let shown = match &list[i] {
            Part::Root => String::new(),
            Part::Here => text::owned("."),
            Part::Up => text::owned(".."),
            Part::Name(n) => text::owned(n.as_str()),
        };
        let ghost t = shown@;
        let ghost before = text::texts(texts@);
        texts.push(shown);
        proof {
            assert(rest[i - start] == list@[i as int]@);
            assert(t =~= part_text(rest[i - start]));
            assert(text::texts(texts@) =~= before.push(t));
            assert(part_texts(rest).take(i + 1 - start) =~= part_texts(rest).take(i - start).push(
                t,
            ));
        }
        i += 1;
    }
    proof {
        assert(part_texts(rest).take(to - start) =~= part_texts(rest));
    }
    let body = text::join(texts.as_slice(), "/");
    if rooted {
        text::cat2("/", body.as_str())
    } else {
        body
    }
}

/// The path `child` under `base`. An absolute child stands for itself.
pub open spec fn joined(base: Seq<char>, child: Seq<char>) -> Seq<char> {
    if is_absolute(child) || base.len() == 0 {
        child
    } else if base.last() == '/' {
        base + child
    } else {
        base + "/"@ + child
    }
}

/// The path `child` under `base`.
pub fn join(base: &str, child: &str) -> (r: String)
    ensures
        r@ == joined(base@, child@),
{
    let cs = text::to_chars(base);
    if absolute(child) || cs.len() == 0 {
        text::owned(child)
    } else if cs[cs.len() - 1] == '/' {
        text::cat2(base, child)
    } else {
        text::cat3(base, "/", child)
    }
}

// ---------------------------------------------------------------------------
// Relations
// ---------------------------------------------------------------------------

/// Whether two paths have the same parts.
pub open spec fn is_same(a: Seq<char>, b: Seq<char>) -> bool {
    parts(a) == parts(b)
}

/// Whether the parts of `path` start with those of `base`.
pub open spec fn is_under(path: Seq<char>, base: Seq<char>) -> bool {
    parts(base).len() <= parts(path).len() && parts(path).take(parts(base).len() as int) == parts(
        base,
    )
}

/// What follows `base` in `path`.
pub open spec fn stripped(path: Seq<char>, base: Seq<char>) -> Option<Seq<char>> {
    if is_under(path, base) {
        Some(spelled(parts(path).skip(parts(base).len() as int)))
    } else {
        None
    }
}

/// The name at the end of a path.
pub open spec fn last_name(path: Seq<char>) -> Option<Seq<char>> {
    let p = parts(path);
    if p.len() > 0 {
        match p.last() {
            PartView::Name(n) => Some(n),
            _ => None,
        }
    } else {
        None
    }
}

/// What a path is in.
pub open spec fn parent_of(path: Seq<char>) -> Option<Seq<char>> {
    let p = parts(path);
    if p.len() > 0 && p.last() != PartView::Root {
        Some(spelled(p.drop_last()))
    } else {
        None
    }
}

/// Whether two parts are the same.
pub fn same_part(a: &Part, b: &Part) -> (r: bool)
    ensures
        r == (a@ == b@),
{
    match (a, b) {
        (Part::Root, Part::Root) => true,
        (Part::Here, Part::Here) => true,
        (Part::Up, Part::Up) => true,
        (Part::Name(x), Part::Name(y)) => text::same_text(x.as_str(), y.as_str()),
        _ => false,
    }
}

fn leads(list: &Vec<Part>, base: &Vec<Part>) -> (r: bool)
    ensures
        r == (base@.len() <= list@.len() && part_views(list@).take(base@.len() as int)
            == part_views(base@)),
{
    if base.len() > list.len() {
        return false;
    }
    let mut i: usize = 0;
    while i < base.len()
        invariant
            i <= base@.len() <= list@.len(),
            forall|k: int| 0 <= k < i ==> (#[trigger] list@[k])@ == base@[k]@,
        decreases base@.len() - i,
    {
        if !same_part(&list[i], &base[i]) {
            proof {
                assert(part_views(list@).take(base@.len() as int)[i as int] == list@[i as int]@);
                assert(part_views(base@)[i as int] == base@[i as int]@);
            }
            return false;
        }
        i += 1;
    }
    proof {
        assert(part_views(list@).take(base@.len() as int) =~= part_views(base@));
    }
    true
}

/// Whether two paths have the same parts.
pub fn same_path(a: &str, b: &str) -> (r: bool)
    ensures
        r == is_same(a@, b@),
{
    let x = components(a);
    let y = components(b);
    proof {
        assert(part_views(x@).take(x@.len() as int) =~= part_views(x@));
    }
    x.len() == y.len() && leads(&x, &y)
}

/// Whether the parts of `path` start with those of `base`.
pub fn under(path: &str, base: &str) -> (r: bool)
    ensures
        r == is_under(path@, base@),
{
    leads(&components(path), &components(base))
}

/// What follows `base` in `path`.
pub fn strip_prefix(path: &str, base: &str) -> (r: Option<String>)
    ensures
        text::opt_text(r) == stripped(path@, base@),
{
    let list = components(path);
    let head = components(base);
    if leads(&list, &head) {
        let rest = spell(list.as_slice(), head.len(), list.len());
        proof {
            assert(part_views(list@.subrange(head@.len() as int, list@.len() as int)) =~= parts(
                path@,
            ).skip(parts(base@).len() as int));
        }
        Some(rest)
    } else {
        None
    }
}

/// The name at the end of a path.
pub fn file_name(path: &str) -> (r: Option<String>)
    ensures
        text::opt_text(r) == last_name(path@),
{
    let list = components(path);
    if list.len() == 0 {
        return None;
    }
    proof {
        assert(parts(path@).last() == list@[list@.len() - 1]@);
    }
    match &list[list.len() - 1] {
        Part::Name(n) => Some(text::owned(n.as_str())),
        _ => None,
    }
}

/// What a path is in.
pub fn parent(path: &str) -> (r: Option<String>)
    ensures
        text::opt_text(r) == parent_of(path@),
{
    let list = components(path);
    if list.len() == 0 {
        return None;
    }
    proof {
        assert(parts(path@).last() == list@[list@.len() - 1]@);
        assert(part_views(list@.subrange(0, list@.len() - 1)) =~= parts(path@).drop_last());
    }
    if matches!(list[list.len() - 1], Part::Root) {
        None
    } else {
        Some(spell(list.as_slice(), 0, list.len() - 1))
    }
}

// ---------------------------------------------------------------------------
// Order
// ---------------------------------------------------------------------------

/// How parts of paths are ordered.
pub open spec fn part_less(a: PartView, b: PartView) -> bool {
    match (a, b) {
        (PartView::Name(x), PartView::Name(y)) => text::text_less(x, y),
        _ => part_rank(a) < part_rank(b),
    }
}

pub open spec fn part_rank(p: PartView) -> int {
    match p {
        PartView::Root => 0,
        PartView::Here => 1,
        PartView::Up => 2,
        PartView::Name(_) => 3,
    }
}

/// How paths are ordered: part by part, the shorter first.
pub open spec fn parts_less(a: Seq<PartView>, b: Seq<PartView>) -> bool
    decreases a.len(),
{
    if b.len() == 0 {
        false
    } else if a.len() == 0 {
        true
    } else if a[0] == b[0] {
        parts_less(a.drop_first(), b.drop_first())
    } else {
        part_less(a[0], b[0])
    }
}

fn less_part(a: &Part, b: &Part) -> (r: bool)
    ensures
        r == part_less(a@, b@),
{
    match (a, b) {
        (Part::Name(x), Part::Name(y)) => text::less(x.as_str(), y.as_str()),
        _ => rank(a) < rank(b),
    }
}

fn rank(p: &Part) -> (r: u8)
    ensures
        r == part_rank(p@),
{
    match p {
        Part::Root => 0,
        Part::Here => 1,
        Part::Up => 2,
        Part::Name(_) => 3,
    }
}

/// Whether one path comes before another: part by part, the shorter first.
pub fn less_path(a: &str, b: &str) -> (r: bool)
    ensures
        r == parts_less(parts(a@), parts(b@)),
{
    let x = components(a);
    let y = components(b);
    let ghost p = parts(a@);
    let ghost q = parts(b@);
    let mut i: usize = 0;
    proof {
        assert(p.skip(0) =~= p);
        assert(q.skip(0) =~= q);
    }
    while i < x.len() && i < y.len()
        invariant
            i <= x@.len(),
            i <= y@.len(),
            p == parts(a@),
            q == parts(b@),
            part_views(x@) == p,
            part_views(y@) == q,
            parts_less(p, q) == parts_less(p.skip(i as int), q.skip(i as int)),
        decreases x@.len() - i,
    {
        proof {
            assert(p.skip(i as int)[0] == x@[i as int]@);
            assert(q.skip(i as int)[0] == y@[i as int]@);
            assert(p.skip(i as int).drop_first() =~= p.skip(i + 1));
            assert(q.skip(i as int).drop_first() =~= q.skip(i + 1));
        }
        if !same_part(&x[i], &y[i]) {
            return less_part(&x[i], &y[i]);
        }
        i += 1;
    }
    i < y.len()
}

/// Of two different paths one comes first.
pub proof fn lemma_parts_less(a: Seq<PartView>, b: Seq<PartView>)
    ensures
        !(parts_less(a, b) && parts_less(b, a)),
        a != b ==> parts_less(a, b) || parts_less(b, a),
        a == b ==> !parts_less(a, b),
    decreases a.len(),
{
    if a.len() > 0 && b.len() > 0 {
        if a[0] == b[0] {
            lemma_parts_less(a.drop_first(), b.drop_first());
            if a.drop_first() == b.drop_first() {
                assert(a =~= seq![a[0]] + a.drop_first());
                assert(b =~= seq![b[0]] + b.drop_first());
            }
        } else if let (PartView::Name(x), PartView::Name(y)) = (a[0], b[0]) {
            text::lemma_text_less_total(x, y);
        }
    } else if a.len() == 0 && b.len() == 0 {
        assert(a =~= b);
    }
}

pub proof fn lemma_parts_less_trans(
    a: Seq<PartView>,
    b: Seq<PartView>,
    c: Seq<PartView>,
)
    requires
        parts_less(a, b),
        parts_less(b, c),
    ensures
        parts_less(a, c),
    decreases a.len(),
{
    if a.len() > 0 {
        if a[0] == b[0] && b[0] == c[0] {
            lemma_parts_less_trans(a.drop_first(), b.drop_first(), c.drop_first());
        } else if a[0] != b[0] && b[0] != c[0] {
            if let (PartView::Name(x), PartView::Name(y)) = (a[0], b[0]) {
                if let PartView::Name(z) = c[0] {
                    text::lemma_text_less_trans(x, y, z);
                    text::lemma_text_less_total(x, z);
                }
            }
        }
    }
}

// ---------------------------------------------------------------------------
// Paths within a project
// ---------------------------------------------------------------------------

/// Whether no part of a path leads up or to the root.
pub open spec fn stays_inside(path: Seq<char>) -> bool {
    forall|i: int|
        0 <= i < parts(path).len() ==> (#[trigger] parts(path)[i]) != PartView::Up && parts(
            path,
        )[i] != PartView::Root
}

/// Whether no part of a path leads up or to the root.
pub fn inside(path: &str) -> (r: bool)
    ensures
        r == stays_inside(path@),
{
    let list = components(path);
    let mut i: usize = 0;
    while i < list.len()
        invariant
            i <= list@.len(),
            part_views(list@) == parts(path@),
            forall|k: int|
                0 <= k < i ==> (#[trigger] parts(path@)[k]) != PartView::Up && parts(path@)[k]
                    != PartView::Root,
        decreases list@.len() - i,
    {
        proof {
            assert(parts(path@)[i as int] == list@[i as int]@);
        }
        if matches!(list[i], Part::Up) || matches!(list[i], Part::Root) {
            return false;
        }
        i += 1;
    }
    true
}

/// The parts that name something.
pub open spec fn names_of(list: Seq<PartView>) -> Seq<Seq<char>>
    decreases list.len(),
{
    if list.len() == 0 {
        Seq::empty()
    } else {
        match list.last() {
            PartView::Name(n) => names_of(list.drop_last()).push(n),
            _ => names_of(list.drop_last()),
        }
    }
}

/// A path by its names alone.
pub open spec fn plain(path: Seq<char>) -> Seq<char> {
    text::joined(names_of(parts(path)), "/"@)
}

/// A path by its names alone.
pub fn normalize(path: &str) -> (r: String)
    ensures
        r@ == plain(path@),
{
    let list = components(path);
    let mut names: Vec<String> = Vec::new();
    let mut i: usize = 0;
    proof {
        assert(parts(path@).take(0) =~= Seq::empty());
        assert(text::texts(names@) =~= Seq::empty());
    }
    while i < list.len()
        invariant
            i <= list@.len(),
            part_views(list@) == parts(path@),
            text::texts(names@) == names_of(parts(path@).take(i as int)),
        decreases list@.len() - i,
    {
        proof {
            assert(parts(path@).take(i + 1).drop_last() =~= parts(path@).take(i as int));
            assert(parts(path@).take(i + 1).last() == list@[i as int]@);
        }
        if let Part::Name(n) = &list[i] {
            text::push_text(&mut names, n.as_str());
        }
        i += 1;
    }
    proof {
        assert(parts(path@).take(i as int) =~= parts(path@));
    }
    text::join(names.as_slice(), "/")
}

// ---------------------------------------------------------------------------
// Laws
// ---------------------------------------------------------------------------

/// Whether a text can be a name in a path.
pub open spec fn is_name(n: Seq<char>) -> bool {
    n.len() > 0 && !n.contains('/') && n != "."@ && n != ".."@
}

pub open spec fn all_names(names: Seq<Seq<char>>) -> bool {
    forall|i: int| 0 <= i < names.len() ==> is_name(#[trigger] names[i])
}

/// Names as parts.
pub open spec fn named(names: Seq<Seq<char>>) -> Seq<PartView> {
    names.map_values(|n: Seq<char>| PartView::Name(n))
}

proof fn lemma_parts_of_names(names: Seq<Seq<char>>)
    requires
        all_names(names),
    ensures
        parts_of(names) == named(names),
    decreases names.len(),
{
    if names.len() > 0 {
        let rest = names.drop_last();
        assert forall|i: int| 0 <= i < rest.len() implies is_name(#[trigger] rest[i]) by {
            assert(rest[i] == names[i]);
        }
        lemma_parts_of_names(rest);
        assert(is_name(names[names.len() - 1]));
        assert(parts_of(names) =~= named(names));
    } else {
        assert(parts_of(names) =~= named(names));
    }
}

/// Names joined by slashes are read back as they were.
pub proof fn lemma_names_are_read_back(names: Seq<Seq<char>>)
    requires
        all_names(names),
    ensures
        parts(text::joined(names, "/"@)) == named(names),
        names.len() == 0 <==> text::joined(names, "/"@).len() == 0,
        !is_absolute(text::joined(names, "/"@)),
{
    reveal_strlit("/");
    assert("/"@ =~= seq!['/']);
    let s = text::joined(names, "/"@);
    if names.len() == 0 {
        assert(text::index_of(s, '/') == 0);
        assert(text::split(s, '/') =~= seq![s]);
        assert(parts_of(seq![s]) =~= Seq::empty()) by {
            assert(seq![s].drop_last() =~= Seq::empty());
            assert(parts_of(seq![s].drop_last()) =~= Seq::empty());
        }
        assert(parts(s) =~= named(names));
    } else {
        assert forall|i: int| 0 <= i < names.len() implies !(#[trigger] names[i]).contains('/') by {
            assert(is_name(names[i]));
        }
        text::lemma_split_joined(names, '/');
        lemma_parts_of_names(names);
        lemma_joined_starts(names);
        assert(is_name(names[0]));
        assert(names[0][0] != '/') by {
            if names[0][0] == '/' {
                assert(names[0].contains('/'));
            }
        }
        assert(parts(s) =~= named(names));
    }
}

proof fn lemma_joined_starts(names: Seq<Seq<char>>)
    requires
        names.len() > 0,
        names[0].len() > 0,
    ensures
        text::joined(names, "/"@).len() > 0,
        text::joined(names, "/"@)[0] == names[0][0],
    decreases names.len(),
{
    if names.len() > 1 {
        lemma_joined_starts(names.drop_last());
    }
}

proof fn lemma_piece(s: Seq<char>, c: char)
    ensures
        forall|i: int|
            0 <= i < text::split(s, c).len() ==> !(#[trigger] text::split(s, c)[i]).contains(c),
        text::split(s, c).len() > 0,
    decreases s.len(),
{
    let i = text::index_of(s, c);
    text::lemma_index_of(s, c);
    let all = text::split(s, c);
    if i < s.len() {
        let rest = s.skip(i + 1);
        lemma_piece(rest, c);
        assert forall|k: int| 0 <= k < all.len() implies !(#[trigger] all[k]).contains(c) by {
            if k == 0 {
                assert(all[0] == s.take(i));
                if all[0].contains(c) {
                    let j = choose|j: int| 0 <= j < all[0].len() && all[0][j] == c;
                    assert(s[j] == c);
                }
            } else {
                assert(all[k] == text::split(rest, c)[k - 1]);
            }
        }
    } else {
        assert forall|k: int| 0 <= k < all.len() implies !(#[trigger] all[k]).contains(c) by {
            assert(all[k] == s);
            if s.contains(c) {
                let j = choose|j: int| 0 <= j < s.len() && s[j] == c;
                assert(s[j] == c);
            }
        }
    }
}

proof fn lemma_part_names(pieces: Seq<Seq<char>>)
    requires
        forall|i: int| 0 <= i < pieces.len() ==> !(#[trigger] pieces[i]).contains('/'),
    ensures
        forall|i: int|
            0 <= i < parts_of(pieces).len() ==> ((#[trigger] parts_of(pieces)[i]) matches PartView::Name(n)
                ==> is_name(n)),
    decreases pieces.len(),
{
    if pieces.len() > 0 {
        let rest = pieces.drop_last();
        assert forall|i: int| 0 <= i < rest.len() implies !(#[trigger] rest[i]).contains('/') by {
            assert(rest[i] == pieces[i]);
        }
        lemma_part_names(rest);
        assert(!pieces[pieces.len() - 1].contains('/'));
    }
}

proof fn lemma_names_of(list: Seq<PartView>)
    requires
        forall|i: int|
            0 <= i < list.len() ==> ((#[trigger] list[i]) matches PartView::Name(n) ==> is_name(n)),
    ensures
        all_names(names_of(list)),
    decreases list.len(),
{
    if list.len() > 0 {
        let rest = list.drop_last();
        assert forall|i: int| 0 <= i < rest.len() implies ((#[trigger] rest[i]) matches PartView::Name(
            n,
        ) ==> is_name(n)) by {
            assert(rest[i] == list[i]);
        }
        lemma_names_of(rest);
        assert(list[list.len() - 1] matches PartView::Name(n) ==> is_name(n));
    }
}

/// The plain form of a path has the same names, and nothing else.
pub proof fn law_plain_paths_hold_names(path: Seq<char>)
    ensures
        all_names(names_of(parts(path))),
        parts(plain(path)) == named(names_of(parts(path))),
        !is_absolute(plain(path)),
        stays_inside(plain(path)),
{
    lemma_piece(path, '/');
    lemma_part_names(text::split(path, '/'));
    let root: Seq<PartView> = if is_absolute(path) {
        seq![PartView::Root]
    } else {
        Seq::empty()
    };
    let tail = parts_of(text::split(path, '/'));
    assert forall|i: int| 0 <= i < parts(path).len() implies ((#[trigger] parts(
        path,
    )[i]) matches PartView::Name(n) ==> is_name(n)) by {
        if i >= root.len() {
            assert(parts(path)[i] == tail[i - root.len()]);
        }
    }
    lemma_names_of(parts(path));
    lemma_names_are_read_back(names_of(parts(path)));
}

proof fn lemma_parts_of_concat(a: Seq<Seq<char>>, names: Seq<Seq<char>>)
    requires
        all_names(names),
    ensures
        parts_of(a + names) == parts_of(a) + named(names),
    decreases names.len(),
{
    if names.len() == 0 {
        assert(a + names =~= a);
        assert(parts_of(a) + named(names) =~= parts_of(a));
    } else {
        let rest = names.drop_last();
        assert forall|i: int| 0 <= i < rest.len() implies is_name(#[trigger] rest[i]) by {
            assert(rest[i] == names[i]);
        }
        lemma_parts_of_concat(a, rest);
        assert(is_name(names[names.len() - 1]));
        assert((a + names).drop_last() =~= a + rest);
        assert(parts_of(a + names) =~= parts_of(a) + named(names));
    }
}

/// A path of names under a base has the parts of the base and then the names:
/// it never leaves the base.
pub proof fn law_names_stay_under_their_base(base: Seq<char>, names: Seq<Seq<char>>)
    requires
        all_names(names),
        base.len() > 0,
    ensures
        parts(joined(base, text::joined(names, "/"@))) == parts(base) + named(names),
        is_under(joined(base, text::joined(names, "/"@)), base),
{
    reveal_strlit("/");
    assert("/"@ =~= seq!['/']);
    let child = text::joined(names, "/"@);
    let path = joined(base, child);
    lemma_names_are_read_back(names);
    // The pieces of the child, of which an empty text has one.
    let pieces = text::split(child, '/');
    if names.len() == 0 {
        assert(child =~= Seq::empty());
        assert(text::index_of(child, '/') == 0);
        assert(pieces =~= seq![child]);
    } else {
        assert forall|i: int| 0 <= i < names.len() implies !(#[trigger] names[i]).contains('/') by {
            assert(is_name(names[i]));
        }
        text::lemma_split_joined(names, '/');
    }
    if base.last() == '/' {
        let front = base.drop_last();
        assert(path =~= front + seq!['/'] + child);
        assert(base =~= front + seq!['/'] + Seq::<char>::empty());
        text::lemma_split_concat(front, child, '/');
        text::lemma_split_concat(front, Seq::<char>::empty(), '/');
        let none = Seq::<char>::empty();
        assert(text::index_of(none, '/') == 0);
        assert(text::split(none, '/') =~= seq![none]);
        let head = text::split(front, '/');
        assert((head + seq![none]).drop_last() =~= head);
        lemma_piece(front, '/');
        assert(parts_of(head + seq![none]) =~= parts_of(head));
        if names.len() == 0 {
            assert(head + pieces =~= head + seq![none]);
            assert(named(names) =~= Seq::empty());
        } else {
            lemma_parts_of_concat(head, names);
        }
    } else {
        assert(path =~= base + seq!['/'] + child);
        text::lemma_split_concat(base, child, '/');
        let head = text::split(base, '/');
        lemma_piece(base, '/');
        if names.len() == 0 {
            assert((head + pieces).drop_last() =~= head);
            assert(parts_of(head + pieces) =~= parts_of(head));
            assert(named(names) =~= Seq::empty());
        } else {
            lemma_parts_of_concat(head, names);
        }
    }
    assert(is_absolute(path) == is_absolute(base)) by {
        assert(path[0] == base[0]);
    }
    assert(parts(path) =~= parts(base) + named(names));
    assert(parts(path).take(parts(base).len() as int) =~= parts(base));
}

/// A path of names ends with the last of them, lies in the directory of the ones before
/// it, and is left when its base is taken off.
pub proof fn law_paths_are_taken_apart(base: Seq<char>, names: Seq<Seq<char>>)
    requires
        all_names(names),
        names.len() > 0,
        base.len() > 0,
    ensures
        last_name(text::joined(names, "/"@)) == Some(names.last()),
        last_name(joined(base, text::joined(names, "/"@))) == Some(names.last()),
        parent_of(text::joined(names, "/"@)) == Some(text::joined(names.drop_last(), "/"@)),
        stripped(joined(base, text::joined(names, "/"@)), base) == Some(
            text::joined(names, "/"@),
        ),
        !is_under(base, joined(base, text::joined(names, "/"@))),
{
    lemma_names_are_read_back(names);
    law_names_stay_under_their_base(base, names);
    let all = parts(base) + named(names);
    assert(all.last() == PartView::Name(names.last()));
    assert(named(names).last() == PartView::Name(names.last()));
    assert(named(names).drop_last() =~= named(names.drop_last()));
    assert(part_texts(named(names.drop_last())) =~= names.drop_last());
    assert(part_texts(named(names)) =~= names);
    assert(all.skip(parts(base).len() as int) =~= named(names));
    if names.len() > 1 {
        assert(named(names.drop_last())[0] != PartView::Root);
    }
    assert(named(names)[0] != PartView::Root);
}

/// A path that is given from the root is taken as it is; another one is looked for under
/// the base.
pub proof fn law_children_are_looked_for_under_the_base(base: Seq<char>, child: Seq<char>)
    ensures
        joined(base, seq!['/'] + child) == seq!['/'] + child,
        base.len() > 0 && base.last() == '/' && !is_absolute(child) ==> joined(base, child) == base
            + child,
        base.len() > 0 && base.last() != '/' && !is_absolute(child) ==> joined(base, child) == base
            + seq!['/'] + child,
        is_absolute(seq!['/'] + child),
        child.len() > 0 && child[0] != '/' ==> !is_absolute(child),
{
    reveal_strlit("/");
    assert("/"@ =~= seq!['/']);
}

/// The steps of a path are what stands between its slashes; a step to where one is says
/// nothing but at the beginning, and a slash at the beginning is the root.
pub proof fn law_steps_stand_between_slashes(path: Seq<char>, step: Seq<char>)
    requires
        path.len() > 0,
        !step.contains('/'),
    ensures
        step.len() == 0 ==> parts(path + seq!['/'] + step) == parts(path),
        step == "."@ ==> parts(path + seq!['/'] + step) == parts(path),
        step == ".."@ ==> parts(path + seq!['/'] + step) == parts(path).push(PartView::Up),
        is_name(step) ==> parts(path + seq!['/'] + step) == parts(path).push(PartView::Name(step)),
        is_name(step) ==> parts(step) == seq![PartView::Name(step)],
        is_absolute(path) <==> parts(path).len() > 0 && parts(path)[0] == PartView::Root,
{
    reveal_strlit(".");
    reveal_strlit("..");
    let all = path + seq!['/'] + step;
    text::lemma_split_concat(path, step, '/');
    text::law_texts_are_cut_at_separators(step, '/', step);
    let pieces = text::split(path, '/');
    assert(text::split(all, '/') == pieces.push(step)) by {
        assert(pieces + seq![step] =~= pieces.push(step));
    }
    assert(pieces.push(step).drop_last() =~= pieces);
    assert(pieces.len() > 0) by {
        text::lemma_index_of(path, '/');
    }
    assert(is_absolute(all) == is_absolute(path)) by {
        assert(all[0] == path[0]);
    }
    let more = part_of(step, false);
    assert(parts_of(pieces.push(step)) == parts_of(pieces) + more);
    assert(parts(all) =~= parts(path) + more);
    if step.len() == 0 || step == "."@ {
        assert(parts(all) =~= parts(path));
    }
    if step == ".."@ {
        assert("."@.len() == 1 && ".."@.len() == 2);
        assert(parts(all) =~= parts(path).push(PartView::Up));
    }
    if is_name(step) {
        assert(parts(all) =~= parts(path).push(PartView::Name(step)));
        assert(seq![step].drop_last() =~= Seq::empty());
        assert(!is_absolute(step)) by {
            if is_absolute(step) {
                assert(step.contains(step[0]));
            }
        }
        reveal_with_fuel(parts_of, 2);
        assert(parts(step) =~= seq![PartView::Name(step)]);
    }
    lemma_no_root(pieces);
    if !is_absolute(path) && parts(path).len() > 0 {
        assert(parts(path)[0] == parts_of(pieces)[0]);
    }
}

proof fn lemma_no_root(pieces: Seq<Seq<char>>)
    ensures
        forall|i: int|
            0 <= i < parts_of(pieces).len() ==> (#[trigger] parts_of(pieces)[i]) != PartView::Root,
    decreases pieces.len(),
{
    if pieces.len() > 0 {
        lemma_no_root(pieces.drop_last());
    }
}

} // verus!
