//! Patterns for paths: a star stands for any characters of a name, a question mark
//! for one, and two stars for any number of names.
use crate::text;
use vstd::prelude::*;

verus! {

/// Whether one character of a pattern stands for a character of a name.
pub open spec fn fits(p: char, c: char) -> bool {
    p == '?' || p == c
}

/// Whether a pattern stands for a name.
pub open spec fn segment(pattern: Seq<char>, name: Seq<char>) -> bool
    decreases pattern.len(), name.len(),
{
    if pattern.len() == 0 {
        name.len() == 0
    } else if pattern.last() == '*' {
        segment(pattern.drop_last(), name) || (name.len() > 0 && segment(
            pattern,
            name.drop_last(),
        ))
    } else {
        name.len() > 0 && fits(pattern.last(), name.last()) && segment(
            pattern.drop_last(),
            name.drop_last(),
        )
    }
}

/// Whether a pattern stands for a path, name by name.
pub open spec fn names_match(pattern: Seq<Seq<char>>, path: Seq<Seq<char>>) -> bool
    decreases pattern.len() + path.len(),
{
    if pattern.len() == 0 {
        path.len() == 0
    } else if pattern[0] == "**"@ {
        names_match(pattern.drop_first(), path) || (path.len() > 0 && names_match(
            pattern,
            path.drop_first(),
        ))
    } else {
        path.len() > 0 && segment(pattern[0], path[0]) && names_match(
            pattern.drop_first(),
            path.drop_first(),
        )
    }
}

/// Slashes in place of backslashes.
pub open spec fn slashed(s: Seq<char>) -> Seq<char> {
    s.map_values(
        |c: char|
            if c == '\\' {
                '/'
            } else {
                c
            },
    )
}

/// The pieces that are neither empty nor a single dot.
pub open spec fn solid(pieces: Seq<Seq<char>>) -> Seq<Seq<char>>
    decreases pieces.len(),
{
    if pieces.len() == 0 {
        Seq::empty()
    } else {
        let earlier = solid(pieces.drop_last());
        if pieces.last().len() == 0 || pieces.last() == "."@ {
            earlier
        } else {
            earlier.push(pieces.last())
        }
    }
}

/// The names of a path.
pub open spec fn names(path: Seq<char>) -> Seq<Seq<char>> {
    solid(text::split(path, '/'))
}

/// Whether a pattern stands for a path.
pub open spec fn matches(pattern: Seq<char>, path: Seq<char>) -> bool {
    names_match(names(slashed(pattern)), names(path))
}

/// Puts slashes in place of backslashes.
pub fn slash(s: &str) -> (r: String)
    ensures
        r@ == slashed(s@),
{
    let cs = text::to_chars(s);
    let mut out = String::new();
    let mut i: usize = 0;
    while i < cs.len()
        invariant
            cs@ == s@,
            i <= cs@.len(),
            out@ == slashed(s@).take(i as int),
        decreases cs@.len() - i,
    {
        if cs[i] == '\\' {
            out.push('/');
        } else {
            out.push(cs[i]);
        }
        proof {
            assert(slashed(s@).take(i + 1) =~= slashed(s@).take(i as int).push(
                slashed(s@)[i as int],
            ));
        }
        i += 1;
    }
    proof {
        assert(slashed(s@).take(i as int) =~= slashed(s@));
    }
    out
}

fn split_names(path: &str) -> (r: Vec<String>)
    ensures
        text::texts(r@) == names(path@),
{
    let pieces = text::split_char(path, '/');
    let ghost all = text::texts(pieces@);
    let mut out = text::no_texts();
    let mut i: usize = 0;
    proof {
        assert(all.take(0) =~= Seq::empty());
    }
    while i < pieces.len()
        invariant
            i <= pieces@.len(),
            all == text::texts(pieces@),
            text::texts(out@) == solid(all.take(i as int)),
        decreases pieces@.len() - i,
    {
        let piece = pieces[i].as_str();
        proof {
            assert(all.take(i + 1).drop_last() =~= all.take(i as int));
            assert(all.take(i + 1).last() == piece@);
        }
        if !piece.is_empty() && !text::same_text(piece, ".") {
            text::push_text(&mut out, piece);
        }
        i += 1;
    }
    proof {
        assert(all.take(i as int) =~= all);
    }
    out
}

/// Whether the first `i` characters of a pattern stand for the first `j` of a name.
spec fn cell(pattern: Seq<char>, name: Seq<char>, i: int, j: int) -> bool {
    segment(pattern.take(i), name.take(j))
}

fn next_row(pattern: &[char], name: &[char], i: usize, row: &Vec<bool>) -> (next: Vec<bool>)
    requires
        i < pattern@.len(),
        row@.len() == name@.len() + 1,
        forall|j: int| 0 <= j <= name@.len() ==> row@[j] == #[trigger] cell(pattern@, name@, i as int, j),
    ensures
        next@.len() == name@.len() + 1,
        forall|j: int|
            0 <= j <= name@.len() ==> next@[j] == #[trigger] cell(pattern@, name@, i + 1, j),
{
    let p = pattern[i];
    let ghost longer = pattern@.take(i + 1);
    proof {
        assert(longer.last() == p);
        assert(longer.drop_last() =~= pattern@.take(i as int));
        assert(name@.take(0) =~= Seq::empty());
    }
    let mut next: Vec<bool> = Vec::new();
    proof {
        assert(cell(pattern@, name@, i as int, 0) == row@[0]);
    }
    next.push(p == '*' && row[0]);
    proof {
        assert(next@[0] == cell(pattern@, name@, i + 1, 0));
    }
    let mut j: usize = 0;
    while j < name.len()
        invariant
            j <= name@.len(),
            i < pattern@.len(),
            p == pattern@[i as int],
            longer == pattern@.take(i + 1),
            longer.last() == p,
            longer.drop_last() == pattern@.take(i as int),
            row@.len() == name@.len() + 1,
            next@.len() == j + 1,
            forall|k: int|
                0 <= k <= name@.len() ==> row@[k] == #[trigger] cell(pattern@, name@, i as int, k),
            forall|k: int|
                0 <= k <= j ==> next@[k] == #[trigger] cell(pattern@, name@, i + 1, k),
        decreases name@.len() - j,
    {
        let c = name[j];
        proof {
            assert(name@.take(j + 1).last() == c);
            assert(name@.take(j + 1).drop_last() =~= name@.take(j as int));
            assert(row@[j as int] == cell(pattern@, name@, i as int, j as int));
            assert(row@[j + 1] == cell(pattern@, name@, i as int, j + 1));
            assert(next@[j as int] == cell(pattern@, name@, i + 1, j as int));
        }
        let hit = if p == '*' {
            row[j + 1] || next[j]
        } else {
            row[j] && (p == '?' || p == c)
        };
        next.push(hit);
        proof {
            assert(hit == cell(pattern@, name@, i + 1, j + 1));
        }
        j += 1;
    }
    next
}

/// Whether a pattern stands for a name.
pub fn segment_matches(pattern: &str, name: &str) -> (r: bool)
    ensures
        r == segment(pattern@, name@),
{
    let p = text::to_chars(pattern);
    let v = text::to_chars(name);
    let mut row: Vec<bool> = Vec::new();
    row.push(true);
    proof {
        assert(p@.take(0) =~= Seq::empty());
        assert(v@.take(0) =~= Seq::empty());
    }
    let mut j: usize = 0;
    while j < v.len()
        invariant
            j <= v@.len(),
            row@.len() == j + 1,
            p@.take(0) == Seq::<char>::empty(),
            forall|k: int| 0 <= k <= j ==> row@[k] == #[trigger] cell(p@, v@, 0, k),
        decreases v@.len() - j,
    {
        row.push(false);
        proof {
            assert(v@.take(j + 1).len() == j + 1);
            assert(!cell(p@, v@, 0, j + 1));
        }
        j += 1;
    }
    let mut i: usize = 0;
    while i < p.len()
        invariant
            i <= p@.len(),
            row@.len() == v@.len() + 1,
            forall|k: int|
                0 <= k <= v@.len() ==> row@[k] == #[trigger] cell(p@, v@, i as int, k),
        decreases p@.len() - i,
    {
        row = next_row(p.as_slice(), v.as_slice(), i, &row);
        i += 1;
    }
    proof {
        assert(p@.take(i as int) =~= pattern@);
        assert(v@.take(v@.len() as int) =~= name@);
        assert(row@[v@.len() as int] == cell(p@, v@, i as int, v@.len() as int));
    }
    row[v.len()]
}

fn components_match(pattern: &Vec<String>, path: &Vec<String>, i: usize, j: usize) -> (r: bool)
    requires
        i <= pattern@.len(),
        j <= path@.len(),
    ensures
        r == names_match(
            text::texts(pattern@).skip(i as int),
            text::texts(path@).skip(j as int),
        ),
    decreases pattern@.len() - i + path@.len() - j,
{
    let ghost ps = text::texts(pattern@).skip(i as int);
    let ghost ns = text::texts(path@).skip(j as int);
    if i == pattern.len() {
        return j == path.len();
    }
    proof {
        assert(ps[0] == pattern@[i as int]@);
        assert(ps.drop_first() =~= text::texts(pattern@).skip(i + 1));
        if j < path@.len() {
            assert(ns[0] == path@[j as int]@);
            assert(ns.drop_first() =~= text::texts(path@).skip(j + 1));
        }
    }
    if text::same_text(pattern[i].as_str(), "**") {
        components_match(pattern, path, i + 1, j) || (j < path.len() && components_match(
            pattern,
            path,
            i,
            j + 1,
        ))
    } else {
        j < path.len() && segment_matches(pattern[i].as_str(), path[j].as_str())
            && components_match(pattern, path, i + 1, j + 1)
    }
}

/// Whether a pattern stands for a path.
pub fn glob_matches(pattern: &str, path: &str) -> (r: bool)
    ensures
        r == matches(pattern@, path@),
{
    let plain = slash(pattern);
    let p = split_names(plain.as_str());
    let n = split_names(path);
    proof {
        assert(text::texts(p@).skip(0) =~= text::texts(p@));
        assert(text::texts(n@).skip(0) =~= text::texts(n@));
    }
    components_match(&p, &n, 0, 0)
}

// ---------------------------------------------------------------------------
// Laws
// ---------------------------------------------------------------------------

/// Two stars stand for any number of names, none included.
pub proof fn law_two_stars_stand_for_any_names(rest: Seq<Seq<char>>, path: Seq<Seq<char>>)
    ensures
        names_match(seq!["**"@] + rest, path) <==> exists|k: int|
            0 <= k <= path.len() && #[trigger] names_match(rest, path.skip(k)),
    decreases path.len(),
{
    let pattern = seq!["**"@] + rest;
    assert(pattern[0] == "**"@);
    assert(pattern.drop_first() =~= rest);
    assert(path.skip(0) =~= path);
    if path.len() > 0 {
        let tail = path.drop_first();
        law_two_stars_stand_for_any_names(rest, tail);
        if exists|k: int| 0 <= k <= tail.len() && #[trigger] names_match(rest, tail.skip(k)) {
            let k = choose|k: int| 0 <= k <= tail.len() && #[trigger] names_match(rest, tail.skip(k));
            assert(tail.skip(k) =~= path.skip(k + 1));
            assert(names_match(rest, path.skip(k + 1)));
        }
        if exists|k: int| 0 <= k <= path.len() && #[trigger] names_match(rest, path.skip(k)) {
            let k = choose|k: int| 0 <= k <= path.len() && #[trigger] names_match(rest, path.skip(k));
            if k > 0 {
                assert(tail.skip(k - 1) =~= path.skip(k));
                assert(names_match(rest, tail.skip(k - 1)));
            }
        }
    } else {
        if exists|k: int| 0 <= k <= path.len() && #[trigger] names_match(rest, path.skip(k)) {
            assert(names_match(rest, path));
        }
        if names_match(rest, path) {
            assert(names_match(rest, path.skip(0)));
        }
    }
    if names_match(rest, path) {
        assert(names_match(rest, path.skip(0)));
    }
}

/// A name stands for itself.
pub proof fn law_names_stand_for_themselves(name: Seq<char>)
    ensures
        segment(name, name),
    decreases name.len(),
{
    if name.len() > 0 {
        law_names_stand_for_themselves(name.drop_last());
        if name.last() == '*' {
            assert(segment(name, name.drop_last()));
        }
    }
}

/// A path stands for itself.
pub proof fn law_paths_stand_for_themselves(path: Seq<Seq<char>>)
    ensures
        names_match(path, path),
    decreases path.len(),
{
    if path.len() > 0 {
        law_paths_stand_for_themselves(path.drop_first());
        law_names_stand_for_themselves(path[0]);
        if path[0] == "**"@ {
            let tail = path.drop_first();
            lemma_two_stars_take_one(path, tail);
        }
    }
}

proof fn lemma_two_stars_take_one(pattern: Seq<Seq<char>>, tail: Seq<Seq<char>>)
    requires
        pattern.len() > 0,
        pattern[0] == "**"@,
        names_match(pattern.drop_first(), tail),
    ensures
        names_match(pattern, tail),
{
}

/// A star stands for any characters, a question mark for any one, and every other
/// character for itself.
pub proof fn law_signs_stand_for_characters(
    pattern: Seq<char>,
    sign: char,
    name: Seq<char>,
    c: char,
)
    ensures
        segment(pattern.push('?'), name.push(c)) <==> segment(pattern, name),
        sign != '*' && sign != '?' ==> (segment(pattern.push(sign), name.push(c)) <==> sign == c
            && segment(pattern, name)),
        sign != '*' ==> !segment(pattern.push(sign), Seq::empty()),
        segment(seq!['*'], name),
        segment(Seq::empty(), name) <==> name.len() == 0,
        segment(pattern.push('*'), name) <==> exists|k: int|
            0 <= k <= name.len() && #[trigger] segment(pattern, name.take(k)),
{
    assert(pattern.push('?').drop_last() =~= pattern);
    assert(pattern.push(sign).drop_last() =~= pattern);
    assert(name.push(c).drop_last() =~= name);
    lemma_only_star(name);
    lemma_star(pattern, name);
}

proof fn lemma_only_star(name: Seq<char>)
    ensures
        segment(seq!['*'], name),
    decreases name.len(),
{
    assert(seq!['*'].drop_last() =~= Seq::empty());
    assert(seq!['*'].last() == '*');
    if name.len() == 0 {
        assert(segment(Seq::<char>::empty(), name));
    } else {
        lemma_only_star(name.drop_last());
    }
}

proof fn lemma_star(pattern: Seq<char>, name: Seq<char>)
    ensures
        segment(pattern.push('*'), name) <==> exists|k: int|
            0 <= k <= name.len() && #[trigger] segment(pattern, name.take(k)),
    decreases name.len(),
{
    let starred = pattern.push('*');
    let n = name.len() as int;
    assert(starred.drop_last() =~= pattern);
    assert(starred.last() == '*');
    assert(name.take(n) =~= name);
    if n > 0 {
        lemma_star(pattern, name.drop_last());
    }
    if segment(starred, name) {
        if segment(pattern, name) {
            assert(segment(pattern, name.take(n)));
        } else {
            let front = name.drop_last();
            let k = choose|k: int|
                0 <= k <= front.len() && #[trigger] segment(pattern, front.take(k));
            assert(front.take(k) =~= name.take(k));
            assert(segment(pattern, name.take(k)));
        }
    }
    if exists|k: int| 0 <= k <= name.len() && #[trigger] segment(pattern, name.take(k)) {
        let k = choose|k: int| 0 <= k <= name.len() && #[trigger] segment(pattern, name.take(k));
        if k < n {
            let front = name.drop_last();
            assert(front.take(k) =~= name.take(k));
            assert(segment(pattern, front.take(k)));
        }
    }
}

/// A path is matched name by name; steps to where one is and empty steps say nothing.
pub proof fn law_paths_are_matched_by_names(path: Seq<char>, step: Seq<char>)
    requires
        !step.contains('/'),
    ensures
        step.len() == 0 || step == "."@ ==> names(path + seq!['/'] + step) == names(path),
        step.len() > 0 && step != "."@ ==> names(path + seq!['/'] + step) == names(path).push(step),
        step.len() > 0 && step != "."@ ==> names(step) == seq![step],
{
    let pieces = text::split(path, '/');
    text::lemma_split_concat(path, step, '/');
    text::law_texts_are_cut_at_separators(step, '/', step);
    assert(pieces + seq![step] =~= pieces.push(step));
    assert(pieces.push(step).drop_last() =~= pieces);
    assert(seq![step].drop_last() =~= Seq::empty());
    reveal_with_fuel(solid, 2);
    if step.len() > 0 && step != "."@ {
        assert(solid(seq![step]) =~= seq![step]);
    }
}

} // verus!
