//! Finding the path that was probably meant: which paths come into question, how
//! far two names are apart, and which of the candidates is best.
use crate::paths;
use crate::plugins::tool_find_file::{Entry, EntryKind};
use crate::text;
use vstd::prelude::*;

verus! {

/// What kind of path is looked for.
#[derive(Clone, Copy, Debug, PartialEq, Eq, Structural)]
pub enum PathCorrectionKind {
    Any,
    File,
    Directory,
}

/// Whether an entry is of a kind.
pub open spec fn is_of_kind(kind: PathCorrectionKind, entry: EntryKind) -> bool {
    match kind {
        PathCorrectionKind::Any => true,
        PathCorrectionKind::File => entry == EntryKind::File,
        PathCorrectionKind::Directory => entry == EntryKind::Directory,
    }
}

impl PathCorrectionKind {
    /// Whether an entry is of this kind.
    pub fn accepts(self, entry: EntryKind) -> (r: bool)
        ensures
            r == is_of_kind(self, entry),
    {
        match self {
            PathCorrectionKind::Any => true,
            PathCorrectionKind::File => entry == EntryKind::File,
            PathCorrectionKind::Directory => entry == EntryKind::Directory,
        }
    }
}

/// A path with one character in place of slashes and backslashes.
pub open spec fn separated(path: Seq<char>, separator: char) -> Seq<char> {
    path.map_values(
        |c: char|
            if c == '/' || c == '\\' {
                separator
            } else {
                c
            },
    )
}

/// Puts one character in place of slashes and backslashes.
pub fn normalize_separators(path: &str, separator: char) -> (r: String)
    ensures
        r@ == separated(path@, separator),
        r@.len() == path@.len(),
{
    let cs = text::to_chars(path);
    let mut out = String::new();
    let mut i: usize = 0;
    proof {
        assert(out@ =~= separated(path@.take(0), separator));
    }
    while i < cs.len()
        invariant
            i <= cs@.len(),
            cs@ == path@,
            out@ == separated(path@.take(i as int), separator),
        decreases cs@.len() - i,
    {
        let c = cs[i];
        if c == '/' || c == '\\' {
            out.push(separator);
        } else {
            out.push(c);
        }
        proof {
            assert(out@ =~= separated(path@.take(i + 1), separator));
        }
        i += 1;
    }
    proof {
        assert(path@.take(i as int) =~= path@);
    }
    out
}

/// The names of a path.
pub fn path_components(path: &str) -> (r: Vec<String>)
    ensures
        text::texts(r@) == paths::names_of(paths::parts(path@)),
{
    let list = paths::components(path);
    let mut names = text::no_texts();
    let mut i: usize = 0;
    proof {
        assert(paths::parts(path@).take(0) =~= Seq::empty());
    }
    while i < list.len()
        invariant
            i <= list@.len(),
            paths::part_views(list@) == paths::parts(path@),
            text::texts(names@) == paths::names_of(paths::parts(path@).take(i as int)),
        decreases list@.len() - i,
    {
        proof {
            let all = paths::parts(path@);
            assert(all.take(i + 1).drop_last() =~= all.take(i as int));
            assert(all.take(i + 1).last() == list@[i as int]@);
        }
        if let paths::Part::Name(n) = &list[i] {
            text::push_text(&mut names, n.as_str());
        }
        i += 1;
    }
    proof {
        assert(paths::parts(path@).take(i as int) =~= paths::parts(path@));
    }
    names
}

// ---------------------------------------------------------------------------
// Distance
// ---------------------------------------------------------------------------

pub open spec fn least(a: nat, b: nat) -> nat {
    if a <= b {
        a
    } else {
        b
    }
}

/// How many characters have to be inserted, removed or replaced to make one text of
/// another.
pub open spec fn distance(a: Seq<char>, b: Seq<char>) -> nat
    decreases a.len() + b.len(),
{
    if a.len() == 0 {
        b.len()
    } else if b.len() == 0 {
        a.len()
    } else if a.last() == b.last() {
        distance(a.drop_last(), b.drop_last())
    } else {
        1 + least(
            least(distance(a.drop_last(), b.drop_last()), distance(a.drop_last(), b)),
            distance(a, b.drop_last()),
        )
    }
}

spec fn cell(a: Seq<char>, b: Seq<char>, i: int, j: int) -> nat {
    distance(a.take(i), b.take(j))
}

proof fn lemma_distance_bound(a: Seq<char>, b: Seq<char>)
    ensures
        distance(a, b) <= a.len() + b.len(),
    decreases a.len() + b.len(),
{
    if a.len() > 0 && b.len() > 0 {
        lemma_distance_bound(a.drop_last(), b.drop_last());
    }
}

fn next_row(a: &[char], b: &[char], i: usize, row: &Vec<u128>) -> (next: Vec<u128>)
    requires
        i < a@.len(),
        a@.len() <= usize::MAX,
        b@.len() <= usize::MAX,
        row@.len() == b@.len() + 1,
        forall|j: int| 0 <= j <= b@.len() ==> row@[j] == #[trigger] cell(a@, b@, i as int, j),
    ensures
        next@.len() == b@.len() + 1,
        forall|j: int| 0 <= j <= b@.len() ==> next@[j] == #[trigger] cell(a@, b@, i + 1, j),
{
    let c = a[i];
    let mut next: Vec<u128> = Vec::new();
    next.push(i as u128 + 1);
    proof {
        assert(a@.take(i + 1).len() == i + 1);
        assert(b@.take(0) =~= Seq::empty());
        assert(next@[0] == cell(a@, b@, i + 1, 0));
    }
    let mut j: usize = 0;
    while j < b.len()
        invariant
            j <= b@.len(),
            i < a@.len(),
            a@.len() <= usize::MAX,
            b@.len() <= usize::MAX,
            c == a@[i as int],
            row@.len() == b@.len() + 1,
            next@.len() == j + 1,
            forall|k: int| 0 <= k <= b@.len() ==> row@[k] == #[trigger] cell(a@, b@, i as int, k),
            forall|k: int| 0 <= k <= j ==> next@[k] == #[trigger] cell(a@, b@, i + 1, k),
        decreases b@.len() - j,
    {
        proof {
            let x = a@.take(i + 1);
            let y = b@.take(j + 1);
            assert(x.last() == c);
            assert(y.last() == b@[j as int]);
            assert(x.drop_last() =~= a@.take(i as int));
            assert(y.drop_last() =~= b@.take(j as int));
            assert(row@[j as int] == cell(a@, b@, i as int, j as int));
            assert(row@[j + 1] == cell(a@, b@, i as int, j + 1));
            assert(next@[j as int] == cell(a@, b@, i + 1, j as int));
            lemma_distance_bound(a@.take(i as int), b@.take(j as int));
            lemma_distance_bound(a@.take(i as int), b@.take(j + 1));
            lemma_distance_bound(a@.take(i + 1), b@.take(j as int));
        }
        let value: u128 = if c == b[j] {
            row[j]
        } else {
            let mut low: u128 = row[j];
            if row[j + 1] < low {
                low = row[j + 1];
            }
            if next[j] < low {
                low = next[j];
            }
            low + 1
        };
        next.push(value);
        proof {
            assert(value == cell(a@, b@, i + 1, j + 1));
        }
        j += 1;
    }
    next
}

/// How far two texts are apart.
pub fn levenshtein(left: &[char], right: &[char]) -> (r: u128)
    ensures
        r == distance(left@, right@),
{
    let n: usize = left.len();
    let m: usize = right.len();
    let mut row: Vec<u128> = Vec::new();
    row.push(0);
    proof {
        assert(left@.take(0) =~= Seq::empty());
        assert(right@.take(0) =~= Seq::empty());
        assert(row@[0] == cell(left@, right@, 0, 0));
    }
    let mut j: usize = 0;
    while j < m
        invariant
            j <= m,
            m == right@.len(),
            row@.len() == j + 1,
            left@.take(0) == Seq::<char>::empty(),
            forall|k: int| 0 <= k <= j ==> row@[k] == #[trigger] cell(left@, right@, 0, k),
        decreases m - j,
    {
        row.push(j as u128 + 1);
        proof {
            assert(right@.take(j + 1).len() == j + 1);
            assert(row@[j + 1] == cell(left@, right@, 0, j + 1));
        }
        j += 1;
    }
    let mut i: usize = 0;
    while i < n
        invariant
            i <= n,
            n == left@.len(),
            m == right@.len(),
            row@.len() == m + 1,
            forall|k: int|
                0 <= k <= right@.len() ==> row@[k] == #[trigger] cell(left@, right@, i as int, k),
        decreases n - i,
    {
        row = next_row(left, right, i, &row);
        i += 1;
    }
    proof {
        assert(left@.take(n as int) =~= left@);
        assert(right@.take(m as int) =~= right@);
        assert(row@[m as int] == cell(left@, right@, i as int, m as int));
    }
    row[m]
}

/// Two texts are no distance apart where they are the same, and only there; the
/// distance is never more than the length of the longer one.
pub proof fn law_distance_tells_texts_apart(a: Seq<char>, b: Seq<char>)
    ensures
        distance(a, b) == 0 <==> a == b,
        distance(a, b) <= (if a.len() >= b.len() {
            a.len()
        } else {
            b.len()
        }),
    decreases a.len() + b.len(),
{
    if a.len() == 0 {
        if b.len() == 0 {
            assert(a =~= b);
        }
    } else if b.len() > 0 {
        law_distance_tells_texts_apart(a.drop_last(), b.drop_last());
        if a.last() == b.last() {
            if a.drop_last() == b.drop_last() {
                assert(a =~= a.drop_last().push(a.last()));
                assert(b =~= b.drop_last().push(b.last()));
            }
        }
    }
}

// ---------------------------------------------------------------------------
// Candidates
// ---------------------------------------------------------------------------

/// A search for candidates on its way.
pub struct CandidateWalk {
    /// What is still to be listed; the last one is next.
    pub directories: Vec<String>,
    /// What has been listed.
    pub visited: Vec<String>,
    pub candidates: Vec<String>,
}

/// Whether a path is among others.
pub open spec fn has_path(list: Seq<Seq<char>>, path: Seq<char>) -> bool {
    exists|i: int| 0 <= i < list.len() && paths::is_same(#[trigger] list[i], path)
}

fn holds_path(list: &Vec<String>, path: &str) -> (r: bool)
    ensures
        r == has_path(text::texts(list@), path@),
{
    let mut i: usize = 0;
    while i < list.len()
        invariant
            i <= list@.len(),
            forall|k: int|
                0 <= k < i ==> !paths::is_same(#[trigger] text::texts(list@)[k], path@),
        decreases list@.len() - i,
    {
        if paths::same_path(list[i].as_str(), path) {
            assert(paths::is_same(text::texts(list@)[i as int], path@));
            return true;
        }
        i += 1;
    }
    false
}

/// The directories and candidates after entries.
pub open spec fn after_entries(
    kind: PathCorrectionKind,
    directories: Seq<Seq<char>>,
    candidates: Seq<Seq<char>>,
    entries: Seq<Entry>,
) -> (Seq<Seq<char>>, Seq<Seq<char>>)
    decreases entries.len(),
{
    if entries.len() == 0 {
        (directories, candidates)
    } else {
        let before = after_entries(kind, directories, candidates, entries.drop_last());
        let e = entries.last();
        (
            if e.kind == EntryKind::Directory {
                before.0.push(e.path@)
            } else {
                before.0
            },
            if is_of_kind(kind, e.kind) {
                before.1.push(e.path@)
            } else {
                before.1
            },
        )
    }
}

impl CandidateWalk {
    /// Starts at the root.
    pub fn new(kind: PathCorrectionKind) -> (r: Self)
        ensures
            text::texts(r.directories@) == seq!["."@],
            r.visited@.len() == 0,
            text::texts(r.candidates@) == (if is_of_kind(kind, EntryKind::Directory) {
                seq!["."@]
            } else {
                Seq::<Seq<char>>::empty()
            }),
    {
        let mut directories = text::no_texts();
        text::push_text(&mut directories, ".");
        let mut candidates = text::no_texts();
        if kind.accepts(EntryKind::Directory) {
            text::push_text(&mut candidates, ".");
        }
        proof {
            assert(text::texts(directories@) =~= seq!["."@]);
            if is_of_kind(kind, EntryKind::Directory) {
                assert(text::texts(candidates@) =~= seq!["."@]);
            }
        }
        CandidateWalk { directories, visited: Vec::new(), candidates }
    }

    /// The directory that is to be listed next: the last one that was found and has
    /// not been listed. No directory is listed twice.
    pub fn next(&mut self) -> (r: Option<String>)
        ensures
            final(self).candidates == old(self).candidates,
            match r {
                None => {
                    &&& final(self).directories@.len() == 0
                    &&& final(self).visited@ == old(self).visited@
                    &&& forall|i: int|
                        0 <= i < old(self).directories@.len() ==> has_path(
                            text::texts(old(self).visited@),
                            (#[trigger] old(self).directories@[i])@,
                        )
                },
                Some(d) => {
                    let n = final(self).directories@.len() as int;
                    &&& n < old(self).directories@.len()
                    &&& final(self).directories@ == old(self).directories@.take(n)
                    &&& d@ == old(self).directories@[n]@
                    &&& !has_path(text::texts(old(self).visited@), d@)
                    &&& text::texts(final(self).visited@) == text::texts(old(self).visited@).push(
                        d@,
                    )
                    &&& forall|i: int|
                        n < i < old(self).directories@.len() ==> has_path(
                            text::texts(old(self).visited@),
                            (#[trigger] old(self).directories@[i])@,
                        )
                },
            },
    {
        let ghost all = self.directories@;
        proof {
            assert(all.take(all.len() as int) =~= all);
        }
        while self.directories.len() > 0
            invariant
                all == old(self).directories@,
                self.visited == old(self).visited,
                self.candidates == old(self).candidates,
                self.directories@.len() <= all.len(),
                self.directories@ == all.take(self.directories@.len() as int),
                forall|i: int|
                    self.directories@.len() <= i < all.len() ==> has_path(
                        text::texts(old(self).visited@),
                        (#[trigger] all[i])@,
                    ),
            decreases self.directories@.len(),
        {
            let last: usize = self.directories.len() - 1;
            if let Some(directory) = self.directories.pop() {
                proof {
                    assert(directory == all[last as int]);
                    assert(self.directories@ =~= all.take(last as int));
                }
                if !holds_path(&self.visited, directory.as_str()) {
                    text::push_text(&mut self.visited, directory.as_str());
                    return Some(directory);
                }
            }
        }
        None
    }

    /// Takes in the entries of a directory.
    pub fn listed(&mut self, kind: PathCorrectionKind, entries: &[Entry])
        ensures
            final(self).visited == old(self).visited,
            (text::texts(final(self).directories@), text::texts(final(self).candidates@))
                == after_entries(
                kind,
                text::texts(old(self).directories@),
                text::texts(old(self).candidates@),
                entries@,
            ),
    {
        let ghost d = text::texts(self.directories@);
        let ghost c = text::texts(self.candidates@);
        let mut i: usize = 0;
        proof {
            assert(entries@.take(0) =~= Seq::empty());
        }
        while i < entries.len()
            invariant
                i <= entries@.len(),
                self.visited == old(self).visited,
                (text::texts(self.directories@), text::texts(self.candidates@)) == after_entries(
                    kind,
                    d,
                    c,
                    entries@.take(i as int),
                ),
            decreases entries@.len() - i,
        {
            let entry = &entries[i];
            proof {
                assert(entries@.take(i + 1).drop_last() =~= entries@.take(i as int));
                assert(entries@.take(i + 1).last() == *entry);
            }
            if kind.accepts(entry.kind) {
                text::push_text(&mut self.candidates, entry.path.as_str());
            }
            if entry.kind == EntryKind::Directory {
                text::push_text(&mut self.directories, entry.path.as_str());
            }
            i += 1;
        }
        proof {
            assert(entries@.take(i as int) =~= entries@);
        }
    }
}

// ---------------------------------------------------------------------------
// The best candidate
// ---------------------------------------------------------------------------

/// A candidate and how well it fits.
#[derive(Clone, Debug, PartialEq, Eq)]
pub struct Scored {
    pub path: String,
    pub score: u64,
}

/// Whether one candidate is better than another: it fits better, or as well and its
/// path comes first.
pub open spec fn is_better(a: Scored, b: Scored) -> bool {
    a.score > b.score || (a.score == b.score && paths::parts_less(
        paths::parts(a.path@),
        paths::parts(b.path@),
    ))
}

/// The place of the best candidate that fits at least so well.
pub open spec fn best_of(list: Seq<Scored>, least_score: u64) -> Option<int>
    decreases list.len(),
{
    if list.len() == 0 {
        None
    } else {
        let i = list.len() - 1;
        match best_of(list.drop_last(), least_score) {
            None => if list.last().score < least_score {
                None
            } else {
                Some(i)
            },
            Some(k) => if list.last().score >= least_score && is_better(list.last(), list[k]) {
                Some(i)
            } else {
                Some(k)
            },
        }
    }
}

/// Chooses the best candidate that fits at least so well.
pub fn best_candidate(list: &[Scored], least_score: u64) -> (r: Option<usize>)
    ensures
        match r {
            Some(k) => best_of(list@, least_score) == Some(k as int) && k < list@.len(),
            None => best_of(list@, least_score) is None,
        },
{
    let mut best: Option<usize> = None;
    let mut i: usize = 0;
    proof {
        assert(list@.take(0) =~= Seq::empty());
    }
    while i < list.len()
        invariant
            i <= list@.len(),
            match best {
                Some(k) => best_of(list@.take(i as int), least_score) == Some(k as int) && k < i,
                None => best_of(list@.take(i as int), least_score) is None,
            },
        decreases list@.len() - i,
    {
        proof {
            assert(list@.take(i + 1).drop_last() =~= list@.take(i as int));
            assert(list@.take(i + 1).last() == list@[i as int]);
        }
        let fits = list[i].score >= least_score;
        let better = match best {
            None => true,
            Some(k) => {
                proof {
                    assert(list@.take(i + 1)[k as int] == list@[k as int]);
                }
                list[i].score > list[k].score || (list[i].score == list[k].score
                    && paths::less_path(list[i].path.as_str(), list[k].path.as_str()))
            },
        };
        if fits && better {
            best = Some(i);
        }
        i += 1;
    }
    proof {
        assert(list@.take(i as int) =~= list@);
    }
    best
}

/// What is chosen fits well enough, and no candidate is better.
pub proof fn law_no_candidate_is_better(list: Seq<Scored>, least_score: u64, j: int)
    requires
        0 <= j < list.len(),
    ensures
        match best_of(list, least_score) {
            None => list[j].score < least_score,
            Some(k) => {
                &&& 0 <= k < list.len()
                &&& list[k].score >= least_score
                &&& list[j].score >= least_score ==> !is_better(list[j], list[k])
            },
        },
    decreases list.len(),
{
    let front = list.drop_last();
    let last = list.last();
    paths::lemma_parts_less(paths::parts(list[j].path@), paths::parts(last.path@));
    if front.len() > 0 {
        if j < front.len() {
            law_no_candidate_is_better(front, least_score, j);
            assert(front[j] == list[j]);
        } else {
            law_no_candidate_is_better(front, least_score, 0);
        }
        if let Some(k) = best_of(front, least_score) {
            assert(front[k] == list[k]);
            paths::lemma_parts_less(paths::parts(list[k].path@), paths::parts(last.path@));
            if is_better(last, list[k]) && is_better(list[j], last) {
                if list[j].score == last.score && last.score == list[k].score {
                    paths::lemma_parts_less_trans(
                        paths::parts(list[j].path@),
                        paths::parts(last.path@),
                        paths::parts(list[k].path@),
                    );
                }
            }
        }
    }
}

/// Texts that end alike are as far apart as what stands before; one character more or
/// less, or another one, is one step. It does not matter which text is compared to which.
pub proof fn law_distance_counts_steps(a: Seq<char>, b: Seq<char>, c: char, d: char)
    ensures
        distance(a.push(c), b.push(c)) == distance(a, b),
        c != d ==> distance(a.push(c), b.push(d)) <= distance(a, b) + 1,
        distance(a, b) == distance(b, a),
        distance(Seq::empty(), b) == b.len(),
        b.len() > 0 && b.last() != c ==> distance(a.push(c), b) <= distance(a, b) + 1,
    decreases a.len() + b.len(),
{
    assert(a.push(c).drop_last() =~= a);
    assert(b.push(c).drop_last() =~= b);
    assert(b.push(d).drop_last() =~= b);
    if a.len() > 0 && b.len() > 0 {
        law_distance_counts_steps(a.drop_last(), b.drop_last(), c, d);
        law_distance_counts_steps(a.drop_last(), b, c, d);
        law_distance_counts_steps(a, b.drop_last(), c, d);
    }
}

/// Every directory is looked through and every entry of the kind is a candidate, in the
/// order in which they are met.
pub proof fn law_candidates_are_of_the_kind(
    kind: PathCorrectionKind,
    directories: Seq<Seq<char>>,
    candidates: Seq<Seq<char>>,
    a: Seq<Entry>,
    b: Seq<Entry>,
    entry: Entry,
)
    ensures
        after_entries(kind, directories, candidates, a + b) == after_entries(
            kind,
            after_entries(kind, directories, candidates, a).0,
            after_entries(kind, directories, candidates, a).1,
            b,
        ),
        entry.kind == EntryKind::Directory ==> after_entries(
            kind,
            directories,
            candidates,
            seq![entry],
        ).0 == directories.push(entry.path@),
        entry.kind != EntryKind::Directory ==> after_entries(
            kind,
            directories,
            candidates,
            seq![entry],
        ).0 == directories,
        kind == PathCorrectionKind::Any || (kind == PathCorrectionKind::File && entry.kind
            == EntryKind::File) || (kind == PathCorrectionKind::Directory && entry.kind
            == EntryKind::Directory) ==> after_entries(
            kind,
            directories,
            candidates,
            seq![entry],
        ).1 == candidates.push(entry.path@),
        kind == PathCorrectionKind::File && entry.kind != EntryKind::File ==> after_entries(
            kind,
            directories,
            candidates,
            seq![entry],
        ).1 == candidates,
        kind == PathCorrectionKind::Directory && entry.kind != EntryKind::Directory
            ==> after_entries(kind, directories, candidates, seq![entry]).1 == candidates,
    decreases b.len(),
{
    reveal_with_fuel(after_entries, 2);
    assert(seq![entry].drop_last() =~= Seq::empty());
    if b.len() == 0 {
        assert(a + b =~= a);
    } else {
        law_candidates_are_of_the_kind(
            kind,
            directories,
            candidates,
            a,
            b.drop_last(),
            entry,
        );
        assert((a + b).drop_last() =~= a + b.drop_last());
        assert((a + b).last() == b.last());
    }
}

/// A candidate that scores higher is better; of two that score alike the one that comes
/// first in the order of paths is.
pub proof fn law_higher_scores_are_better(a: Scored, b: Scored)
    ensures
        a.score > b.score ==> is_better(a, b) && !is_better(b, a),
        a.score == b.score ==> (is_better(a, b) <==> paths::parts_less(
            paths::parts(a.path@),
            paths::parts(b.path@),
        )),
{
}

} // verus!
