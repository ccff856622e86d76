//! A text with a cursor in it, which stands between two characters.
use crate::text;
use crate::ui::columns;
use vstd::prelude::*;
use vstd::string::StrSliceExecFns;

verus! {

/// Whether so many bytes of a text are whole characters.
pub open spec fn on_boundary(s: Seq<char>, bytes: int) -> bool {
    exists|k: int| 0 <= k <= s.len() && #[trigger] text::utf8_len(s.take(k)) == bytes
}

/// How many characters so many bytes of a text are.
pub open spec fn position(s: Seq<char>, bytes: int) -> int {
    choose|k: int| 0 <= k <= s.len() && #[trigger] text::utf8_len(s.take(k)) == bytes
}

/// A text and how many of its characters stand before the cursor.
pub ghost struct Place {
    pub text: Seq<char>,
    pub at: int,
}

/// A text with a cursor that is given in bytes.
pub open spec fn place(s: Seq<char>, cursor: int) -> Place {
    Place { text: s, at: position(s, cursor) }
}

/// The bytes before a character tell its place.
pub proof fn lemma_position(s: Seq<char>, k: int)
    requires
        0 <= k <= s.len(),
    ensures
        on_boundary(s, text::utf8_len(s.take(k)) as int),
        position(s, text::utf8_len(s.take(k)) as int) == k,
{
    let n = text::utf8_len(s.take(k)) as int;
    let found = position(s, n);
    assert(0 <= found <= s.len() && text::utf8_len(s.take(found)) == n);
    if found < k {
        text::lemma_utf8_len_strict(s, found, k);
    } else if k < found {
        text::lemma_utf8_len_strict(s, k, found);
    }
}

/// How many characters stand before the cursor.
pub fn position_of(s: &str, cursor: usize) -> (k: usize)
    requires
        on_boundary(s@, cursor as int),
    ensures
        k == position(s@, cursor as int),
        k <= s@.len(),
{
    let cs = text::to_chars(s);
    let n: usize = cs.len();
    let ghost goal = position(s@, cursor as int);
    let mut bytes: usize = 0;
    let mut i: usize = 0;
    proof {
        assert(0 <= goal <= s@.len() && text::utf8_len(s@.take(goal)) == cursor);
        assert(s@.take(0) =~= Seq::empty());
    }
    while i < n && bytes < cursor
        invariant
            i <= n,
            n == cs@.len(),
            cs@ == s@,
            0 <= goal <= s@.len(),
            text::utf8_len(s@.take(goal)) == cursor,
            i <= goal,
            bytes == text::utf8_len(s@.take(i as int)),
        decreases n - i,
    {
        proof {
            if i == goal {
                assert(bytes == cursor);
            }
            assert(s@.take(i + 1).drop_last() =~= s@.take(i as int));
            assert(s@.take(i + 1) =~= s@.take(i as int).push(cs@[i as int]));
            text::lemma_utf8_len_push(s@.take(i as int), cs@[i as int]);
            if i + 1 < goal {
                text::lemma_utf8_len_strict(s@, i + 1, goal);
            }
        }
        bytes = bytes + text::width_of(cs[i]);
        i += 1;
    }
    proof {
        if i < goal {
            text::lemma_utf8_len_strict(s@, i as int, goal);
        }
    }
    i
}

/// Where the cursor stands behind so many characters.
pub fn cursor_at(s: &str, k: usize) -> (cursor: usize)
    requires
        k <= s@.len(),
    ensures
        cursor == text::utf8_len(s@.take(k as int)),
        on_boundary(s@, cursor as int),
        position(s@, cursor as int) == k,
{
    let head = s.substring_char(0, k);
    proof {
        assert(head@ =~= s@.take(k as int));
        lemma_position(s@, k as int);
    }
    text::byte_len(head)
}

// ---------------------------------------------------------------------------
// Editing
// ---------------------------------------------------------------------------

/// After typing a text.
pub open spec fn typed(p: Place, s: Seq<char>) -> Place {
    Place { text: p.text.take(p.at) + s + p.text.skip(p.at), at: p.at + s.len() }
}

/// After erasing the character before the cursor.
pub open spec fn erased_before(p: Place) -> Place {
    if p.at <= 0 {
        p
    } else {
        Place { text: p.text.take(p.at - 1) + p.text.skip(p.at), at: p.at - 1 }
    }
}

/// After erasing the character behind the cursor.
pub open spec fn erased_after(p: Place) -> Place {
    if p.at >= p.text.len() {
        p
    } else {
        Place { text: p.text.take(p.at) + p.text.skip(p.at + 1), at: p.at }
    }
}

/// Types a text.
pub fn type_text(s: &str, cursor: usize, more: &str) -> (r: (String, usize))
    requires
        on_boundary(s@, cursor as int),
    ensures
        on_boundary(r.0@, r.1 as int),
        place(r.0@, r.1 as int) == typed(place(s@, cursor as int), more@),
{
    let k: usize = position_of(s, cursor);
    let n: usize = s.unicode_len();
    let head = text::cat2(s.substring_char(0, k), more);
    let whole = text::cat2(head.as_str(), s.substring_char(k, n));
    proof {
        assert(s@.subrange(0, k as int) =~= s@.take(k as int));
        assert(s@.subrange(k as int, n as int) =~= s@.skip(k as int));
        let at = k + more@.len();
        assert(whole@ =~= typed(place(s@, cursor as int), more@).text);
        assert(whole@.take(at) =~= head@);
        lemma_position(whole@, at);
    }
    (whole, text::byte_len(head.as_str()))
}

/// Erases the character before the cursor.
pub fn erase_before(s: &str, cursor: usize) -> (r: (String, usize))
    requires
        on_boundary(s@, cursor as int),
    ensures
        on_boundary(r.0@, r.1 as int),
        place(r.0@, r.1 as int) == erased_before(place(s@, cursor as int)),
{
    let k: usize = position_of(s, cursor);
    if k == 0 {
        return (text::owned(s), cursor);
    }
    let n: usize = s.unicode_len();
    let head = s.substring_char(0, k - 1);
    let whole = text::cat2(head, s.substring_char(k, n));
    proof {
        assert(s@.subrange(0, k - 1) =~= s@.take(k - 1));
        assert(s@.subrange(k as int, n as int) =~= s@.skip(k as int));
        assert(whole@ =~= erased_before(place(s@, cursor as int)).text);
        assert(whole@.take(k - 1) =~= head@);
        lemma_position(whole@, k - 1);
    }
    (whole, text::byte_len(head))
}

/// Erases the character behind the cursor.
pub fn erase_after(s: &str, cursor: usize) -> (r: String)
    requires
        on_boundary(s@, cursor as int),
    ensures
        on_boundary(r@, cursor as int),
        place(r@, cursor as int) == erased_after(place(s@, cursor as int)),
{
    let k: usize = position_of(s, cursor);
    let n: usize = s.unicode_len();
    if k == n {
        return text::owned(s);
    }
    let head = s.substring_char(0, k);
    let whole = text::cat2(head, s.substring_char(k + 1, n));
    proof {
        assert(s@.subrange(0, k as int) =~= s@.take(k as int));
        assert(s@.subrange(k + 1, n as int) =~= s@.skip(k + 1));
        assert(whole@ =~= erased_after(place(s@, cursor as int)).text);
        assert(whole@.take(k as int) =~= s@.take(k as int));
        lemma_position(whole@, k as int);
        assert(exists|j: int| 0 <= j <= s@.len() && text::utf8_len(s@.take(j)) == cursor);
    }
    whole
}

/// Erasing a character that was just typed gives back what there was.
pub proof fn law_erasing_undoes_typing(p: Place, c: char)
    requires
        0 <= p.at <= p.text.len(),
    ensures
        erased_before(typed(p, seq![c])) == p,
{
    let q = typed(p, seq![c]);
    let r = erased_before(q);
    assert(r.text =~= p.text.take(p.at) + p.text.skip(p.at));
    assert(p.text.take(p.at) + p.text.skip(p.at) =~= p.text);
}

// ---------------------------------------------------------------------------
// Moving
// ---------------------------------------------------------------------------

/// Where the line of a place begins.
pub open spec fn line_start(s: Seq<char>, at: int) -> int
    decreases at,
{
    if at <= 0 {
        0
    } else if s[at - 1] == '\n' {
        at
    } else {
        line_start(s, at - 1)
    }
}

/// Where the line of a place ends.
pub open spec fn line_end(s: Seq<char>, at: int) -> int
    decreases s.len() - at,
{
    if at < 0 || at >= s.len() {
        s.len() as int
    } else if s[at] == '\n' {
        at
    } else {
        line_end(s, at + 1)
    }
}

/// The place in a line that is so many characters from its beginning, or its end.
pub open spec fn along(start: int, end: int, column: int) -> int {
    if start + column <= end {
        start + column
    } else {
        end
    }
}

pub open spec fn moved_left(p: Place) -> int {
    if p.at > 0 {
        p.at - 1
    } else {
        p.at
    }
}

pub open spec fn moved_right(p: Place) -> int {
    if p.at < p.text.len() {
        p.at + 1
    } else {
        p.at
    }
}

pub open spec fn moved_up(p: Place) -> int {
    let start = line_start(p.text, p.at);
    if start == 0 {
        p.at
    } else {
        along(line_start(p.text, start - 1), start - 1, p.at - start)
    }
}

pub open spec fn moved_down(p: Place) -> int {
    let end = line_end(p.text, p.at);
    if end >= p.text.len() {
        p.at
    } else {
        along(end + 1, line_end(p.text, end + 1), p.at - line_start(p.text, p.at))
    }
}

proof fn lemma_line_start(s: Seq<char>, at: int)
    requires
        0 <= at <= s.len(),
    ensures
        0 <= line_start(s, at) <= at,
        line_start(s, at) > 0 ==> s[line_start(s, at) - 1] == '\n',
        forall|j: int| line_start(s, at) <= j < at ==> #[trigger] s[j] != '\n',
    decreases at,
{
    if at > 0 && s[at - 1] != '\n' {
        lemma_line_start(s, at - 1);
    }
}

proof fn lemma_line_end(s: Seq<char>, at: int)
    requires
        0 <= at <= s.len(),
    ensures
        at <= line_end(s, at) <= s.len(),
        line_end(s, at) < s.len() ==> s[line_end(s, at)] == '\n',
        forall|j: int| at <= j < line_end(s, at) ==> #[trigger] s[j] != '\n',
    decreases s.len() - at,
{
    if at < s.len() && s[at] != '\n' {
        lemma_line_end(s, at + 1);
    }
}

fn find_line_start(cs: &[char], at: usize) -> (r: usize)
    requires
        at <= cs@.len(),
    ensures
        r == line_start(cs@, at as int),
        r <= at,
{
    let mut i: usize = at;
    while i > 0 && cs[i - 1] != '\n'
        invariant
            i <= at <= cs@.len(),
            line_start(cs@, at as int) == line_start(cs@, i as int),
        decreases i,
    {
        i -= 1;
    }
    i
}

fn find_line_end(cs: &[char], at: usize) -> (r: usize)
    requires
        at <= cs@.len(),
    ensures
        r == line_end(cs@, at as int),
        at <= r <= cs@.len(),
{
    let mut i: usize = at;
    while i < cs.len() && cs[i] != '\n'
        invariant
            at <= i <= cs@.len(),
            line_end(cs@, at as int) == line_end(cs@, i as int),
        decreases cs@.len() - i,
    {
        i += 1;
    }
    i
}

fn step_along(start: usize, end: usize, column: usize) -> (r: usize)
    requires
        start <= end,
    ensures
        r == along(start as int, end as int, column as int),
{
    if column <= end - start {
        start + column
    } else {
        end
    }
}

/// The cursor one character to the left.
pub fn left(s: &str, cursor: usize) -> (r: usize)
    requires
        on_boundary(s@, cursor as int),
    ensures
        on_boundary(s@, r as int),
        position(s@, r as int) == moved_left(place(s@, cursor as int)),
{
    let k: usize = position_of(s, cursor);
    if k == 0 {
        return cursor;
    }
    cursor_at(s, k - 1)
}

/// The cursor one character to the right.
pub fn right(s: &str, cursor: usize) -> (r: usize)
    requires
        on_boundary(s@, cursor as int),
    ensures
        on_boundary(s@, r as int),
        position(s@, r as int) == moved_right(place(s@, cursor as int)),
{
    let k: usize = position_of(s, cursor);
    if k == s.unicode_len() {
        return cursor;
    }
    cursor_at(s, k + 1)
}

/// The cursor at the beginning of its line.
pub fn home(s: &str, cursor: usize) -> (r: usize)
    requires
        on_boundary(s@, cursor as int),
    ensures
        on_boundary(s@, r as int),
        position(s@, r as int) == line_start(s@, position(s@, cursor as int)),
{
    let k: usize = position_of(s, cursor);
    let cs = text::to_chars(s);
    cursor_at(s, find_line_start(cs.as_slice(), k))
}

/// The cursor at the end of its line.
pub fn end(s: &str, cursor: usize) -> (r: usize)
    requires
        on_boundary(s@, cursor as int),
    ensures
        on_boundary(s@, r as int),
        position(s@, r as int) == line_end(s@, position(s@, cursor as int)),
{
    let k: usize = position_of(s, cursor);
    let cs = text::to_chars(s);
    cursor_at(s, find_line_end(cs.as_slice(), k))
}

/// The cursor one line up, as far from the beginning of the line.
pub fn up(s: &str, cursor: usize) -> (r: usize)
    requires
        on_boundary(s@, cursor as int),
    ensures
        on_boundary(s@, r as int),
        position(s@, r as int) == moved_up(place(s@, cursor as int)),
{
    let k: usize = position_of(s, cursor);
    let cs = text::to_chars(s);
    let start: usize = find_line_start(cs.as_slice(), k);
    if start == 0 {
        return cursor;
    }
    let previous: usize = find_line_start(cs.as_slice(), start - 1);
    cursor_at(s, step_along(previous, start - 1, k - start))
}

/// The cursor one line down, as far from the beginning of the line.
pub fn down(s: &str, cursor: usize) -> (r: usize)
    requires
        on_boundary(s@, cursor as int),
    ensures
        on_boundary(s@, r as int),
        position(s@, r as int) == moved_down(place(s@, cursor as int)),
{
    let k: usize = position_of(s, cursor);
    let cs = text::to_chars(s);
    let start: usize = find_line_start(cs.as_slice(), k);
    let finish: usize = find_line_end(cs.as_slice(), k);
    if finish == cs.len() {
        return cursor;
    }
    let next: usize = find_line_end(cs.as_slice(), finish + 1);
    cursor_at(s, step_along(finish + 1, next, k - start))
}

/// Moving keeps the cursor in the text, and moving up or down never leaves a line
/// beyond its ends.
pub proof fn law_moves_stay_in_the_text(p: Place)
    requires
        0 <= p.at <= p.text.len(),
    ensures
        0 <= moved_left(p) <= p.text.len(),
        0 <= moved_right(p) <= p.text.len(),
        0 <= line_start(p.text, p.at) <= p.at,
        p.at <= line_end(p.text, p.at) <= p.text.len(),
        0 <= moved_up(p) <= p.text.len(),
        0 <= moved_down(p) <= p.text.len(),
        line_start(p.text, p.at) > 0 ==> moved_up(p) < line_start(p.text, p.at),
        line_end(p.text, p.at) < p.text.len() ==> moved_down(p) > line_end(p.text, p.at),
{
    lemma_line_start(p.text, p.at);
    lemma_line_end(p.text, p.at);
    let start = line_start(p.text, p.at);
    if start > 0 {
        lemma_line_start(p.text, start - 1);
    }
    let finish = line_end(p.text, p.at);
    if finish < p.text.len() {
        lemma_line_end(p.text, finish + 1);
    }
}

/// A step to the right and one to the left lead back, where there is a step.
pub proof fn law_left_undoes_right(p: Place)
    requires
        0 <= p.at < p.text.len(),
    ensures
        moved_left(Place { text: p.text, at: moved_right(p) }) == p.at,
{
}

// ---------------------------------------------------------------------------
// On the screen
// ---------------------------------------------------------------------------

/// The row and the column behind a text that is set into lines of a width.
pub open spec fn seat(s: Seq<char>, width: nat) -> (nat, nat)
    decreases s.len(),
{
    if s.len() == 0 {
        (0, 0)
    } else {
        let (row, column) = seat(s.drop_last(), width);
        let c = s.last();
        if c == '\n' {
            (row + 1, 0)
        } else {
            let step = columns::advance(c);
            let (row, column) = if column > 0 && column + step > width {
                (row + 1, 0)
            } else {
                (row, column)
            };
            if column + step >= width {
                (row + 1, 0)
            } else {
                (row, column + step)
            }
        }
    }
}

/// How many rows a text takes that is set into lines of a width.
pub open spec fn row_count(s: Seq<char>, width: nat) -> nat {
    seat(s, columns::at_least_one(width)).0 + 1
}

/// How many line feeds a text holds.
pub open spec fn feeds(s: Seq<char>) -> nat
    decreases s.len(),
{
    if s.len() == 0 {
        0
    } else {
        feeds(s.drop_last()) + (if s.last() == '\n' {
            1nat
        } else {
            0nat
        })
    }
}

proof fn lemma_rows_grow(s: Seq<char>, width: nat, k: int)
    requires
        0 <= k <= s.len(),
    ensures
        seat(s.take(k), width).0 <= seat(s, width).0,
        feeds(s) <= seat(s, width).0,
    decreases s.len(),
{
    if s.len() > 0 {
        let front = s.drop_last();
        if k < s.len() {
            assert(s.take(k) =~= front.take(k));
            lemma_rows_grow(front, width, k);
        } else {
            assert(s.take(k) =~= s);
            lemma_rows_grow(front, width, front.len() as int);
        }
    } else {
        assert(s.take(k) =~= s);
    }
}

/// A text takes more rows than it has line feeds. Wherever the cursor stands, its row
/// is one of them, and behind the text it is the last one. Where the cursor stands
/// makes no difference to how many there are.
pub proof fn law_rows_hold_the_cursor(p: Place, width: nat)
    requires
        0 <= p.at <= p.text.len(),
    ensures
        row_count(p.text, width) > feeds(p.text),
        seat(p.text.take(p.at), columns::at_least_one(width)).0 < row_count(p.text, width),
        seat(p.text.take(p.text.len() as int), columns::at_least_one(width)).0 + 1 == row_count(
            p.text,
            width,
        ),
{
    lemma_rows_grow(p.text, columns::at_least_one(width), p.at);
    assert(p.text.take(p.text.len() as int) =~= p.text);
}

/// The row and the column behind the first `k` characters of a text.
pub fn seat_of(s: &str, k: usize, width: usize) -> (r: (usize, usize))
    requires
        k <= s@.len(),
    ensures
        (r.0 as nat, r.1 as nat) == seat(
            s@.take(k as int),
            columns::at_least_one(width as nat),
        ),
        r.0 <= k,
{
    let cs = text::to_chars(s);
    let width: usize = if width == 0 {
        1
    } else {
        width
    };
    let mut row: usize = 0;
    let mut column: usize = 0;
    let mut i: usize = 0;
    proof {
        assert(s@.take(0) =~= Seq::empty());
    }
    while i < k
        invariant
            i <= k,
            k <= cs@.len(),
            cs@ == s@,
            1 <= width,
            (row as nat, column as nat) == seat(s@.take(i as int), width as nat),
            column < width,
            row <= i,
            column > 0 ==> row < i,
        decreases k - i,
    {
        let c = cs[i];
        proof {
            assert(s@.take(i + 1).drop_last() =~= s@.take(i as int));
            assert(s@.take(i + 1).last() == c);
        }
        if c == '\n' {
            row += 1;
            column = 0;
        } else {
            let step: usize = columns::advance_of(c);
            if column > 0 && step > width - column {
                row += 1;
                column = 0;
            }
            if step >= width - column {
                row += 1;
                column = 0;
            } else {
                column += step;
            }
        }
        i += 1;
    }
    (row, column)
}

/// What is typed stands where the cursor was, and the cursor stands behind it. Erasing
/// takes out the character next to the cursor, on the side that is meant.
pub proof fn law_typing_happens_at_the_cursor(
    before: Seq<char>,
    s: Seq<char>,
    after: Seq<char>,
    c: char,
)
    ensures
        typed((Place { text: before + after, at: before.len() as int }), s) == (Place {
            text: before + s + after,
            at: before.len() as int + s.len(),
        }),
        erased_before((Place { text: before.push(c) + after, at: before.len() as int + 1 })) == (
        Place { text: before + after, at: before.len() as int }),
        erased_after((Place { text: before + seq![c] + after, at: before.len() as int })) == (
        Place { text: before + after, at: before.len() as int }),
        erased_before((Place { text: before, at: 0 })) == (Place { text: before, at: 0 }),
        erased_after((Place { text: before, at: before.len() as int })) == (Place {
            text: before,
            at: before.len() as int,
        }),
{
    let n = before.len() as int;
    let all = before + after;
    assert(all.take(n) =~= before && all.skip(n) =~= after);
    let more = before.push(c) + after;
    assert(more.take(n) =~= before && more.skip(n + 1) =~= after);
    let most = before + seq![c] + after;
    assert(most.take(n) =~= before && most.skip(n + 1) =~= after);
}

/// A line begins behind the line feed before the cursor and ends at the one behind it.
pub proof fn law_lines_lie_between_line_feeds(
    before: Seq<char>,
    line: Seq<char>,
    after: Seq<char>,
    i: int,
)
    requires
        !line.contains('\n'),
        before.len() == 0 || before.last() == '\n',
        after.len() == 0 || after[0] == '\n',
        0 <= i <= line.len(),
    ensures
        line_start(before + line + after, before.len() as int + i) == before.len(),
        line_end(before + line + after, before.len() as int + i) == before.len() + line.len(),
    decreases line.len(),
{
    lemma_start_of(before + line + after, before.len() as int, before.len() as int + i, line);
    lemma_end_of(
        before + line + after,
        before.len() as int + i,
        before.len() as int + line.len(),
        before.len() as int,
        line,
    );
}

proof fn lemma_start_of(s: Seq<char>, start: int, at: int, line: Seq<char>)
    requires
        0 <= start <= at <= s.len(),
        start == 0 || s[start - 1] == '\n',
        !line.contains('\n'),
        at <= start + line.len(),
        forall|j: int| start <= j < at ==> #[trigger] s[j] == line[j - start],
    ensures
        line_start(s, at) == start,
    decreases at - start,
{
    if at > start {
        assert(s[at - 1] == line[at - 1 - start]);
        assert(line.contains(line[at - 1 - start]));
        lemma_start_of(s, start, at - 1, line);
    }
}

proof fn lemma_end_of(s: Seq<char>, at: int, end: int, start: int, line: Seq<char>)
    requires
        0 <= start <= at <= end <= s.len(),
        end == s.len() || s[end] == '\n',
        !line.contains('\n'),
        end == start + line.len(),
        forall|j: int| at <= j < end ==> #[trigger] s[j] == line[j - start],
    ensures
        line_end(s, at) == end,
    decreases end - at,
{
    if at < end {
        assert(s[at] == line[at - start]);
        assert(line.contains(line[at - start]));
        lemma_end_of(s, at + 1, end, start, line);
    }
}

/// Moving up and down goes to the neighbouring line and keeps the column, as far as that
/// line is long enough.
pub proof fn law_moving_between_lines_keeps_the_column(
    before: Seq<char>,
    upper: Seq<char>,
    lower: Seq<char>,
    after: Seq<char>,
    column: int,
)
    requires
        !upper.contains('\n'),
        !lower.contains('\n'),
        before.len() == 0 || before.last() == '\n',
        after.len() == 0 || after[0] == '\n',
        0 <= column,
    ensures
        ({
            let s = before + upper + seq!['\n'] + lower + after;
            let top = before.len() as int;
            let bottom = top + upper.len() + 1;
            &&& column <= lower.len() ==> moved_up((Place { text: s, at: bottom + column })) == (
            if column <= upper.len() {
                top + column
            } else {
                top + upper.len()
            })
            &&& column <= upper.len() ==> moved_down((Place { text: s, at: top + column })) == (
            if column <= lower.len() {
                bottom + column
            } else {
                bottom + lower.len()
            })
        }),
{
    let s = before + upper + seq!['\n'] + lower + after;
    let top = before.len() as int;
    let bottom = top + upper.len() + 1;
    let head = before + upper + seq!['\n'];
    let tail = seq!['\n'] + lower + after;
    assert(head.last() == '\n');
    assert(s =~= head + lower + after);
    assert(s =~= before + upper + tail);
    if column <= lower.len() {
        law_lines_lie_between_line_feeds(head, lower, after, column);
        law_lines_lie_between_line_feeds(before, upper, tail, upper.len() as int);
    }
    if column <= upper.len() {
        law_lines_lie_between_line_feeds(before, upper, tail, column);
        law_lines_lie_between_line_feeds(head, lower, after, 0);
    }
}

/// A line feed begins a new row, and what follows it is laid out as if it stood alone. The
/// cursor never stands behind the last column.
pub proof fn law_rows_begin_after_line_feeds(a: Seq<char>, b: Seq<char>, width: nat)
    requires
        width > 0,
    ensures
        seat(a + seq!['\n'] + b, width) == (
            seat(a, width).0 + 1 + seat(b, width).0,
            seat(b, width).1,
        ),
        seat(a, width).1 < width,
        seat(Seq::empty(), width) == (0nat, 0nat),
    decreases a.len() + b.len(),
{
    let s = a + seq!['\n'] + b;
    if b.len() == 0 {
        assert(s =~= a.push('\n'));
        assert(s.drop_last() =~= a);
    } else {
        law_rows_begin_after_line_feeds(a, b.drop_last(), width);
        assert(s.drop_last() =~= a + seq!['\n'] + b.drop_last());
        assert(s.last() == b.last());
    }
    if a.len() > 0 {
        law_rows_begin_after_line_feeds(a.drop_last(), Seq::empty(), width);
    }
}

} // verus!
