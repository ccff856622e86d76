//! How many columns of a terminal a text takes, and how it is broken into lines.
use crate::text;
use unicode_width::{UnicodeWidthChar, UnicodeWidthStr};
use vstd::prelude::*;

verus! {

/// How many columns a character takes; control characters take none.
pub uninterp spec fn display_width(c: char) -> Option<usize>;

/// How many columns a text takes.
pub uninterp spec fn shown_width(s: Seq<char>) -> usize;

/// Calls `UnicodeWidthChar::width`. Claims that the width depends on the character
/// alone and is three columns at most, that an ASCII character that can be printed
/// takes one column, and that the ASCII control characters have no width.
#[verifier::external_body]
pub(crate) fn char_columns(c: char) -> (r: Option<usize>)
    ensures
        r == display_width(c),
        r matches Some(w) ==> w <= 3,
        ' ' <= c && c <= '~' ==> r == Some(1usize),
        c < ' ' ==> r is None,
{
    UnicodeWidthChar::width(c)
}

/// Calls `UnicodeWidthStr::width`. Claims that the width depends on the text alone.
#[verifier::external_body]
pub(crate) fn text_columns(s: &str) -> (r: usize)
    ensures
        r == shown_width(s@),
{
    UnicodeWidthStr::width(s)
}

/// How far a character moves what follows it.
pub open spec fn advance(c: char) -> nat {
    match display_width(c) {
        Some(w) => w as nat,
        None => 0,
    }
}

/// How far a character moves what follows it.
pub fn advance_of(c: char) -> (r: usize)
    ensures
        r == advance(c),
        r <= 3,
{
    match char_columns(c) {
        Some(w) => w,
        None => 0,
    }
}

/// How far characters move what follows them.
pub open spec fn columns(s: Seq<char>) -> nat
    decreases s.len(),
{
    if s.len() == 0 {
        0
    } else {
        columns(s.drop_last()) + advance(s.last())
    }
}

// ---------------------------------------------------------------------------
// Line ends
// ---------------------------------------------------------------------------

/// A text in which every line end is a line feed.
pub open spec fn unified(s: Seq<char>) -> Seq<char>
    decreases s.len(),
{
    if s.len() == 0 {
        Seq::empty()
    } else if s[0] == '\r' && s.len() > 1 && s[1] == '\n' {
        seq!['\n'] + unified(s.skip(2))
    } else if s[0] == '\r' {
        seq!['\n'] + unified(s.skip(1))
    } else {
        seq![s[0]] + unified(s.skip(1))
    }
}

/// Makes every line end a line feed.
pub fn unify(s: &str) -> (r: String)
    ensures
        r@ == unified(s@),
{
    let cs = text::to_chars(s);
    let n: usize = cs.len();
    let mut out = String::new();
    let mut i: usize = 0;
    proof {
        assert(s@.skip(0) =~= s@);
        assert(out@ + unified(s@) =~= unified(s@));
    }
    while i < n
        invariant
            i <= n,
            n == cs@.len(),
            cs@ == s@,
            unified(s@) == out@ + unified(s@.skip(i as int)),
        decreases n - i,
    {
        let ghost before = out@;
        let ghost rest = s@.skip(i as int);
        let c = cs[i];
        let paired = c == '\r' && n - i > 1 && cs[i + 1] == '\n';
        out.push(
            if c == '\r' {
                '\n'
            } else {
                c
            },
        );
        proof {
            assert(rest[0] == c);
            if n - i > 1 {
                assert(rest[1] == cs@[i + 1]);
                assert(rest.skip(2) =~= s@.skip(i + 2));
            }
            assert(rest.skip(1) =~= s@.skip(i + 1));
            assert(before.push(out@.last()) =~= out@);
            if paired {
                assert(before + (seq!['\n'] + unified(rest.skip(2))) =~= out@ + unified(
                    rest.skip(2),
                ));
            } else if c == '\r' {
                assert(before + (seq!['\n'] + unified(rest.skip(1))) =~= out@ + unified(
                    rest.skip(1),
                ));
            } else {
                assert(before + (seq![c] + unified(rest.skip(1))) =~= out@ + unified(rest.skip(1)));
            }
        }
        if paired {
            i += 2;
        } else {
            i += 1;
        }
    }
    proof {
        assert(s@.skip(n as int) =~= Seq::empty());
        assert(out@ + Seq::<char>::empty() =~= out@);
    }
    out
}

proof fn lemma_unified(s: Seq<char>, i: int)
    requires
        0 <= i < unified(s).len(),
    ensures
        unified(s)[i] != '\r',
    decreases s.len(),
{
    if s.len() > 0 && i > 0 {
        if s[0] == '\r' && s.len() > 1 && s[1] == '\n' {
            lemma_unified(s.skip(2), i - 1);
        } else {
            lemma_unified(s.skip(1), i - 1);
        }
    }
}

/// No carriage return is left once line ends are unified.
pub proof fn law_no_carriage_return_is_left(s: Seq<char>)
    ensures
        !unified(s).contains('\r'),
{
    if unified(s).contains('\r') {
        let i = choose|i: int| 0 <= i < unified(s).len() && unified(s)[i] == '\r';
        lemma_unified(s, i);
    }
}

// ---------------------------------------------------------------------------
// Wrapping
// ---------------------------------------------------------------------------

/// The lines that are full, and the one that is being filled, after a text without
/// line ends was set into lines of a width.
pub open spec fn filled(s: Seq<char>, width: nat) -> (Seq<Seq<char>>, Seq<char>)
    decreases s.len(),
{
    if s.len() == 0 {
        (Seq::empty(), Seq::empty())
    } else {
        let (done, line) = filled(s.drop_last(), width);
        let c = s.last();
        if line.len() > 0 && columns(line) + advance(c) > width {
            (done.push(line), seq![c])
        } else {
            (done, line.push(c))
        }
    }
}

/// The lines of a text without line ends.
pub open spec fn wrapped_line(s: Seq<char>, width: nat) -> Seq<Seq<char>> {
    filled(s, width).0.push(filled(s, width).1)
}

/// The lines of texts without line ends.
pub open spec fn wrapped_lines(parts: Seq<Seq<char>>, width: nat) -> Seq<Seq<char>>
    decreases parts.len(),
{
    if parts.len() == 0 {
        Seq::empty()
    } else {
        wrapped_lines(parts.drop_last(), width) + wrapped_line(parts.last(), width)
    }
}

/// A width, of one column at least.
pub open spec fn at_least_one(width: nat) -> nat {
    if width == 0 {
        1
    } else {
        width
    }
}

/// The lines of a text.
pub open spec fn wrapped(s: Seq<char>, width: nat) -> Seq<Seq<char>> {
    wrapped_lines(text::split(unified(s), '\n'), at_least_one(width))
}

proof fn lemma_filled(s: Seq<char>, width: nat)
    ensures
        text::concat_all(wrapped_line(s, width)) == s,
        forall|i: int|
            #![trigger wrapped_line(s, width)[i]]
            0 <= i < wrapped_line(s, width).len() ==> columns(wrapped_line(s, width)[i]) <= width
                || wrapped_line(s, width)[i].len() == 1,
        s.len() > 0 ==> filled(s, width).1.len() > 0,
    decreases s.len(),
{
    let (done, line) = filled(s, width);
    let lines = done.push(line);
    if s.len() == 0 {
        assert(lines.drop_last() =~= Seq::empty());
        assert(text::concat_all(lines.drop_last()) =~= Seq::empty());
        assert(text::concat_all(lines) =~= s);
    } else {
        let front = s.drop_last();
        let c = s.last();
        lemma_filled(front, width);
        let (done0, line0) = filled(front, width);
        let lines0 = done0.push(line0);
        assert(lines0 =~= wrapped_line(front, width));
        assert(lines0.drop_last() =~= done0);
        assert(text::concat_all(lines0) == text::concat_all(done0) + line0);
        assert(front.push(c) =~= s);
        assert(lines.drop_last() =~= done);
        if line0.len() > 0 && columns(line0) + advance(c) > width {
            assert(lines == lines0.push(seq![c]));
            assert(lines.drop_last() =~= lines0);
            assert(text::concat_all(lines) == front + seq![c]);
            assert(front + seq![c] =~= s);
            assert forall|i: int|
                #![trigger lines[i]]
                0 <= i < lines.len() implies columns(lines[i]) <= width || lines[i].len() == 1 by {
                if i < lines0.len() {
                    assert(lines[i] == wrapped_line(front, width)[i]);
                }
            }
        } else {
            assert(text::concat_all(lines) == text::concat_all(done0) + line0.push(c));
            assert(text::concat_all(done0) + line0.push(c) =~= (text::concat_all(done0)
                + line0).push(c));
            assert(line0.push(c).drop_last() =~= line0);
            assert forall|i: int|
                #![trigger lines[i]]
                0 <= i < lines.len() implies columns(lines[i]) <= width || lines[i].len() == 1 by {
                if i < done0.len() {
                    assert(lines[i] == wrapped_line(front, width)[i]);
                }
            }
        }
        assert(lines =~= wrapped_line(s, width));
    }
}

/// Breaking a line loses nothing, and no broken line takes more columns than there
/// are, unless it is a single character that takes more.
pub proof fn law_wrapping_keeps_the_text(s: Seq<char>, width: nat)
    ensures
        text::concat_all(wrapped_line(s, width)) == s,
        forall|i: int|
            #![trigger wrapped_line(s, width)[i]]
            0 <= i < wrapped_line(s, width).len() ==> columns(wrapped_line(s, width)[i]) <= width
                || wrapped_line(s, width)[i].len() == 1,
{
    lemma_filled(s, width);
}

fn wrap_line(lines: &mut Vec<String>, s: &str, width: usize)
    ensures
        text::texts(final(lines)@) == text::texts(old(lines)@) + wrapped_line(s@, width as nat),
{
    let ghost first = text::texts(lines@);
    let cs = text::to_chars(s);
    let n: usize = cs.len();
    let mut line = String::new();
    let mut taken: u128 = 0;
    let mut started = false;
    let mut i: usize = 0;
    proof {
        assert(s@.take(0) =~= Seq::empty());
        assert(line@ =~= Seq::empty());
        assert(first + Seq::<Seq<char>>::empty() =~= first);
    }
    while i < n
        invariant
            i <= n,
            n == cs@.len(),
            cs@ == s@,
            text::texts(lines@) == first + filled(s@.take(i as int), width as nat).0,
            line@ == filled(s@.take(i as int), width as nat).1,
            started == (line@.len() > 0),
            taken == columns(line@),
            taken <= 3 * i,
        decreases n - i,
    {
        let c = cs[i];
        let step: usize = advance_of(c);
        let ghost done = filled(s@.take(i as int), width as nat).0;
        proof {
            assert(s@.take(i + 1).drop_last() =~= s@.take(i as int));
            assert(s@.take(i + 1).last() == c);
        }
        if started && taken + step as u128 > width as u128 {
            text::push_text(lines, line.as_str());
            proof {
                assert((first + done).push(line@) =~= first + done.push(line@));
            }
            line = String::new();
            taken = 0;
            proof {
                assert(line@ =~= Seq::empty());
                assert(columns(line@) == 0);
            }
        }
        proof {
            assert(line@.push(c).drop_last() =~= line@);
            assert(line@.push(c).last() == c);
            assert(columns(line@.push(c)) == columns(line@) + advance(c));
            assert(Seq::<char>::empty().push(c) =~= seq![c]);
        }
        line.push(c);
        started = true;
        taken = taken + step as u128;
        i += 1;
    }
    let ghost done = filled(s@, width as nat).0;
    proof {
        assert(s@.take(n as int) =~= s@);
        assert((first + done).push(line@) =~= first + done.push(line@));
    }
    text::push_text(lines, line.as_str());
}

/// Breaks a text into lines of a width.
pub fn wrap_text(s: &str, width: usize) -> (r: Vec<String>)
    ensures
        text::texts(r@) == wrapped(s@, width as nat),
{
    let width: usize = if width == 0 {
        1
    } else {
        width
    };
    let unified_text = unify(s);
    let parts = text::split_char(unified_text.as_str(), '\n');
    let ghost all = text::texts(parts@);
    let mut lines = text::no_texts();
    let mut i: usize = 0;
    proof {
        assert(all.take(0) =~= Seq::empty());
    }
    while i < parts.len()
        invariant
            i <= parts@.len(),
            all == text::texts(parts@),
            text::texts(lines@) == wrapped_lines(all.take(i as int), width as nat),
        decreases parts@.len() - i,
    {
        proof {
            assert(all.take(i + 1).drop_last() =~= all.take(i as int));
            assert(all.take(i + 1).last() == parts@[i as int]@);
        }
        wrap_line(&mut lines, parts[i].as_str(), width);
        i += 1;
    }
    proof {
        assert(all.take(i as int) =~= all);
    }
    lines
}

// ---------------------------------------------------------------------------
// Cutting off
// ---------------------------------------------------------------------------

/// How many of the first characters take no more than so many columns.
pub open spec fn fitting(s: Seq<char>, width: nat) -> nat
    decreases s.len(),
{
    if s.len() == 0 || advance(s[0]) > width {
        0
    } else {
        1 + fitting(s.drop_first(), (width - advance(s[0])) as nat)
    }
}

/// A text, cut off where it takes more columns than there are.
pub open spec fn truncated(s: Seq<char>, width: nat) -> Seq<char> {
    if shown_width(s) <= width {
        s
    } else {
        s.take(fitting(s, width) as int)
    }
}

/// Cuts off a text that takes more columns than there are.
pub fn truncate_to_width(s: &str, width: usize) -> (r: String)
    ensures
        r@ == truncated(s@, width as nat),
{
    if text_columns(s) <= width {
        return text::owned(s);
    }
    let cs = text::to_chars(s);
    let n: usize = cs.len();
    let mut out = String::new();
    let mut room: usize = width;
    let mut i: usize = 0;
    proof {
        assert(s@.skip(0) =~= s@);
        assert(out@ =~= s@.take(0));
    }
    while i < n
        invariant
            i <= n,
            n == cs@.len(),
            cs@ == s@,
            shown_width(s@) > width,
            out@ == s@.take(i as int),
            fitting(s@, width as nat) == i + fitting(s@.skip(i as int), room as nat),
        decreases n - i,
    {
        let c = cs[i];
        let step: usize = advance_of(c);
        proof {
            assert(s@.skip(i as int)[0] == c);
            assert(s@.skip(i as int).drop_first() =~= s@.skip(i + 1));
        }
        if step > room {
            return out;
        }
        out.push(c);
        proof {
            assert(out@ =~= s@.take(i + 1));
        }
        room = room - step;
        i += 1;
    }
    proof {
        assert(s@.skip(n as int) =~= Seq::empty());
    }
    out
}

proof fn lemma_columns_first(s: Seq<char>)
    requires
        s.len() > 0,
    ensures
        columns(s) == advance(s[0]) + columns(s.drop_first()),
    decreases s.len(),
{
    if s.len() == 1 {
        assert(s.drop_last() =~= Seq::empty());
        assert(s.drop_first() =~= Seq::empty());
        assert(columns(Seq::empty()) == 0);
    } else {
        lemma_columns_first(s.drop_last());
        assert(s.drop_last().drop_first() =~= s.drop_first().drop_last());
        assert(s.drop_first().last() == s.last());
        assert(s.drop_last()[0] == s[0]);
    }
}

/// What is cut off takes no more columns than there are.
pub proof fn law_cut_texts_fit(s: Seq<char>, width: nat)
    ensures
        fitting(s, width) <= s.len(),
        columns(s.take(fitting(s, width) as int)) <= width,
    decreases s.len(),
{
    if s.len() == 0 || advance(s[0]) > width {
        assert(s.take(0) =~= Seq::empty());
    } else {
        let rest = s.drop_first();
        let room = (width - advance(s[0])) as nat;
        law_cut_texts_fit(rest, room);
        let k = fitting(s, width) as int;
        assert(s.take(k).drop_first() =~= rest.take(k - 1));
        lemma_columns_first(s.take(k));
    }
}

// ---------------------------------------------------------------------------
// Heights
// ---------------------------------------------------------------------------

/// How many rows a line takes.
pub open spec fn line_rows(line: Seq<char>, width: nat) -> nat {
    let taken = at_least_one(shown_width(line) as nat);
    let width = at_least_one(width);
    ((taken + width - 1) / width as int) as nat
}

/// How many rows lines take.
pub open spec fn rows_of(lines: Seq<Seq<char>>, width: nat) -> nat
    decreases lines.len(),
{
    if lines.len() == 0 {
        0
    } else {
        rows_of(lines.drop_last(), width) + line_rows(lines.last(), width)
    }
}

/// How many rows a text takes.
pub fn wrapped_height(s: &str, width: usize) -> (r: u128)
    ensures
        r == rows_of(text::split(s@, '\n'), width as nat),
{
    let lines = text::split_char(s, '\n');
    let ghost all = text::texts(lines@);
    let count: usize = lines.len();
    let room: u128 = if width == 0 {
        1
    } else {
        width as u128
    };
    let mut rows: u128 = 0;
    let mut i: usize = 0;
    proof {
        assert(all.take(0) =~= Seq::empty());
    }
    while i < count
        invariant
            i <= lines@.len(),
            count == lines@.len(),
            all == text::texts(lines@),
            1 <= room <= usize::MAX,
            room == at_least_one(width as nat),
            rows == rows_of(all.take(i as int), width as nat),
            rows <= i * usize::MAX,
        decreases lines@.len() - i,
    {
        let shown: usize = text_columns(lines[i].as_str());
        let taken: u128 = if shown == 0 {
            1
        } else {
            shown as u128
        };
        let more: u128 = (taken + room - 1) / room;
        proof {
            assert(all.take(i + 1).drop_last() =~= all.take(i as int));
            assert(all.take(i + 1).last() == lines@[i as int]@);
            assert(more <= usize::MAX) by (nonlinear_arith)
                requires
                    1 <= taken <= usize::MAX,
                    1 <= room,
                    more == (taken + room - 1) / room as int,
            ;
            assert((i + 1) * usize::MAX == i * usize::MAX + usize::MAX) by (nonlinear_arith);
            assert((i + 1) * usize::MAX <= usize::MAX * usize::MAX) by (nonlinear_arith)
                requires
                    i + 1 <= usize::MAX,
            ;
            assert(usize::MAX * usize::MAX <= u128::MAX) by (nonlinear_arith)
                requires
                    usize::MAX <= 0xffff_ffff_ffff_ffff,
            ;
        }
        rows = rows + more;
        i += 1;
    }
    proof {
        assert(all.take(i as int) =~= all);
    }
    rows
}

/// Line ends of any kind become line feeds, one for each; all other text stays.
pub proof fn law_line_ends_become_line_feeds(a: Seq<char>, b: Seq<char>)
    requires
        !a.contains('\r'),
    ensures
        unified(a) == a,
        unified(a + seq!['\r', '\n'] + b) == a + seq!['\n'] + unified(b),
        b.len() == 0 || b[0] != '\n' ==> unified(a + seq!['\r'] + b) == a + seq!['\n'] + unified(b),
    decreases a.len(),
{
    let x = a + seq!['\r', '\n'] + b;
    let y = a + seq!['\r'] + b;
    if a.len() == 0 {
        assert(unified(a) =~= a);
        assert(x.skip(2) =~= b);
        assert(y.skip(1) =~= b);
        assert(seq!['\n'] + unified(b) =~= a + seq!['\n'] + unified(b));
    } else {
        let rest = a.skip(1);
        assert(a.contains(a[0]));
        assert(!rest.contains('\r')) by {
            if rest.contains('\r') {
                let k = rest.index_of('\r');
                assert(a[k + 1] == '\r');
            }
        }
        law_line_ends_become_line_feeds(rest, b);
        assert(x.skip(1) =~= rest + seq!['\r', '\n'] + b);
        assert(y.skip(1) =~= rest + seq!['\r'] + b);
        assert(seq![a[0]] + rest =~= a);
        assert(x[0] == a[0] && y[0] == a[0]);
        assert(unified(x) =~= a + seq!['\n'] + unified(b));
        if b.len() == 0 || b[0] != '\n' {
            assert(unified(y) =~= a + seq!['\n'] + unified(b));
        }
    }
}

/// A row is broken only where the next character no longer fits. Lines are wrapped one by
/// one, in their order.
pub proof fn law_rows_are_filled(
    s: Seq<char>,
    width: nat,
    i: int,
    a: Seq<Seq<char>>,
    b: Seq<Seq<char>>,
)
    ensures
        0 <= i < wrapped_line(s, width).len() - 1 ==> wrapped_line(s, width)[i + 1].len() > 0
            && columns(wrapped_line(s, width)[i]) + advance(wrapped_line(s, width)[i + 1][0])
            > width,
        wrapped_lines(a + b, width) == wrapped_lines(a, width) + wrapped_lines(b, width),
        wrapped_lines(seq![s], width) == wrapped_line(s, width),
    decreases s.len() + b.len(),
{
    if s.len() > 0 {
        let front = s.drop_last();
        law_rows_are_filled(front, width, i, a, b);
        let (done, line) = filled(front, width);
        let c = s.last();
        let old = wrapped_line(front, width);
        let all = wrapped_line(s, width);
        if line.len() > 0 && columns(line) + advance(c) > width {
            if 0 <= i < all.len() - 1 {
                assert(all[i] == old[i]);
                if i + 1 < old.len() {
                    assert(all[i + 1] == old[i + 1]);
                }
            }
        } else if 0 <= i < all.len() - 1 {
            assert(all[i] == old[i]);
            if i + 1 < done.len() {
                assert(all[i + 1] == old[i + 1]);
            } else {
                assert(old[i + 1] == line);
                assert(all[i + 1] == line.push(c));
                assert(line.push(c)[0] == line[0]);
            }
        }
    }
    reveal_with_fuel(wrapped_lines, 2);
    assert(seq![s].drop_last() =~= Seq::empty());
    assert(wrapped_lines(seq![s], width) =~= wrapped_line(s, width));
    if b.len() == 0 {
        assert(a + b =~= a);
        assert(wrapped_lines(a, width) + wrapped_lines(b, width) =~= wrapped_lines(a, width));
    } else {
        law_rows_are_filled(s, width, i, a, b.drop_last());
        assert((a + b).drop_last() =~= a + b.drop_last());
        assert((a + b).last() == b.last());
        assert(wrapped_lines(a + b, width) =~= wrapped_lines(a, width) + wrapped_lines(b, width));
    }
}

/// A text is cut only where the next character no longer fits.
pub proof fn law_no_more_is_cut_than_needed(s: Seq<char>, width: nat)
    ensures
        fitting(s, width) < s.len() ==> columns(s.take(fitting(s, width) as int)) + advance(
            s[fitting(s, width) as int],
        ) > width,
    decreases s.len(),
{
    if s.len() > 0 && advance(s[0]) <= width {
        let rest = s.drop_first();
        let left = (width - advance(s[0])) as nat;
        law_no_more_is_cut_than_needed(rest, left);
        law_cut_texts_fit(rest, left);
        let k = fitting(rest, left) as int;
        lemma_columns_first(s.take(k + 1));
        assert(s.take(k + 1).drop_first() =~= rest.take(k));
    } else if s.len() > 0 {
        assert(columns(s.take(0)) == 0);
    }
}

/// A line takes as many rows as it needs, and at least one; the rows of lines add up.
pub proof fn law_lines_take_the_rows_they_need(
    line: Seq<char>,
    width: nat,
    a: Seq<Seq<char>>,
    b: Seq<Seq<char>>,
)
    requires
        width > 0,
    ensures
        line_rows(line, width) >= 1,
        line_rows(line, width) * width >= shown_width(line),
        (line_rows(line, width) - 1) * width < (if shown_width(line) == 0 {
            1
        } else {
            shown_width(line) as int
        }),
        rows_of(a + b, width) == rows_of(a, width) + rows_of(b, width),
        rows_of(seq![line], width) == line_rows(line, width),
    decreases b.len(),
{
    let taken = at_least_one(shown_width(line) as nat) as int;
    let w = width as int;
    let r = (taken + w - 1) / w;
    assert(r >= 1 && r * w >= taken && (r - 1) * w < taken) by (nonlinear_arith)
        requires
            w > 0,
            taken >= 1,
            r == (taken + w - 1) / w,
    ;
    reveal_with_fuel(rows_of, 2);
    assert(seq![line].drop_last() =~= Seq::empty());
    if b.len() == 0 {
        assert(a + b =~= a);
    } else {
        law_lines_take_the_rows_they_need(line, width, a, b.drop_last());
        assert((a + b).drop_last() =~= a + b.drop_last());
        assert((a + b).last() == b.last());
    }
}

} // verus!
