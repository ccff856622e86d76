//! Text as sequences of characters: measuring, searching, splitting and joining.
use vstd::prelude::*;
use vstd::slice::slice_subrange;
use vstd::string::StrSliceExecFns;

verus! {

/// Appends one character, as `String::push` documents.
pub assume_specification[ String::push ](s: &mut String, c: char)
    ensures
        final(s)@ == old(s)@.push(c),
;

/// Appends a string slice, as `String::push_str` documents.
pub assume_specification[ String::push_str ](s: &mut String, other: &str)
    ensures
        final(s)@ == old(s)@ + other@,
;

// ---------------------------------------------------------------------------
// Byte lengths
// ---------------------------------------------------------------------------

/// Bytes that one character takes in UTF-8.
pub open spec fn char_width(c: char) -> nat {
    if (c as u32) < 0x80 {
        1
    } else if (c as u32) < 0x800 {
        2
    } else if (c as u32) < 0x10000 {
        3
    } else {
        4
    }
}

/// Bytes that a text takes in UTF-8.
pub open spec fn utf8_len(s: Seq<char>) -> nat
    decreases s.len(),
{
    if s.len() == 0 {
        0
    } else {
        utf8_len(s.drop_last()) + char_width(s.last())
    }
}

/// Byte lengths add up under concatenation.
pub proof fn lemma_utf8_len_concat(a: Seq<char>, b: Seq<char>)
    ensures
        utf8_len(a + b) == utf8_len(a) + utf8_len(b),
    decreases b.len(),
{
    if b.len() == 0 {
        assert(a + b =~= a);
    } else {
        lemma_utf8_len_concat(a, b.drop_last());
        assert((a + b).drop_last() =~= a + b.drop_last());
        assert((a + b).last() == b.last());
    }
}

pub proof fn lemma_utf8_len_push(a: Seq<char>, c: char)
    ensures
        utf8_len(a.push(c)) == utf8_len(a) + char_width(c),
{
    assert(a.push(c).drop_last() =~= a);
}

/// A prefix is never longer than the whole text.
pub proof fn lemma_utf8_len_take(s: Seq<char>, i: int)
    requires
        0 <= i <= s.len(),
    ensures
        utf8_len(s.take(i)) + utf8_len(s.skip(i)) == utf8_len(s),
        utf8_len(s.take(i)) <= utf8_len(s),
        utf8_len(s.take(i)) >= i,
    decreases i,
{
    lemma_utf8_len_concat(s.take(i), s.skip(i));
    assert(s.take(i) + s.skip(i) =~= s);
    lemma_utf8_len_at_least(s.take(i));
}

/// Every character takes at least one byte.
pub proof fn lemma_utf8_len_at_least(s: Seq<char>)
    ensures
        utf8_len(s) >= s.len(),
    decreases s.len(),
{
    if s.len() > 0 {
        lemma_utf8_len_at_least(s.drop_last());
    }
}

/// Prefixes grow strictly in bytes.
pub proof fn lemma_utf8_len_strict(s: Seq<char>, i: int, j: int)
    requires
        0 <= i < j <= s.len(),
    ensures
        utf8_len(s.take(i)) < utf8_len(s.take(j)),
{
    let t = s.take(j);
    lemma_utf8_len_take(t, i);
    assert(t.take(i) =~= s.take(i));
    lemma_utf8_len_at_least(t.skip(i));
}

proof fn lemma_encode_len(s: Seq<char>)
    ensures
        vstd::utf8::encode_utf8(s).len() == utf8_len(s),
    decreases s.len(),
{
    if s.len() > 0 {
        lemma_encode_len(s.drop_first());
        let head = s.take(1);
        lemma_utf8_len_concat(head, s.drop_first());
        assert(head + s.drop_first() =~= s);
        assert(head.drop_last() =~= Seq::<char>::empty());
        vstd::utf8::char_is_scalar(s[0]);
        assert(utf8_len(head) == char_width(s[0])) by {
            reveal_with_fuel(utf8_len, 2);
        }
    }
}

/// The number of bytes of `s`.
pub fn byte_len(s: &str) -> (n: usize)
    ensures
        n == utf8_len(s@),
{
    proof {
        lemma_encode_len(s@);
    }
    s.as_bytes().len()
}

/// The number of bytes of one character.
pub fn width_of(c: char) -> (n: usize)
    ensures
        n == char_width(c),
        1 <= n <= 4,
{
    let code: u32 = c as u32;
    if code < 0x80 {
        1
    } else if code < 0x800 {
        2
    } else if code < 0x10000 {
        3
    } else {
        4
    }
}

// ---------------------------------------------------------------------------
// Conversions
// ---------------------------------------------------------------------------

/// How many characters `s` has. As a list they have to fit into memory, at four bytes
/// each.
pub fn char_count(s: &str) -> (n: usize)
    ensures
        n == s@.len(),
        n <= usize::MAX / 4,
{
    let cs = to_chars(s);
    let size: usize = core::mem::size_of_val(cs.as_slice());
    proof {
        broadcast use {
            vstd::layout::layout_of_slices,
            vstd::layout::layout_of_primitives,
        };

        assert(size == cs@.len() * 4);
    }
    cs.len()
}

/// The characters of `s`.
pub fn to_chars(s: &str) -> (v: Vec<char>)
    ensures
        v@ == s@,
{
    let mut out: Vec<char> = Vec::new();
    for c in iter: s.chars()
        invariant
            iter.seq() == s@,
            out@ == s@.take(iter.index() as int),
    {
        out.push(c);
    }
    out
}

/// The text that `chars` spells.
pub fn from_chars(chars: &[char]) -> (s: String)
    ensures
        s@ == chars@,
{
    let mut out = String::new();
    let mut i: usize = 0;
    while i < chars.len()
        invariant
            i <= chars@.len(),
            out@ == chars@.take(i as int),
        decreases chars@.len() - i,
    {
        out.push(chars[i]);
        i += 1;
    }
    out
}

/// What is wrong with bytes that are no UTF-8.
pub uninterp spec fn utf8_complaint(bytes: Seq<u8>) -> Seq<char>;

/// Calls `String::from_utf8`. Claims that exactly the valid UTF-8 sequences are
/// accepted, that the text has the given bytes, and that the error text depends
/// on the bytes alone.
#[verifier::external_body]
pub(crate) fn utf8_text(bytes: Vec<u8>) -> (r: core::result::Result<String, String>)
    ensures
        r is Ok == vstd::utf8::valid_utf8(bytes@),
        r matches Ok(s) ==> vstd::utf8::encode_utf8(s@) == bytes@,
        r matches Err(m) ==> m@ == utf8_complaint(bytes@),
{
    String::from_utf8(bytes).map_err(|error| error.to_string())
}

/// A text in quotes, with what cannot be shown escaped.
pub uninterp spec fn quoted(s: Seq<char>) -> Seq<char>;

/// Calls the `Debug` of `str`. Claims that what it shows depends on the text alone.
#[verifier::external_body]
pub(crate) fn quote(s: &str) -> (r: String)
    ensures
        r@ == quoted(s@),
{
    format!("{:?}", s)
}

/// The texts of a list of strings.
pub open spec fn texts(list: Seq<String>) -> Seq<Seq<char>> {
    list.map_values(|s: String| s@)
}

/// The text of an optional string.
pub open spec fn opt_text(s: Option<String>) -> Option<Seq<char>> {
    match s {
        Some(t) => Some(t@),
        None => None,
    }
}


/// Concatenates two pieces.
pub fn cat2(a: &str, b: &str) -> (s: String)
    ensures
        s@ == a@ + b@,
{
    let mut out = String::new();
    out.push_str(a);
    out.push_str(b);
    out
}

/// Concatenates three pieces.
pub fn cat3(a: &str, b: &str, c: &str) -> (s: String)
    ensures
        s@ == a@ + b@ + c@,
{
    let mut out = cat2(a, b);
    out.push_str(c);
    out
}

/// Concatenates four pieces.
pub fn cat4(a: &str, b: &str, c: &str, d: &str) -> (s: String)
    ensures
        s@ == a@ + b@ + c@ + d@,
{
    let mut out = cat3(a, b, c);
    out.push_str(d);
    out
}

/// Concatenates five pieces.
pub fn cat5(a: &str, b: &str, c: &str, d: &str, e: &str) -> (s: String)
    ensures
        s@ == a@ + b@ + c@ + d@ + e@,
{
    let mut out = cat4(a, b, c, d);
    out.push_str(e);
    out
}

/// An owned copy of `s`.
pub fn owned(s: &str) -> (r: String)
    ensures
        r@ == s@,
{
    let mut out = String::new();
    out.push_str(s);
    out
}

/// Whether two slices hold the same characters.
pub fn same_chars(a: &[char], b: &[char]) -> (r: bool)
    ensures
        r == (a@ == b@),
{
    if a.len() != b.len() {
        return false;
    }
    let mut i: usize = 0;
    while i < a.len()
        invariant
            i <= a@.len(),
            a@.len() == b@.len(),
            a@.take(i as int) == b@.take(i as int),
        decreases a@.len() - i,
    {
        if a[i] != b[i] {
            proof {
                assert(a@[i as int] != b@[i as int]);
            }
            return false;
        }
        proof {
            assert(a@.take(i + 1) =~= a@.take(i as int).push(a@[i as int]));
            assert(b@.take(i + 1) =~= b@.take(i as int).push(b@[i as int]));
        }
        i += 1;
    }
    proof {
        assert(a@.take(i as int) =~= a@);
        assert(b@.take(i as int) =~= b@);
    }
    true
}

/// Whether two texts are the same.
pub fn same_text(a: &str, b: &str) -> (r: bool)
    ensures
        r == (a@ == b@),
{
    let x = to_chars(a);
    let y = to_chars(b);
    same_chars(x.as_slice(), y.as_slice())
}

/// Whether `list` holds `s`.
pub fn contains_text(list: &[String], s: &str) -> (r: bool)
    ensures
        r == texts(list@).contains(s@),
{
    let mut i: usize = 0;
    while i < list.len()
        invariant
            i <= list@.len(),
            forall|j: int| 0 <= j < i ==> list@[j]@ != s@,
        decreases list@.len() - i,
    {
        if same_text(list[i].as_str(), s) {
            proof {
                assert(texts(list@)[i as int] == s@);
            }
            return true;
        }
        i += 1;
    }
    false
}

/// Copies of the strings of `list`.
pub fn clone_texts(list: &[String]) -> (r: Vec<String>)
    ensures
        texts(r@) == texts(list@),
        r@.len() == list@.len(),
{
    let mut out: Vec<String> = Vec::new();
    let mut i: usize = 0;
    while i < list.len()
        invariant
            i <= list@.len(),
            out@.len() == i,
            texts(out@) == texts(list@).take(i as int),
        decreases list@.len() - i,
    {
        out.push(owned(list[i].as_str()));
        proof {
            assert(texts(out@) =~= texts(list@).take(i + 1));
        }
        i += 1;
    }
    proof {
        assert(texts(list@).take(i as int) =~= texts(list@));
    }
    out
}

// ---------------------------------------------------------------------------
// White space and trimming
// ---------------------------------------------------------------------------

/// The characters with the Unicode property White_Space.
pub open spec fn is_whitespace(c: char) -> bool {
    ||| 0x9 <= c as u32 <= 0xd
    ||| c as u32 == 0x20
    ||| c as u32 == 0x85
    ||| c as u32 == 0xa0
    ||| c as u32 == 0x1680
    ||| 0x2000 <= c as u32 <= 0x200a
    ||| c as u32 == 0x2028
    ||| c as u32 == 0x2029
    ||| c as u32 == 0x202f
    ||| c as u32 == 0x205f
    ||| c as u32 == 0x3000
}

pub fn whitespace(c: char) -> (r: bool)
    ensures
        r == is_whitespace(c),
{
    let u: u32 = c as u32;
    (0x9 <= u && u <= 0xd) || u == 0x20 || u == 0x85 || u == 0xa0 || u == 0x1680 || (0x2000 <= u
        && u <= 0x200a) || u == 0x2028 || u == 0x2029 || u == 0x202f || u == 0x205f || u == 0x3000
}

/// `s` without the leading characters that satisfy `p`.
pub open spec fn trim_start_by(s: Seq<char>, p: spec_fn(char) -> bool) -> Seq<char>
    decreases s.len(),
{
    if s.len() > 0 && p(s[0]) {
        trim_start_by(s.drop_first(), p)
    } else {
        s
    }
}

/// `s` without the trailing characters that satisfy `p`.
pub open spec fn trim_end_by(s: Seq<char>, p: spec_fn(char) -> bool) -> Seq<char>
    decreases s.len(),
{
    if s.len() > 0 && p(s.last()) {
        trim_end_by(s.drop_last(), p)
    } else {
        s
    }
}

/// `s` without the characters that satisfy `p` at either end.
pub open spec fn trim_by(s: Seq<char>, p: spec_fn(char) -> bool) -> Seq<char> {
    trim_end_by(trim_start_by(s, p), p)
}

/// `s` without white space at either end.
pub open spec fn trimmed(s: Seq<char>) -> Seq<char> {
    trim_by(s, |c: char| is_whitespace(c))
}

/// `s` is white space only, or empty.
pub open spec fn is_blank(s: Seq<char>) -> bool {
    trimmed(s).len() == 0
}

pub proof fn lemma_trim_start_at(s: Seq<char>, p: spec_fn(char) -> bool, i: int)
    requires
        0 <= i <= s.len(),
        forall|j: int| 0 <= j < i ==> p(#[trigger] s[j]),
        i == s.len() || !p(s[i]),
    ensures
        trim_start_by(s, p) == s.skip(i),
    decreases i,
{
    if i == 0 {
        assert(s.skip(0) =~= s);
    } else {
        assert(p(s[0]));
        assert forall|j: int| 0 <= j < i - 1 implies p(#[trigger] s.drop_first()[j]) by {
            assert(p(s[j + 1]));
        }
        lemma_trim_start_at(s.drop_first(), p, i - 1);
        assert(s.drop_first().skip(i - 1) =~= s.skip(i));
    }
}

pub proof fn lemma_trim_end_at(s: Seq<char>, p: spec_fn(char) -> bool, i: int)
    requires
        0 <= i <= s.len(),
        forall|j: int| i <= j < s.len() ==> p(#[trigger] s[j]),
        i == 0 || !p(s[i - 1]),
    ensures
        trim_end_by(s, p) == s.take(i),
    decreases s.len() - i,
{
    if i == s.len() {
        assert(s.take(i) =~= s);
    } else {
        assert(p(s[s.len() - 1]));
        assert forall|j: int| i <= j < s.len() - 1 implies p(#[trigger] s.drop_last()[j]) by {
            assert(p(s[j]));
        }
        lemma_trim_end_at(s.drop_last(), p, i);
        assert(s.drop_last().take(i) =~= s.take(i));
    }
}

/// What is left between the first and the last character that is no white space.
pub proof fn lemma_trimmed_at(s: Seq<char>, a: int, b: int)
    requires
        0 <= a <= b <= s.len(),
        forall|j: int| 0 <= j < a ==> is_whitespace(#[trigger] s[j]),
        forall|j: int| b <= j < s.len() ==> is_whitespace(#[trigger] s[j]),
        a == s.len() || !is_whitespace(s[a]),
        a == b || !is_whitespace(s[b - 1]),
    ensures
        trimmed(s) == s.subrange(a, b),
{
    let p = |c: char| is_whitespace(c);
    lemma_trim_start_at(s, p, a);
    let rest = s.skip(a);
    assert forall|j: int| b - a <= j < rest.len() implies p(#[trigger] rest[j]) by {
        assert(is_whitespace(s[j + a]));
    }
    lemma_trim_end_at(rest, p, b - a);
    assert(rest.take(b - a) =~= s.subrange(a, b));
}

/// Where the text without leading and trailing white space lies in `cs`.
pub fn trim_bounds(cs: &[char]) -> (r: (usize, usize))
    ensures
        r.0 <= r.1 <= cs@.len(),
        cs@.subrange(r.0 as int, r.1 as int) == trimmed(cs@),
{
    let mut start: usize = 0;
    while start < cs.len() && whitespace(cs[start])
        invariant
            start <= cs@.len(),
            forall|j: int| 0 <= j < start ==> is_whitespace(#[trigger] cs@[j]),
        decreases cs@.len() - start,
    {
        start += 1;
    }
    let mut end: usize = cs.len();
    while end > start && whitespace(cs[end - 1])
        invariant
            start <= end <= cs@.len(),
            forall|j: int| end <= j < cs@.len() ==> is_whitespace(#[trigger] cs@[j]),
        decreases end,
    {
        end -= 1;
    }
    proof {
        lemma_trimmed_at(cs@, start as int, end as int);
    }
    (start, end)
}

/// `s` without white space at either end.
pub fn trim(s: &str) -> (r: &str)
    ensures
        r@ == trimmed(s@),
{
    let cs = to_chars(s);
    let (a, b) = trim_bounds(cs.as_slice());
    s.substring_char(a, b)
}

/// Whether nothing but white space is in `s`.
pub fn blank(s: &str) -> (r: bool)
    ensures
        r == is_blank(s@),
{
    let cs = to_chars(s);
    let (a, b) = trim_bounds(cs.as_slice());
    a == b
}

/// `s` without leading and trailing occurrences of `c`.
pub fn trim_char(s: &str, c: char) -> (r: &str)
    ensures
        r@ == trim_by(s@, |x: char| x == c),
{
    let cs = to_chars(s);
    let ghost p = |x: char| x == c;
    let mut start: usize = 0;
    while start < cs.len() && cs[start] == c
        invariant
            start <= cs@.len(),
            forall|j: int| 0 <= j < start ==> #[trigger] cs@[j] == c,
        decreases cs@.len() - start,
    {
        start += 1;
    }
    let mut end: usize = cs.len();
    while end > start && cs[end - 1] == c
        invariant
            start <= end <= cs@.len(),
            forall|j: int| end <= j < cs@.len() ==> #[trigger] cs@[j] == c,
        decreases end,
    {
        end -= 1;
    }
    proof {
        lemma_trim_start_at(cs@, p, start as int);
        let rest = cs@.skip(start as int);
        assert forall|j: int| end - start <= j < rest.len() implies p(#[trigger] rest[j]) by {
            assert(cs@[j + start] == c);
        }
        lemma_trim_end_at(rest, p, end - start);
        assert(rest.take(end - start) =~= cs@.subrange(start as int, end as int));
    }
    s.substring_char(start, end)
}

/// `s` without trailing occurrences of `c`.
pub fn trim_end_char(s: &str, c: char) -> (r: &str)
    ensures
        r@ == trim_end_by(s@, |x: char| x == c),
{
    let cs = to_chars(s);
    let ghost p = |x: char| x == c;
    let mut end: usize = cs.len();
    while end > 0 && cs[end - 1] == c
        invariant
            0 <= end <= cs@.len(),
            forall|j: int| end <= j < cs@.len() ==> #[trigger] cs@[j] == c,
        decreases end,
    {
        end -= 1;
    }
    proof {
        lemma_trim_end_at(cs@, p, end as int);
    }
    s.substring_char(0, end)
}

// ---------------------------------------------------------------------------
// Searching
// ---------------------------------------------------------------------------

/// The position of the first `c` in `s`, or the length of `s` without one.
pub open spec fn index_of(s: Seq<char>, c: char) -> int
    decreases s.len(),
{
    if s.len() == 0 || s[0] == c {
        0
    } else {
        1 + index_of(s.drop_first(), c)
    }
}

pub proof fn lemma_index_of(s: Seq<char>, c: char)
    ensures
        0 <= index_of(s, c) <= s.len(),
        forall|j: int| 0 <= j < index_of(s, c) ==> #[trigger] s[j] != c,
        index_of(s, c) < s.len() ==> s[index_of(s, c)] == c,
        s.contains(c) == (index_of(s, c) < s.len()),
    decreases s.len(),
{
    if s.len() > 0 && s[0] != c {
        let t = s.drop_first();
        lemma_index_of(t, c);
        assert forall|j: int| 0 <= j < index_of(s, c) implies #[trigger] s[j] != c by {
            if j > 0 {
                assert(t[j - 1] == s[j]);
            }
        }
    }
    if s.contains(c) {
        let j = choose|j: int| 0 <= j < s.len() && s[j] == c;
        assert(s[j] == c);
    }
}

pub proof fn lemma_index_of_is(s: Seq<char>, c: char, i: int)
    requires
        0 <= i <= s.len(),
        forall|j: int| 0 <= j < i ==> #[trigger] s[j] != c,
        i == s.len() || s[i] == c,
    ensures
        index_of(s, c) == i,
{
    lemma_index_of(s, c);
    let k = index_of(s, c);
    if k < i {
        assert(s[k] != c);
    } else if i < k {
        assert(s[i] != c);
    }
}

/// The position of the first `c` at or after `from`, or the length.
pub fn find_char(cs: &[char], c: char, from: usize) -> (i: usize)
    requires
        from <= cs@.len(),
    ensures
        from <= i <= cs@.len(),
        i - from == index_of(cs@.skip(from as int), c),
{
    let mut i: usize = from;
    while i < cs.len() && cs[i] != c
        invariant
            from <= i <= cs@.len(),
            forall|j: int| from <= j < i ==> #[trigger] cs@[j] != c,
        decreases cs@.len() - i,
    {
        i += 1;
    }
    proof {
        let rest = cs@.skip(from as int);
        assert forall|j: int| 0 <= j < i - from implies #[trigger] rest[j] != c by {
            assert(cs@[j + from] != c);
        }
        lemma_index_of_is(rest, c, i - from);
    }
    i
}

/// The parts of `s` before and after its first `c`.
pub open spec fn split_once(s: Seq<char>, c: char) -> Option<(Seq<char>, Seq<char>)> {
    let i = index_of(s, c);
    if i < s.len() {
        Some((s.take(i), s.skip(i + 1)))
    } else {
        None
    }
}

/// Splits `s` at its first `c`.
pub fn split_at_char(s: &str, c: char) -> (r: Option<(&str, &str)>)
    ensures
        r is Some == split_once(s@, c) is Some,
        r matches Some(p) ==> (p.0@, p.1@) == split_once(s@, c)->0,
{
    let cs = to_chars(s);
    let i: usize = find_char(cs.as_slice(), c, 0);
    proof {
        assert(cs@.skip(0) =~= s@);
    }
    if i < cs.len() {
        Some((s.substring_char(0, i), s.substring_char(i + 1, cs.len())))
    } else {
        None
    }
}

/// `pat` stands in `s` at position `i`.
pub open spec fn matches_at(s: Seq<char>, pat: Seq<char>, i: int) -> bool {
    0 <= i && i + pat.len() <= s.len() && s.subrange(i, i + pat.len()) == pat
}

pub open spec fn starts_with(s: Seq<char>, pat: Seq<char>) -> bool {
    matches_at(s, pat, 0)
}

pub open spec fn ends_with(s: Seq<char>, pat: Seq<char>) -> bool {
    matches_at(s, pat, s.len() - pat.len())
}

/// `pat` stands somewhere in `s`.
pub open spec fn has_text(s: Seq<char>, pat: Seq<char>) -> bool {
    exists|i: int| matches_at(s, pat, i)
}

pub fn chars_match_at(s: &[char], pat: &[char], i: usize) -> (r: bool)
    requires
        i <= s@.len(),
    ensures
        r == matches_at(s@, pat@, i as int),
{
    if pat.len() > s.len() - i {
        return false;
    }
    same_chars(slice_subrange(s, i, i + pat.len()), pat)
}

/// Whether `s` begins with `pat`.
pub fn begins(s: &str, pat: &str) -> (r: bool)
    ensures
        r == starts_with(s@, pat@),
{
    let a = to_chars(s);
    let b = to_chars(pat);
    chars_match_at(a.as_slice(), b.as_slice(), 0)
}

/// Whether `s` ends with `pat`.
pub fn finishes(s: &str, pat: &str) -> (r: bool)
    ensures
        r == ends_with(s@, pat@),
{
    let a = to_chars(s);
    let b = to_chars(pat);
    if b.len() > a.len() {
        return false;
    }
    chars_match_at(a.as_slice(), b.as_slice(), a.len() - b.len())
}

/// Whether `pat` stands somewhere in `s`.
pub fn holds(s: &str, pat: &str) -> (r: bool)
    ensures
        r == has_text(s@, pat@),
{
    let a = to_chars(s);
    let b = to_chars(pat);
    if b.len() > a.len() {
        return false;
    }
    let n: usize = a.len() - b.len();
    let mut i: usize = 0;
    loop
        invariant
            a@ == s@,
            b@ == pat@,
            n == a@.len() - b@.len(),
            i <= n,
            forall|j: int| 0 <= j < i ==> !#[trigger] matches_at(a@, b@, j),
        decreases n - i,
    {
        if chars_match_at(a.as_slice(), b.as_slice(), i) {
            proof {
                assert(matches_at(s@, pat@, i as int));
            }
            return true;
        }
        if i == n {
            return false;
        }
        i += 1;
    }
}

/// Whether the character `c` is in `s`.
pub fn has_char(s: &str, c: char) -> (r: bool)
    ensures
        r == s@.contains(c),
{
    let a = to_chars(s);
    let i: usize = find_char(a.as_slice(), c, 0);
    proof {
        assert(a@.skip(0) =~= a@);
        lemma_index_of(a@, c);
    }
    i < a.len()
}

// ---------------------------------------------------------------------------
// Lines
// ---------------------------------------------------------------------------

/// `s` cut after each line feed: the pieces keep their endings.
pub open spec fn segments(s: Seq<char>) -> Seq<Seq<char>>
    decreases s.len(),
{
    if s.len() == 0 {
        Seq::empty()
    } else {
        let i = index_of(s, '\n');
        if i < 0 || i >= s.len() {
            seq![s]
        } else {
            seq![s.take(i + 1)] + segments(s.skip(i + 1))
        }
    }
}

/// A line without its line feed and the carriage return before it.
pub open spec fn without_ending(line: Seq<char>) -> Seq<char> {
    if line.len() > 0 && line.last() == '\n' {
        let l = line.drop_last();
        if l.len() > 0 && l.last() == '\r' {
            l.drop_last()
        } else {
            l
        }
    } else {
        line
    }
}

/// The lines of `s`, without their endings.
pub open spec fn lines_of(s: Seq<char>) -> Seq<Seq<char>> {
    segments(s).map_values(|l: Seq<char>| without_ending(l))
}

/// One step of `segments`.
pub proof fn lemma_segments_step(s: Seq<char>)
    requires
        s.len() > 0,
    ensures
        ({
            let i = index_of(s, '\n');
            let end = if i < s.len() {
                i + 1
            } else {
                s.len() as int
            };
            &&& 0 < end <= s.len()
            &&& segments(s) == seq![s.take(end)] + segments(s.skip(end))
        }),
{
    lemma_index_of(s, '\n');
    let i = index_of(s, '\n');
    if i == s.len() {
        assert(s.take(i) =~= s);
        assert(s.skip(i) =~= Seq::empty());
        assert(seq![s] + Seq::empty() =~= seq![s]);
    }
}

/// Cuts `text` after each line feed.
pub fn split_segments(text: &str) -> (r: Vec<String>)
    ensures
        texts(r@) == segments(text@),
{
    let cs = to_chars(text);
    let mut out: Vec<String> = Vec::new();
    let mut pos: usize = 0;
    proof {
        assert(cs@.skip(0) =~= text@);
        assert(texts(out@) + segments(cs@) =~= segments(cs@));
    }
    while pos < cs.len()
        invariant
            pos <= cs@.len(),
            segments(text@) == texts(out@) + segments(cs@.skip(pos as int)),
        decreases cs@.len() - pos,
    {
        let i: usize = find_char(cs.as_slice(), '\n', pos);
        let end: usize = if i < cs.len() {
            i + 1
        } else {
            i
        };
        let ghost rest = cs@.skip(pos as int);
        let ghost before = texts(out@);
        proof {
            lemma_segments_step(rest);
            assert(rest.take(end - pos) =~= cs@.subrange(pos as int, end as int));
            assert(rest.skip(end - pos) =~= cs@.skip(end as int));
        }
        out.push(from_chars(slice_subrange(cs.as_slice(), pos, end)));
        proof {
            assert(texts(out@) =~= before.push(cs@.subrange(pos as int, end as int)));
            assert(before + (seq![rest.take(end - pos)] + segments(cs@.skip(end as int)))
                =~= texts(out@) + segments(cs@.skip(end as int)));
        }
        pos = end;
    }
    proof {
        assert(cs@.skip(pos as int) =~= Seq::empty());
        assert(texts(out@) + segments(Seq::empty()) =~= texts(out@));
    }
    out
}

/// `line` without its line feed and the carriage return before it.
pub fn strip_ending(line: &str) -> (r: String)
    ensures
        r@ == without_ending(line@),
{
    let cs = to_chars(line);
    let n: usize = cs.len();
    let mut end: usize = n;
    if n > 0 && cs[n - 1] == '\n' {
        end = n - 1;
        if end > 0 && cs[end - 1] == '\r' {
            end = end - 1;
        }
    }
    proof {
        assert(cs@.subrange(0, end as int) =~= without_ending(line@));
    }
    from_chars(slice_subrange(cs.as_slice(), 0, end))
}

/// The lines of `text`, without their endings.
pub fn split_lines(text: &str) -> (r: Vec<String>)
    ensures
        texts(r@) == lines_of(text@),
{
    let segs = split_segments(text);
    let mut out: Vec<String> = Vec::new();
    let mut i: usize = 0;
    while i < segs.len()
        invariant
            i <= segs@.len(),
            texts(segs@) == segments(text@),
            texts(out@) == lines_of(text@).take(i as int),
        decreases segs@.len() - i,
    {
        let line = strip_ending(segs[i].as_str());
        let ghost before = out@;
        proof {
            assert(segments(text@)[i as int] == texts(segs@)[i as int]);
            assert(lines_of(text@)[i as int] == without_ending(segments(text@)[i as int]));
            assert(lines_of(text@).len() == texts(segs@).len());
        }
        out.push(line);
        proof {
            assert(texts(out@) =~= texts(out@.drop_last()).push(line@));
            assert(out@.drop_last() =~= before);
            assert(texts(out@) =~= lines_of(text@).take(i + 1));
        }
        i += 1;
    }
    proof {
        assert(lines_of(text@).take(i as int) =~= lines_of(text@));
    }
    out
}

// ---------------------------------------------------------------------------
// Splitting and joining
// ---------------------------------------------------------------------------

/// `s` cut at each `c`; the pieces do not keep it.
pub open spec fn split(s: Seq<char>, c: char) -> Seq<Seq<char>>
    decreases s.len(),
{
    let i = index_of(s, c);
    if i < 0 || i >= s.len() {
        seq![s]
    } else {
        seq![s.take(i)] + split(s.skip(i + 1), c)
    }
}

/// Cuts `text` at each `c`.
pub fn split_char(text: &str, c: char) -> (r: Vec<String>)
    ensures
        texts(r@) == split(text@, c),
{
    let cs = to_chars(text);
    let mut out: Vec<String> = Vec::new();
    let mut pos: usize = 0;
    let mut done: bool = false;
    proof {
        assert(cs@.skip(0) =~= text@);
        assert(texts(out@) + split(cs@, c) =~= split(cs@, c));
    }
    while !done
        invariant
            pos <= cs@.len(),
            !done ==> split(text@, c) == texts(out@) + split(cs@.skip(pos as int), c),
            done ==> split(text@, c) == texts(out@),
        decreases cs@.len() - pos, (if done { 0int } else { 1int }),
    {
        let i: usize = find_char(cs.as_slice(), c, pos);
        let ghost rest = cs@.skip(pos as int);
        let ghost before = texts(out@);
        out.push(from_chars(slice_subrange(cs.as_slice(), pos, i)));
        proof {
            lemma_index_of(rest, c);
            assert(rest.take(i - pos) =~= cs@.subrange(pos as int, i as int));
            assert(texts(out@) =~= before.push(cs@.subrange(pos as int, i as int)));
        }
        if i < cs.len() {
            proof {
                assert(rest.skip(i - pos + 1) =~= cs@.skip(i + 1));
                assert(before + (seq![rest.take(i - pos)] + split(cs@.skip(i + 1), c))
                    =~= texts(out@) + split(cs@.skip(i + 1), c));
            }
            pos = i + 1;
        } else {
            proof {
                assert(rest.take(i - pos) =~= rest);
                assert(before + seq![rest] =~= texts(out@));
            }
            done = true;
        }
    }
    out
}

/// A separator between two texts is where they are cut.
pub proof fn lemma_split_concat(a: Seq<char>, b: Seq<char>, c: char)
    ensures
        split(a + seq![c] + b, c) == split(a, c) + split(b, c),
    decreases a.len(),
{
    let s = a + seq![c] + b;
    let i = index_of(a, c);
    lemma_index_of(a, c);
    if i < a.len() {
        assert forall|j: int| 0 <= j < i implies #[trigger] s[j] != c by {
            assert(s[j] == a[j]);
        }
        lemma_index_of_is(s, c, i);
        let rest = a.skip(i + 1);
        assert(s.skip(i + 1) =~= rest + seq![c] + b);
        lemma_split_concat(rest, b, c);
        assert(s.take(i) =~= a.take(i));
        assert(split(s, c) =~= split(a, c) + split(b, c));
    } else {
        assert forall|j: int| 0 <= j < a.len() implies #[trigger] s[j] != c by {
            assert(s[j] == a[j]);
        }
        lemma_index_of_is(s, c, a.len() as int);
        assert(s.take(a.len() as int) =~= a);
        assert(s.skip(a.len() as int + 1) =~= b);
        assert(split(s, c) =~= split(a, c) + split(b, c));
    }
}

/// Pieces that hold no separator are what their joined text is cut into.
pub proof fn lemma_split_joined(parts: Seq<Seq<char>>, c: char)
    requires
        parts.len() > 0,
        forall|i: int| 0 <= i < parts.len() ==> !(#[trigger] parts[i]).contains(c),
    ensures
        split(joined(parts, seq![c]), c) == parts,
    decreases parts.len(),
{
    let last = parts.last();
    lemma_index_of(last, c);
    if index_of(last, c) < last.len() {
        assert(last[index_of(last, c)] == c);
        assert(last.contains(c));
    }
    assert(!parts[parts.len() - 1].contains(c));
    assert(split(last, c) =~= seq![last]);
    if parts.len() == 1 {
        assert(parts =~= seq![last]);
    } else {
        let rest = parts.drop_last();
        assert forall|i: int| 0 <= i < rest.len() implies !(#[trigger] rest[i]).contains(c) by {
            assert(rest[i] == parts[i]);
        }
        lemma_split_joined(rest, c);
        lemma_split_concat(joined(rest, seq![c]), last, c);
        assert(rest + seq![last] =~= parts);
    }
}

/// `parts` with `sep` between neighbours.
pub open spec fn joined(parts: Seq<Seq<char>>, sep: Seq<char>) -> Seq<char>
    decreases parts.len(),
{
    if parts.len() == 0 {
        Seq::empty()
    } else if parts.len() == 1 {
        parts[0]
    } else {
        joined(parts.drop_last(), sep) + sep + parts.last()
    }
}

/// Joins `parts` with `sep` between neighbours.
pub fn join(parts: &[String], sep: &str) -> (r: String)
    ensures
        r@ == joined(texts(parts@), sep@),
{
    let mut out = String::new();
    let mut i: usize = 0;
    while i < parts.len()
        invariant
            i <= parts@.len(),
            out@ == joined(texts(parts@).take(i as int), sep@),
        decreases parts@.len() - i,
    {
        let ghost all = texts(parts@);
        if i > 0 {
            out.push_str(sep);
        }
        out.push_str(parts[i].as_str());
        proof {
            assert(all.take(i + 1).drop_last() =~= all.take(i as int));
            assert(all.take(i + 1).last() == parts@[i as int]@);
            if i == 0 {
                assert(all.take(1)[0] == parts@[0]@);
                assert(Seq::<char>::empty() + parts@[0]@ =~= parts@[0]@);
            }
        }
        i += 1;
    }
    proof {
        assert(texts(parts@).take(i as int) =~= texts(parts@));
    }
    out
}

/// The pieces one after the other.
pub open spec fn concat_all(parts: Seq<Seq<char>>) -> Seq<char>
    decreases parts.len(),
{
    if parts.len() == 0 {
        Seq::empty()
    } else {
        concat_all(parts.drop_last()) + parts.last()
    }
}

pub proof fn lemma_concat_all_add(a: Seq<Seq<char>>, b: Seq<Seq<char>>)
    ensures
        concat_all(a + b) == concat_all(a) + concat_all(b),
    decreases b.len(),
{
    if b.len() == 0 {
        assert(a + b =~= a);
        assert(concat_all(a) + Seq::<char>::empty() =~= concat_all(a));
    } else {
        lemma_concat_all_add(a, b.drop_last());
        assert((a + b).drop_last() =~= a + b.drop_last());
        assert((a + b).last() == b.last());
        assert(concat_all(a) + (concat_all(b.drop_last()) + b.last()) =~= (concat_all(a)
            + concat_all(b.drop_last())) + b.last());
    }
}

/// Cutting a text after its line feeds and putting the pieces back gives the text.
pub proof fn lemma_segments_concat(s: Seq<char>)
    ensures
        concat_all(segments(s)) == s,
    decreases s.len(),
{
    if s.len() > 0 {
        lemma_segments_step(s);
        let i = index_of(s, '\n');
        let end = if i < s.len() {
            i + 1
        } else {
            s.len() as int
        };
        lemma_segments_concat(s.skip(end));
        lemma_concat_all_add(seq![s.take(end)], segments(s.skip(end)));
        assert(seq![s.take(end)].drop_last() =~= Seq::<Seq<char>>::empty());
        assert(concat_all(seq![s.take(end)]) =~= s.take(end)) by {
            reveal_with_fuel(concat_all, 2);
        }
        assert(s.take(end) + s.skip(end) =~= s);
    }
}

/// Puts the pieces one after the other.
pub fn concat_texts(parts: &[String]) -> (r: String)
    ensures
        r@ == concat_all(texts(parts@)),
{
    let mut out = String::new();
    let mut i: usize = 0;
    while i < parts.len()
        invariant
            i <= parts@.len(),
            out@ == concat_all(texts(parts@).take(i as int)),
        decreases parts@.len() - i,
    {
        out.push_str(parts[i].as_str());
        proof {
            let all = texts(parts@);
            assert(all.take(i + 1).drop_last() =~= all.take(i as int));
            assert(all.take(i + 1).last() == parts@[i as int]@);
        }
        i += 1;
    }
    proof {
        assert(texts(parts@).take(i as int) =~= texts(parts@));
    }
    out
}

// ---------------------------------------------------------------------------
// Numbers
// ---------------------------------------------------------------------------

/// The character of a decimal digit.
pub open spec fn digit(d: nat) -> char {
    (48 + d) as char
}

/// The decimal numeral of `n`.
pub open spec fn decimal(n: nat) -> Seq<char>
    decreases n,
{
    if n < 10 {
        seq![digit(n)]
    } else {
        decimal(n / 10).push(digit(n % 10))
    }
}

/// The decimal numeral of a signed number.
pub open spec fn signed_decimal(n: int) -> Seq<char> {
    if n < 0 {
        seq!['-'] + decimal((-n) as nat)
    } else {
        decimal(n as nat)
    }
}

fn digit_char(d: u8) -> (c: char)
    requires
        d < 10,
    ensures
        c == digit(d as nat),
{
    (48u8 + d) as char
}

/// Writes `n` in decimal.
pub fn decimal_text(n: u128) -> (s: String)
    ensures
        s@ == decimal(n as nat),
    decreases n,
{
    if n < 10 {
        let mut out = String::new();
        out.push(digit_char(n as u8));
        out
    } else {
        let mut out = decimal_text(n / 10);
        out.push(digit_char((n % 10) as u8));
        out
    }
}

/// Writes `n` in decimal.
pub fn usize_text(n: usize) -> (s: String)
    ensures
        s@ == decimal(n as nat),
{
    decimal_text(n as u128)
}

/// Writes the number behind `n` in decimal.
pub fn successor_text(n: usize) -> (s: String)
    ensures
        s@ == decimal((n + 1) as nat),
{
    decimal_text(n as u128 + 1)
}

/// Writes a signed number in decimal.
pub fn signed_text(n: i64) -> (s: String)
    ensures
        s@ == signed_decimal(n as int),
{
    if n >= 0 {
        decimal_text(n as u128)
    } else {
        let magnitude: u128 = (-(n + 1)) as u128 + 1;
        let digits = decimal_text(magnitude);
        let mut out = String::new();
        out.push('-');
        out.push_str(digits.as_str());
        out
    }
}

pub open spec fn is_digit(c: char) -> bool {
    48 <= c as u32 <= 57
}

/// The value of a run of decimal digits.
pub open spec fn digits_value(s: Seq<char>) -> nat
    decreases s.len(),
{
    if s.len() == 0 {
        0
    } else {
        digits_value(s.drop_last()) * 10 + (s.last() as u32 - 48) as nat
    }
}

pub open spec fn all_digits(s: Seq<char>) -> bool {
    forall|i: int| 0 <= i < s.len() ==> is_digit(#[trigger] s[i])
}

/// `s` without a leading plus sign.
pub open spec fn unsigned(s: Seq<char>) -> Seq<char> {
    if s.len() > 0 && s[0] == '+' {
        s.skip(1)
    } else {
        s
    }
}

/// The number that `s` writes: digits, with at most one leading plus sign.
pub open spec fn parsed_nat(s: Seq<char>) -> Option<nat> {
    let body = unsigned(s);
    if body.len() > 0 && all_digits(body) {
        Some(digits_value(body))
    } else {
        None
    }
}

/// The number that `s` writes, where it is at most `max`.
pub open spec fn parsed_upto(s: Seq<char>, max: nat) -> Option<nat> {
    match parsed_nat(s) {
        Some(n) => if n <= max {
            Some(n)
        } else {
            None
        },
        None => None,
    }
}

/// Reads a decimal number of at most `max`.
pub fn parse_upto(s: &str, max: u64) -> (r: Option<u64>)
    ensures
        r is Some == parsed_upto(s@, max as nat) is Some,
        r matches Some(n) ==> n == parsed_upto(s@, max as nat)->0,
{
    let cs = to_chars(s);
    let start: usize = if cs.len() > 0 && cs[0] == '+' {
        1
    } else {
        0
    };
    let ghost body = unsigned(s@);
    proof {
        assert(s@.skip(start as int) =~= body);
    }
    if start == cs.len() {
        return None;
    }
    let mut value: u64 = 0;
    let mut i: usize = start;
    let mut fits: bool = true;
    while i < cs.len()
        invariant
            start <= i <= cs@.len(),
            cs@ == s@,
            body == cs@.skip(start as int),
            body == unsigned(s@),
            forall|j: int| 0 <= j < i - start ==> is_digit(#[trigger] body[j]),
            fits ==> value == digits_value(body.take(i - start)) && value <= max,
            !fits ==> digits_value(body.take(i - start)) > max,
        decreases cs@.len() - i,
    {
        let code: u32 = cs[i] as u32;
        if code < 48 || code > 57 {
            proof {
                assert(body[i - start] == cs@[i as int]);
                assert(!is_digit(body[i - start]));
            }
            return None;
        }
        proof {
            assert(body.take(i - start + 1).drop_last() =~= body.take(i - start));
            assert(body.take(i - start + 1).last() == cs@[i as int]);
        }
        let d: u64 = (code - 48) as u64;
        if fits {
            if d > max || value > (max - d) / 10 {
                fits = false;
            } else {
                value = value * 10 + d;
            }
        }
        i += 1;
    }
    proof {
        assert(body.take(i - start) =~= body);
    }
    if fits {
        Some(value)
    } else {
        None
    }
}

/// Reads a `usize` as `str::parse` does.
pub fn parse_usize(s: &str) -> (r: Option<usize>)
    ensures
        r is Some == parsed_upto(s@, usize::MAX as nat) is Some,
        r matches Some(n) ==> n == parsed_upto(s@, usize::MAX as nat)->0,
{
    match parse_upto(s, usize::MAX as u64) {
        Some(n) => Some(n as usize),
        None => None,
    }
}

/// A numeral consists of digits and writes the number that it was made from.
pub proof fn lemma_decimal(n: nat)
    ensures
        decimal(n).len() > 0,
        all_digits(decimal(n)),
        digits_value(decimal(n)) == n,
        parsed_nat(decimal(n)) == Some(n),
    decreases n,
{
    let s = decimal(n);
    if n < 10 {
        assert(s.drop_last() =~= Seq::empty());
        assert(s.last() == digit(n));
        reveal_with_fuel(digits_value, 2);
    } else {
        lemma_decimal(n / 10);
        assert(s.drop_last() =~= decimal(n / 10));
        assert(s.last() == digit(n % 10));
        assert forall|i: int| 0 <= i < s.len() implies is_digit(#[trigger] s[i]) by {
            if i < s.len() - 1 {
                assert(s[i] == decimal(n / 10)[i]);
            }
        }
    }
    assert(is_digit(s[0]));
}

// ---------------------------------------------------------------------------
// Order
// ---------------------------------------------------------------------------

/// The order of texts by their characters, which is also that of their bytes.
pub open spec fn text_less(a: Seq<char>, b: Seq<char>) -> bool
    decreases a.len(),
{
    if b.len() == 0 {
        false
    } else if a.len() == 0 {
        true
    } else if a[0] == b[0] {
        text_less(a.drop_first(), b.drop_first())
    } else {
        (a[0] as u32) < (b[0] as u32)
    }
}

pub proof fn lemma_text_less_total(a: Seq<char>, b: Seq<char>)
    ensures
        a == b || text_less(a, b) || text_less(b, a),
        !(text_less(a, b) && text_less(b, a)),
        a == b ==> !text_less(a, b),
    decreases a.len(),
{
    if a.len() > 0 && b.len() > 0 && a[0] == b[0] {
        lemma_text_less_total(a.drop_first(), b.drop_first());
        if a.drop_first() == b.drop_first() {
            assert(a =~= seq![a[0]] + a.drop_first());
            assert(b =~= seq![b[0]] + b.drop_first());
        }
    } else if a.len() == 0 && b.len() == 0 {
        assert(a =~= b);
    } else if a.len() > 0 && b.len() > 0 {
        vstd::utf8::char_u32_cast(a[0], a[0] as u32);
        vstd::utf8::char_u32_cast(b[0], b[0] as u32);
    }
}

pub proof fn lemma_text_less_trans(a: Seq<char>, b: Seq<char>, c: Seq<char>)
    requires
        text_less(a, b),
        text_less(b, c),
    ensures
        text_less(a, c),
    decreases a.len(),
{
    if a.len() > 0 && a[0] == b[0] && b[0] == c[0] {
        lemma_text_less_trans(a.drop_first(), b.drop_first(), c.drop_first());
    }
}

/// Whether `a` comes before `b`.
pub fn less(a: &str, b: &str) -> (r: bool)
    ensures
        r == text_less(a@, b@),
{
    let x = to_chars(a);
    let y = to_chars(b);
    let mut i: usize = 0;
    proof {
        assert(x@.skip(0) =~= x@);
        assert(y@.skip(0) =~= y@);
    }
    while i < x.len() && i < y.len() && x[i] == y[i]
        invariant
            i <= x@.len(),
            i <= y@.len(),
            text_less(x@, y@) == text_less(x@.skip(i as int), y@.skip(i as int)),
        decreases x@.len() - i,
    {
        proof {
            let u = x@.skip(i as int);
            let v = y@.skip(i as int);
            assert(u[0] == x@[i as int] && v[0] == y@[i as int]);
            assert(u.drop_first() =~= x@.skip(i + 1));
            assert(v.drop_first() =~= y@.skip(i + 1));
        }
        i += 1;
    }
    if i == y.len() {
        return false;
    }
    if i == x.len() {
        return true;
    }
    proof {
        assert(x@.skip(i as int)[0] == x@[i as int]);
        assert(y@.skip(i as int)[0] == y@[i as int]);
    }
    (x[i] as u32) < (y[i] as u32)
}

// ---------------------------------------------------------------------------
// Occurrences
// ---------------------------------------------------------------------------

/// The first position from `from` on at which `pat` stands in `s`.
pub open spec fn first_match(s: Seq<char>, pat: Seq<char>, from: int) -> Option<int>
    decreases s.len() + 1 - from,
{
    if from < 0 || from > s.len() {
        None
    } else if matches_at(s, pat, from) {
        Some(from)
    } else {
        first_match(s, pat, from + 1)
    }
}

pub proof fn lemma_first_match(s: Seq<char>, pat: Seq<char>, from: int)
    requires
        0 <= from,
    ensures
        first_match(s, pat, from) matches Some(i) ==> from <= i && matches_at(s, pat, i),
        first_match(s, pat, from) matches Some(i) ==> forall|j: int|
            from <= j < i ==> !#[trigger] matches_at(s, pat, j),
        first_match(s, pat, from) is None ==> forall|j: int|
            from <= j ==> !#[trigger] matches_at(s, pat, j),
    decreases s.len() + 1 - from,
{
    if from <= s.len() && !matches_at(s, pat, from) {
        lemma_first_match(s, pat, from + 1);
    }
}

/// Finds the first position from `from` on at which `pat` stands in `s`.
pub fn find_match(s: &[char], pat: &[char], from: usize) -> (r: Option<usize>)
    requires
        from <= s@.len(),
    ensures
        match r {
            Some(i) => first_match(s@, pat@, from as int) == Some(i as int) && from <= i && i
                + pat@.len() <= s@.len(),
            None => first_match(s@, pat@, from as int) is None,
        },
{
    let mut i: usize = from;
    loop
        invariant
            from <= i <= s@.len(),
            first_match(s@, pat@, from as int) == first_match(s@, pat@, i as int),
        decreases s@.len() - i,
    {
        if chars_match_at(s, pat, i) {
            return Some(i);
        }
        if i == s.len() {
            proof {
                assert(first_match(s@, pat@, i + 1) is None);
            }
            return None;
        }
        i += 1;
    }
}

/// How often `pat` stands in `s`, from position `from` on, without overlaps. An
/// empty `pat` stands before every character and at the end.
pub open spec fn count_from(s: Seq<char>, pat: Seq<char>, from: int) -> nat
    decreases s.len() + 1 - from,
{
    match first_match(s, pat, from) {
        Some(i) => if i < from || i + pat.len() > s.len() {
            0
        } else if pat.len() == 0 {
            1 + count_from(s, pat, i + 1)
        } else {
            1 + count_from(s, pat, i + pat.len())
        },
        None => 0,
    }
}

/// How often `pat` stands in `s`, without overlaps.
pub open spec fn count_of(s: Seq<char>, pat: Seq<char>) -> nat {
    count_from(s, pat, 0)
}

/// Counts how often `pat` stands in `s`, without overlaps.
pub fn count_matches(s: &[char], pat: &[char]) -> (n: u128)
    ensures
        n == count_of(s@, pat@),
{
    let mut n: u128 = 0;
    let mut from: usize = 0;
    let total: usize = s.len();
    loop
        invariant
            from <= s@.len(),
            total == s@.len(),
            n <= from,
            count_of(s@, pat@) == n + count_from(s@, pat@, from as int),
        decreases s@.len() - from,
    {
        match find_match(s, pat, from) {
            Some(i) => {
                n = n + 1;
                if pat.len() == 0 {
                    if i == s.len() {
                        proof {
                            assert(first_match(s@, pat@, s@.len() as int + 1) is None);
                            assert(count_from(s@, pat@, s@.len() as int + 1) == 0);
                        }
                        return n;
                    }
                    from = i + 1;
                } else {
                    from = i + pat.len();
                }
            },
            None => {
                return n;
            },
        }
    }
}

/// `s` with the text from `start` up to `end` replaced.
pub open spec fn spliced(s: Seq<char>, start: int, end: int, replacement: Seq<char>) -> Seq<char> {
    s.take(start) + replacement + s.skip(end)
}

/// Appends a copy of `s` to a list of strings.
pub fn push_text(list: &mut Vec<String>, s: &str)
    ensures
        texts(final(list)@) == texts(old(list)@).push(s@),
        final(list)@.len() == old(list)@.len() + 1,
{
    let ghost before = texts(list@);
    list.push(owned(s));
    proof {
        assert(texts(list@) =~= before.push(s@));
    }
}

/// Appends a string to a list of strings.
pub fn push_string(list: &mut Vec<String>, s: String)
    ensures
        texts(final(list)@) == texts(old(list)@).push(s@),
        final(list)@.len() == old(list)@.len() + 1,
{
    let ghost before = texts(list@);
    let ghost shown = s@;
    list.push(s);
    proof {
        assert(texts(list@) =~= before.push(shown));
    }
}

/// The texts of a list of string slices.
pub open spec fn slice_texts(list: Seq<&str>) -> Seq<Seq<char>> {
    Seq::new(list.len(), |i: int| list[i]@)
}

/// Appends copies of the texts of `more` to a list of strings.
pub fn push_all(list: &mut Vec<String>, more: &[&str])
    ensures
        texts(final(list)@) == texts(old(list)@) + slice_texts(more@),
{
    let ghost start = texts(list@);
    let ghost extra = slice_texts(more@);
    let mut i: usize = 0;
    proof {
        assert(start + extra.take(0) =~= start);
    }
    while i < more.len()
        invariant
            i <= more@.len(),
            extra == slice_texts(more@),
            texts(list@) == start + extra.take(i as int),
        decreases more@.len() - i,
    {
        push_text(list, more[i]);
        proof {
            assert(start + extra.take(i + 1) =~= (start + extra.take(i as int)).push(
                extra[i as int],
            ));
        }
        i += 1;
    }
    proof {
        assert(extra.take(i as int) =~= extra);
    }
}

/// Appends copies of the strings of `more` to a list of strings.
pub fn push_texts(list: &mut Vec<String>, more: &[String])
    ensures
        texts(final(list)@) == texts(old(list)@) + texts(more@),
{
    let ghost start = texts(list@);
    let ghost extra = texts(more@);
    let mut i: usize = 0;
    proof {
        assert(start + extra.take(0) =~= start);
    }
    while i < more.len()
        invariant
            i <= more@.len(),
            extra == texts(more@),
            texts(list@) == start + extra.take(i as int),
        decreases more@.len() - i,
    {
        push_text(list, more[i].as_str());
        proof {
            assert(extra.take(i + 1) =~= extra.take(i as int).push(more@[i as int]@));
            assert(texts(list@) =~= start + extra.take(i + 1));
        }
        i += 1;
    }
    proof {
        assert(extra.take(i as int) =~= extra);
    }
}

/// A new, empty list of strings.
pub fn no_texts() -> (list: Vec<String>)
    ensures
        texts(list@) == Seq::<Seq<char>>::empty(),
{
    let list: Vec<String> = Vec::new();
    proof {
        assert(texts(list@) =~= Seq::empty());
    }
    list
}

// ---------------------------------------------------------------------------
// Case and white space
// ---------------------------------------------------------------------------

/// A letter of ASCII in its small form.
pub open spec fn ascii_lower(c: char) -> char {
    if 'A' <= c && c <= 'Z' {
        ((c as u32) + 32) as char
    } else {
        c
    }
}

/// A text with its ASCII letters in their small form.
pub open spec fn ascii_lowered(s: Seq<char>) -> Seq<char> {
    s.map_values(|c: char| ascii_lower(c))
}

/// A letter of ASCII in its small form.
pub fn lower(c: char) -> (r: char)
    ensures
        r == ascii_lower(c),
{
    if 'A' <= c && c <= 'Z' {
        proof {
            vstd::utf8::char_u32_cast(c, c as u32);
        }
        ((c as u8) + 32) as char
    } else {
        c
    }
}

/// A text with its ASCII letters in their small form.
pub fn lower_text(s: &str) -> (r: String)
    ensures
        r@ == ascii_lowered(s@),
{
    let cs = to_chars(s);
    let mut out = String::new();
    let mut i: usize = 0;
    while i < cs.len()
        invariant
            cs@ == s@,
            i <= cs@.len(),
            out@ == ascii_lowered(s@).take(i as int),
        decreases cs@.len() - i,
    {
        out.push(lower(cs[i]));
        proof {
            assert(ascii_lowered(s@).take(i + 1) =~= ascii_lowered(s@).take(i as int).push(
                ascii_lower(s@[i as int]),
            ));
        }
        i += 1;
    }
    proof {
        assert(ascii_lowered(s@).take(i as int) =~= ascii_lowered(s@));
    }
    out
}

/// `s` holds a white-space character.
pub open spec fn has_blank(s: Seq<char>) -> bool {
    exists|i: int| 0 <= i < s.len() && is_whitespace(#[trigger] s[i])
}

/// Whether `s` holds a white-space character.
pub fn any_blank(s: &str) -> (r: bool)
    ensures
        r == has_blank(s@),
{
    let cs = to_chars(s);
    let mut i: usize = 0;
    while i < cs.len()
        invariant
            i <= cs@.len(),
            cs@ == s@,
            forall|j: int| 0 <= j < i ==> !is_whitespace(#[trigger] s@[j]),
        decreases cs@.len() - i,
    {
        if whitespace(cs[i]) {
            proof {
                assert(is_whitespace(s@[i as int]));
            }
            return true;
        }
        i += 1;
    }
    false
}

/// A text in its small form.
pub uninterp spec fn lowercase(s: Seq<char>) -> Seq<char>;

/// Calls `str::to_lowercase`. Claims that the result depends on the text alone.
#[verifier::external_body]
pub(crate) fn to_lowercase(s: &str) -> (r: String)
    ensures
        r@ == lowercase(s@),
{
    s.to_lowercase()
}

// ---------------------------------------------------------------------------
// Sorting
// ---------------------------------------------------------------------------

/// A sorted list with another text, behind those that are not greater.
pub open spec fn inserted(list: Seq<Seq<char>>, s: Seq<char>) -> Seq<Seq<char>>
    decreases list.len(),
{
    if list.len() == 0 || !text_less(s, list.last()) {
        list.push(s)
    } else {
        inserted(list.drop_last(), s).push(list.last())
    }
}

/// The texts in order.
pub open spec fn sorted(list: Seq<Seq<char>>) -> Seq<Seq<char>>
    decreases list.len(),
{
    if list.len() == 0 {
        Seq::empty()
    } else {
        inserted(sorted(list.drop_last()), list.last())
    }
}

/// Whether no text is less than one before it.
pub open spec fn in_order(list: Seq<Seq<char>>) -> bool {
    forall|i: int, j: int|
        0 <= i < j < list.len() ==> !text_less(#[trigger] list[j], #[trigger] list[i])
}

proof fn lemma_inserted(list: Seq<Seq<char>>, s: Seq<char>)
    requires
        in_order(list),
    ensures
        in_order(inserted(list, s)),
        inserted(list, s).len() == list.len() + 1,
        inserted(list, s).to_multiset() == list.to_multiset().insert(s),
        forall|i: int|
            0 <= i < inserted(list, s).len() ==> inserted(list, s)[i] == s || exists|j: int|
                0 <= j < list.len() && inserted(list, s)[i] == #[trigger] list[j],
    decreases list.len(),
{
    broadcast use vstd::seq_lib::group_to_multiset_ensures;

    let all = inserted(list, s);
    if list.len() == 0 || !text_less(s, list.last()) {
        assert forall|i: int, j: int| 0 <= i < j < all.len() implies !text_less(
            #[trigger] all[j],
            #[trigger] all[i],
        ) by {
            if j == list.len() {
                let last = list.last();
                if i < list.len() - 1 {
                    assert(!text_less(list[list.len() - 1], list[i]));
                    if text_less(s, list[i]) {
                        lemma_text_less_total(last, list[i]);
                        lemma_text_less_total(s, last);
                        if last == list[i] {
                        } else if last == s {
                        } else {
                            lemma_text_less_trans(s, list[i], last);
                        }
                    }
                }
            } else {
                assert(all[i] == list[i] && all[j] == list[j]);
            }
        }
        assert forall|i: int| 0 <= i < all.len() implies all[i] == s || exists|j: int|
            0 <= j < list.len() && all[i] == #[trigger] list[j] by {
            if i < list.len() {
                assert(all[i] == list[i]);
            }
        }
    } else {
        let front = list.drop_last();
        let last = list.last();
        assert forall|i: int, j: int| 0 <= i < j < front.len() implies !text_less(
            #[trigger] front[j],
            #[trigger] front[i],
        ) by {
            assert(front[i] == list[i] && front[j] == list[j]);
        }
        lemma_inserted(front, s);
        let inner = inserted(front, s);
        assert forall|i: int, j: int| 0 <= i < j < all.len() implies !text_less(
            #[trigger] all[j],
            #[trigger] all[i],
        ) by {
            if j == inner.len() {
                assert(all[i] == inner[i]);
                if inner[i] == s {
                    lemma_text_less_total(s, last);
                } else {
                    let k = choose|k: int| 0 <= k < front.len() && inner[i] == front[k];
                    assert(front[k] == list[k]);
                    assert(!text_less(list[list.len() - 1], list[k]));
                }
            } else {
                assert(all[i] == inner[i] && all[j] == inner[j]);
            }
        }
        assert(list =~= front.push(last));
        assert(all.to_multiset() =~= list.to_multiset().insert(s));
        assert forall|i: int| 0 <= i < all.len() implies all[i] == s || exists|j: int|
            0 <= j < list.len() && all[i] == #[trigger] list[j] by {
            if i < inner.len() {
                assert(all[i] == inner[i]);
                if inner[i] != s {
                    let k = choose|k: int| 0 <= k < front.len() && inner[i] == front[k];
                    assert(front[k] == list[k]);
                }
            } else {
                assert(all[i] == list[list.len() - 1]);
            }
        }
    }
}

/// Sorting puts the same texts in order.
pub proof fn law_sorting_orders_the_same_texts(list: Seq<Seq<char>>)
    ensures
        in_order(sorted(list)),
        sorted(list).to_multiset() == list.to_multiset(),
    decreases list.len(),
{
    broadcast use vstd::seq_lib::group_to_multiset_ensures;

    if list.len() > 0 {
        law_sorting_orders_the_same_texts(list.drop_last());
        lemma_inserted(sorted(list.drop_last()), list.last());
        assert(list =~= list.drop_last().push(list.last()));
    } else {
        assert(list =~= Seq::empty());
    }
}

/// Puts a text into a sorted list.
pub fn insert_text(list: &mut Vec<String>, s: &str)
    ensures
        texts(final(list)@) == inserted(texts(old(list)@), s@),
{
    let ghost all = texts(list@);
    let mut k: usize = list.len();
    let ghost mut tail: Seq<Seq<char>> = Seq::empty();
    proof {
        assert(all.take(k as int) =~= all);
        assert(inserted(all, s@) + tail =~= inserted(all, s@));
        assert(all.skip(k as int) =~= tail);
    }
    while k > 0 && less(s, list[k - 1].as_str())
        invariant
            k <= list@.len(),
            all == texts(list@),
            tail == all.skip(k as int),
            inserted(all, s@) == inserted(all.take(k as int), s@) + tail,
        decreases k,
    {
        proof {
            let front = all.take(k as int);
            assert(front.last() == list@[k - 1]@);
            assert(front.drop_last() =~= all.take(k - 1));
            assert(inserted(front, s@) + tail =~= inserted(all.take(k - 1), s@) + (seq![
                front.last(),
            ] + tail));
            tail = seq![front.last()] + tail;
            assert(tail =~= all.skip(k - 1));
        }
        k -= 1;
    }
    proof {
        let front = all.take(k as int);
        if k > 0 {
            assert(front.last() == list@[k - 1]@);
        }
        assert(inserted(front, s@) == front.push(s@));
        assert(front.push(s@) + tail =~= all.insert(k as int, s@));
    }
    list.insert(k, owned(s));
    proof {
        assert(texts(list@) =~= all.insert(k as int, s@));
    }
}

/// Sorts texts.
pub fn sort(list: &[String]) -> (r: Vec<String>)
    ensures
        texts(r@) == sorted(texts(list@)),
{
    let ghost all = texts(list@);
    let mut out = no_texts();
    let mut i: usize = 0;
    proof {
        assert(all.take(0) =~= Seq::empty());
    }
    while i < list.len()
        invariant
            i <= list@.len(),
            all == texts(list@),
            texts(out@) == sorted(all.take(i as int)),
        decreases list@.len() - i,
    {
        insert_text(&mut out, list[i].as_str());
        proof {
            assert(all.take(i + 1).drop_last() =~= all.take(i as int));
            assert(all.take(i + 1).last() == list@[i as int]@);
        }
        i += 1;
    }
    proof {
        assert(all.take(i as int) =~= all);
    }
    out
}

/// Whether texts are the lines of one text: each has its line feed at the end and
/// nowhere else; only the last one may lack it.
pub open spec fn are_lines(lines: Seq<Seq<char>>) -> bool {
    &&& forall|i: int| 0 <= i < lines.len() ==> (#[trigger] lines[i]).len() > 0
    &&& forall|i: int, j: int|
        #![trigger lines[i][j]]
        0 <= i < lines.len() && 0 <= j < lines[i].len() - 1 ==> lines[i][j] != '\n'
    &&& forall|i: int|
        0 <= i < lines.len() - 1 ==> (#[trigger] lines[i])[lines[i].len() - 1] == '\n'
}

/// Lines that are written one behind the other are told apart again.
pub proof fn law_lines_are_told_apart(lines: Seq<Seq<char>>)
    requires
        are_lines(lines),
    ensures
        segments(concat_all(lines)) == lines,
    decreases lines.len(),
{
    let s = concat_all(lines);
    if lines.len() == 0 {
        assert(segments(s) =~= lines);
    } else {
        let first = lines[0];
        let rest = lines.drop_first();
        assert forall|i: int| 0 <= i < rest.len() implies (#[trigger] rest[i]).len() > 0 by {
            assert(lines[i + 1].len() > 0);
        }
        assert forall|i: int, j: int|
            #![trigger rest[i][j]]
            0 <= i < rest.len() && 0 <= j < rest[i].len() - 1 implies rest[i][j] != '\n' by {
            assert(lines[i + 1][j] != '\n');
        }
        assert forall|i: int| 0 <= i < rest.len() - 1 implies (#[trigger] rest[i])[rest[i].len()
            - 1] == '\n' by {
            assert(lines[i + 1][lines[i + 1].len() - 1] == '\n');
        }
        law_lines_are_told_apart(rest);
        assert(lines =~= seq![first] + rest);
        lemma_concat_all_add(seq![first], rest);
        assert(seq![first].drop_last() =~= Seq::empty());
        assert(concat_all(seq![first]) =~= first) by {
            reveal_with_fuel(concat_all, 2);
        }
        assert(s == first + concat_all(rest));
        let n = first.len() as int;
        let end = if first[n - 1] == '\n' {
            n - 1
        } else {
            n
        };
        if rest.len() == 0 {
            assert(concat_all(rest).len() == 0);
        }
        assert forall|j: int| 0 <= j < end implies #[trigger] s[j] != '\n' by {
            assert(s[j] == first[j]);
        }
        lemma_index_of_is(s, '\n', end);
        lemma_segments_step(s);
        assert(s.take(n) =~= first);
        assert(s.skip(n) =~= concat_all(rest));
    }
}

/// A text is made of its lines.
pub proof fn law_texts_are_made_of_lines(s: Seq<char>)
    ensures
        concat_all(segments(s)) == s,
        are_lines(segments(s)),
    decreases s.len(),
{
    lemma_segments_concat(s);
    if s.len() > 0 {
        lemma_segments_step(s);
        lemma_index_of(s, '\n');
        let i = index_of(s, '\n');
        let end = if i < s.len() {
            i + 1
        } else {
            s.len() as int
        };
        let rest = s.skip(end);
        law_texts_are_made_of_lines(rest);
        let lines = segments(s);
        let more = segments(rest);
        assert(lines == seq![s.take(end)] + more);
        if end == s.len() {
            assert(more.len() == 0);
        }
        assert forall|k: int| 1 <= k < lines.len() implies #[trigger] lines[k] == more[k - 1] by {}
    }
}

/// A line ends with a line feed, or with a carriage return and a line feed: neither
/// belongs to what it says.
pub proof fn law_line_endings_are_taken_off(line: Seq<char>)
    ensures
        line.len() == 0 || line.last() != '\r' ==> without_ending(line.push('\n')) == line,
        without_ending(line.push('\r').push('\n')) == line,
        line.len() == 0 || line.last() != '\n' ==> without_ending(line) == line,
{
    assert(line.push('\n').drop_last() =~= line);
    assert(line.push('\r').push('\n').drop_last() =~= line.push('\r'));
    assert(line.push('\r').drop_last() =~= line);
}

/// White space at either end is taken off, and nothing else.
pub proof fn law_blanks_are_trimmed(before: Seq<char>, s: Seq<char>, after: Seq<char>)
    requires
        forall|i: int| 0 <= i < before.len() ==> is_whitespace(#[trigger] before[i]),
        forall|i: int| 0 <= i < after.len() ==> is_whitespace(#[trigger] after[i]),
        s.len() > 0,
        !is_whitespace(s[0]),
        !is_whitespace(s.last()),
    ensures
        trimmed(before + s + after) == s,
        is_blank(before),
        !is_blank(before + s + after),
{
    let all = before + s + after;
    let a = before.len() as int;
    let b = a + s.len();
    assert(all[a] == s[0] && all[b - 1] == s.last());
    assert forall|j: int| 0 <= j < a implies is_whitespace(#[trigger] all[j]) by {
        assert(all[j] == before[j]);
    }
    assert forall|j: int| b <= j < all.len() implies is_whitespace(#[trigger] all[j]) by {
        assert(all[j] == after[j - b]);
    }
    lemma_trimmed_at(all, a, b);
    assert(all.subrange(a, b) =~= s);
    lemma_trim_start_at(before, |c: char| is_whitespace(c), a);
    assert(before.skip(a) =~= Seq::empty());
}

/// Numbers are written with the digits `0` to `9`, the highest place first, without
/// needless zeros, and with a sign only where they are negative. They are read back as
/// what they were, as far as they are allowed to be that large.
pub proof fn law_numbers_are_written_in_tens(n: nat, d: nat, max: nat)
    requires
        d < 10,
    ensures
        decimal(d) == seq!["0123456789"@[d as int]],
        n > 0 ==> decimal(10 * n + d) == decimal(n) + decimal(d),
        signed_decimal(n as int) == decimal(n),
        n > 0 ==> signed_decimal(-(n as int)) == seq!['-'] + decimal(n),
        n <= max ==> parsed_upto(decimal(n), max) == Some(n),
        n > max ==> parsed_upto(decimal(n), max) is None,
{
    reveal_strlit("0123456789");
    lemma_decimal(n);
    assert(digit(d) == "0123456789"@[d as int]);
    if n > 0 {
        let m = 10 * n + d;
        assert(m / 10 == n && m % 10 == d);
        assert(decimal(m) =~= decimal(n) + decimal(d));
    }
}

/// What holds something else than digits behind an optional sign is no number.
pub proof fn law_only_digits_are_numbers(s: Seq<char>, i: int, max: nat)
    requires
        0 <= i < s.len(),
        !("0123456789"@.contains(s[i])),
        i > 0 || s[i] != '+',
    ensures
        parsed_upto(s, max) is None,
        parsed_upto(Seq::empty(), max) is None,
{
    reveal_strlit("0123456789");
    let body = unsigned(s);
    let j = i - (s.len() - body.len());
    let c = s[i];
    assert(body[j] == c);
    if is_digit(c) {
        let k = c as u32 as int - 48;
        vstd::utf8::char_u32_cast(c, c as u32);
        vstd::utf8::char_u32_cast("0123456789"@[k], "0123456789"@[k] as u32);
        assert("0123456789"@[k] == c);
    }
}

/// Texts are ordered by the first character in which they differ; one that begins
/// another comes before it.
pub proof fn law_texts_are_ordered_by_characters(
    common: Seq<char>,
    x: char,
    y: char,
    a: Seq<char>,
    b: Seq<char>,
)
    ensures
        (x as u32) < (y as u32) ==> text_less(common.push(x) + a, common.push(y) + b),
        (x as u32) < (y as u32) ==> !text_less(common.push(y) + b, common.push(x) + a),
        text_less(common, common.push(x) + a),
        !text_less(common.push(x) + a, common),
        !text_less(common, common),
    decreases common.len(),
{
    let p = common.push(x) + a;
    let q = common.push(y) + b;
    if common.len() > 0 {
        let rest = common.drop_first();
        law_texts_are_ordered_by_characters(rest, x, y, a, b);
        assert(p.drop_first() =~= rest.push(x) + a);
        assert(q.drop_first() =~= rest.push(y) + b);
        assert(p[0] == common[0] && q[0] == common[0]);
    } else {
        assert(p[0] == x && q[0] == y);
    }
}

/// A text takes as many bytes as its encoding has, and that of two texts takes what
/// both take.
pub proof fn law_lengths_are_counted_in_bytes(a: Seq<char>, b: Seq<char>)
    ensures
        utf8_len(a) == vstd::utf8::encode_utf8(a).len(),
        utf8_len(a + b) == utf8_len(a) + utf8_len(b),
{
    lemma_encode_len(a);
    lemma_utf8_len_concat(a, b);
}

/// A text is cut at the first separator, at all of them, or at none.
pub proof fn law_texts_are_cut_at_separators(a: Seq<char>, c: char, b: Seq<char>)
    requires
        !a.contains(c),
    ensures
        split_once(a + seq![c] + b, c) == Some((a, b)),
        split_once(a, c) is None,
        split(a + seq![c] + b, c) == seq![a] + split(b, c),
        split(a, c) == seq![a],
{
    let s = a + seq![c] + b;
    let n = a.len() as int;
    assert forall|j: int| 0 <= j < n implies #[trigger] s[j] != c by {
        assert(s[j] == a[j]);
        assert(a.contains(a[j]));
    }
    assert forall|j: int| 0 <= j < n implies #[trigger] a[j] != c by {
        assert(a.contains(a[j]));
    }
    lemma_index_of_is(s, c, n);
    lemma_index_of_is(a, c, n);
    assert(s.take(n) =~= a);
    assert(s.skip(n + 1) =~= b);
}

/// Joining puts the separator between neighbours, and nowhere else.
pub proof fn law_joining_separates_neighbours(
    a: Seq<Seq<char>>,
    b: Seq<Seq<char>>,
    sep: Seq<char>,
    one: Seq<char>,
)
    requires
        a.len() > 0,
        b.len() > 0,
    ensures
        joined(a + b, sep) == joined(a, sep) + sep + joined(b, sep),
        joined(seq![one], sep) == one,
        joined(Seq::empty(), sep).len() == 0,
    decreases b.len(),
{
    assert((a + b).drop_last() =~= a + b.drop_last());
    assert((a + b).last() == b.last());
    if b.len() == 1 {
        assert(a + b.drop_last() =~= a);
    } else {
        law_joining_separates_neighbours(a, b.drop_last(), sep, one);
        assert(joined(a + b, sep) =~= joined(a, sep) + sep + joined(b, sep));
    }
}

/// A text begins and ends with what was put there, and has it where it was put.
pub proof fn law_texts_hold_what_was_put_there(a: Seq<char>, s: Seq<char>, b: Seq<char>)
    ensures
        starts_with(s + b, s),
        ends_with(a + s, s),
        matches_at(a + s + b, s, a.len() as int),
        has_text(a + s + b, s),
        spliced(a + s + b, a.len() as int, a.len() as int + s.len(), b) == a + b + b,
        s.len() > a.len() ==> !starts_with(a, s) && !ends_with(a, s) && !has_text(a, s),
        s.len() == a.len() && starts_with(a, s) ==> a == s,
{
    assert((s + b).subrange(0, s.len() as int) =~= s);
    assert((a + s).subrange(a.len() as int, a.len() as int + s.len()) =~= s);
    let all = a + s + b;
    assert(all.subrange(a.len() as int, a.len() as int + s.len()) =~= s);
    assert(matches_at(all, s, a.len() as int));
    assert(all.take(a.len() as int) =~= a);
    assert(all.skip(a.len() as int + s.len()) =~= b);
    if s.len() == a.len() && starts_with(a, s) {
        assert(a.subrange(0, a.len() as int) =~= a);
    }
}

/// The letters `A` to `Z` become `a` to `z`; every other character stays.
pub proof fn law_only_capitals_are_lowered(i: int, c: char)
    requires
        0 <= i < 26,
    ensures
        ascii_lower("ABCDEFGHIJKLMNOPQRSTUVWXYZ"@[i]) == "abcdefghijklmnopqrstuvwxyz"@[i],
        !("ABCDEFGHIJKLMNOPQRSTUVWXYZ"@.contains(c)) ==> ascii_lower(c) == c,
{
    reveal_strlit("ABCDEFGHIJKLMNOPQRSTUVWXYZ");
    reveal_strlit("abcdefghijklmnopqrstuvwxyz");
    if 'A' <= c && c <= 'Z' {
        let k = c as u32 as int - 65;
        assert("ABCDEFGHIJKLMNOPQRSTUVWXYZ"@[k] == c);
    }
}

} // verus!
