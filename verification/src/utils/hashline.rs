//! Line anchors: a line number with a short tag of the line's content.
use crate::digest;
use crate::text;
use vstd::prelude::*;
use vstd::slice::slice_subrange;

verus! {

/// A line of a file with its number, counted from one, and its tag.
#[derive(Clone, Debug, PartialEq, Eq)]
pub struct HashLine {
    pub line: usize,
    pub tag: String,
    pub text: String,
}

/// A reference to a line by number and tag.
#[derive(Clone, Debug, PartialEq, Eq)]
pub struct Anchor {
    pub line: usize,
    pub tag: String,
}

impl Anchor {
    /// The line number and the tag.
    pub open spec fn parts(self) -> (nat, Seq<char>) {
        (self.line as nat, self.tag@)
    }
}

/// The tag of a line: the first three hexadecimal digits of its SHA-256 digest.
pub open spec fn line_tag(line: Seq<char>) -> Seq<char> {
    digest::hex(digest::sha256(vstd::utf8::encode_utf8(line)).take(2)).take(3)
}

/// A lower-case hexadecimal digit.
pub open spec fn is_hex_char(c: char) -> bool {
    48 <= c as u32 <= 57 || 97 <= c as u32 <= 102
}

/// Three lower-case hexadecimal digits.
pub open spec fn is_tag(tag: Seq<char>) -> bool {
    tag.len() == 3 && forall|i: int| 0 <= i < tag.len() ==> is_hex_char(#[trigger] tag[i])
}

/// `lines` are the rendered lines of `text`.
pub open spec fn is_rendering(lines: Seq<HashLine>, text: Seq<char>) -> bool {
    let source = text::lines_of(text);
    &&& lines.len() == source.len()
    &&& forall|i: int|
        0 <= i < lines.len() ==> {
            &&& (#[trigger] lines[i]).line == i + 1
            &&& lines[i].tag@ == line_tag(source[i])
            &&& lines[i].text@ == source[i]
        }
}

/// The form in which a line is shown: number, tag and text.
pub open spec fn shown_line(number: nat, tag: Seq<char>, text: Seq<char>) -> Seq<char> {
    text::decimal(number) + seq![':'] + tag + seq!['|'] + text
}

/// The form in which all lines of `text` are shown.
pub open spec fn shown_lines(text: Seq<char>) -> Seq<Seq<char>> {
    text::lines_of(text).map(
        |i: int, line: Seq<char>| shown_line((i + 1) as nat, line_tag(line), line),
    )
}

/// The tag of a line of text.
pub fn tag(text: &str) -> (r: String)
    ensures
        r@ == line_tag(text@),
        is_tag(r@),
{
    let digest = digest::sha256_digest(text.as_bytes());
    let digits = digest::hex_prefix(digest.as_slice(), 2);
    let chars = text::to_chars(digits.as_str());
    text::from_chars(slice_subrange(chars.as_slice(), 0, 3))
}

/// The lines of `text`, numbered and tagged.
pub fn render(text: &str) -> (r: Vec<HashLine>)
    ensures
        is_rendering(r@, text@),
{
    let lines = text::split_lines(text);
    let mut out: Vec<HashLine> = Vec::new();
    let mut i: usize = 0;
    while i < lines.len()
        invariant
            i <= lines@.len(),
            text::texts(lines@) == text::lines_of(text@),
            out@.len() == i,
            forall|j: int|
                0 <= j < i ==> {
                    &&& (#[trigger] out@[j]).line == j + 1
                    &&& out@[j].tag@ == line_tag(text::lines_of(text@)[j])
                    &&& out@[j].text@ == text::lines_of(text@)[j]
                },
        decreases lines@.len() - i,
    {
        let line = text::owned(lines[i].as_str());
        proof {
            assert(text::texts(lines@)[i as int] == lines@[i as int]@);
        }
        out.push(HashLine { line: i + 1, tag: tag(lines[i].as_str()), text: line });
        i += 1;
    }
    proof {
        assert(text::texts(lines@).len() == lines@.len());
    }
    out
}

/// Shows one rendered line.
pub fn format_hash_line(line: &HashLine) -> (r: String)
    ensures
        r@ == shown_line(line.line as nat, line.tag@, line.text@),
{
    proof {
        reveal_strlit(":");
        reveal_strlit("|");
        assert(":"@ =~= seq![':']);
        assert("|"@ =~= seq!['|']);
    }
    text::cat5(text::usize_text(line.line).as_str(), ":", line.tag.as_str(), "|", line.text.as_str())
}

/// Shows the lines of `text` with their numbers and tags.
pub fn format(text: &str) -> (r: String)
    ensures
        r@ == text::joined(shown_lines(text@), seq!['\n']),
{
    let lines = render(text);
    let mut out: Vec<String> = Vec::new();
    let mut i: usize = 0;
    while i < lines.len()
        invariant
            i <= lines@.len(),
            is_rendering(lines@, text@),
            out@.len() == i,
            forall|j: int| 0 <= j < i ==> (#[trigger] out@[j])@ == shown_lines(text@)[j],
        decreases lines@.len() - i,
    {
        out.push(format_hash_line(&lines[i]));
        i += 1;
    }
    proof {
        assert(text::texts(out@) =~= shown_lines(text@));
        reveal_strlit("\n");
        assert("\n"@ =~= seq!['\n']);
    }
    text::join(out.as_slice(), "\n")
}

/// Line `line` of `text` exists and has the tag `expected`.
pub open spec fn verified(text: Seq<char>, line: nat, expected: Seq<char>) -> bool {
    1 <= line <= text::lines_of(text).len() && line_tag(text::lines_of(text)[line - 1]) == expected
}

/// Whether line `line` of `text` has the tag `expected_tag`.
pub fn verify(text: &str, line: usize, expected_tag: &str) -> (r: bool)
    ensures
        r == verified(text@, line as nat, expected_tag@),
{
    let lines = render(text);
    if line == 0 || line > lines.len() {
        return false;
    }
    text::same_text(lines[line - 1].tag.as_str(), expected_tag)
}

/// Whether `anchor` points at a line of `text` that has its tag.
pub fn verify_anchor(text: &str, anchor: &Anchor) -> (r: bool)
    ensures
        r == verified(text@, anchor.line as nat, anchor.tag@),
{
    verify(text, anchor.line, anchor.tag.as_str())
}

/// What an anchor in the form `<line>:<tag>|` refers to.
pub open spec fn parsed_anchor(value: Seq<char>) -> Option<(nat, Seq<char>)> {
    match text::split_once(value, ':') {
        None => None,
        Some((line, rest)) => match text::split_once(rest, '|') {
            None => None,
            Some((tag, remainder)) => if remainder.len() != 0 || text::utf8_len(tag) != 3 || text::has_blank(
                tag,
            ) {
                None
            } else {
                match text::parsed_upto(line, usize::MAX as nat) {
                    Some(n) => if n > 0 {
                        Some((n, tag))
                    } else {
                        None
                    },
                    None => None,
                }
            },
        },
    }
}

/// Reads an anchor, ignoring white space around it.
pub fn parse_anchor_value(value: &str) -> (r: Option<Anchor>)
    ensures
        r is Some == parsed_anchor(text::trimmed(value@)) is Some,
        r matches Some(a) ==> a.parts() == parsed_anchor(text::trimmed(value@))->0,
{
    match parse_anchor(text::trim(value)) {
        Some((line, tag)) => Some(Anchor { line, tag: text::owned(tag) }),
        None => None,
    }
}

/// Reads an anchor in the form `<line>:<tag>|`, where the tag has three bytes.
pub fn parse_anchor(value: &str) -> (r: Option<(usize, &str)>)
    ensures
        r is Some == parsed_anchor(value@) is Some,
        r matches Some(p) ==> (p.0 as nat, p.1@) == parsed_anchor(value@)->0,
{
    let (line, rest) = match text::split_at_char(value, ':') {
        Some(p) => p,
        None => return None,
    };
    let (tag, remainder) = match text::split_at_char(rest, '|') {
        Some(p) => p,
        None => return None,
    };
    if !remainder.is_empty() || text::byte_len(tag) != 3 || text::any_blank(tag) {
        return None;
    }
    match text::parse_usize(line) {
        Some(n) => if n > 0 {
            Some((n, tag))
        } else {
            None
        },
        None => None,
    }
}

/// Cuts `text` after each line feed; the pieces put together give `text` again.
pub fn split_lines_preserving_endings(text: &str) -> (r: Vec<String>)
    ensures
        text::texts(r@) == text::segments(text@),
        text::concat_all(text::texts(r@)) == text@,
{
    proof {
        text::lemma_segments_concat(text@);
    }
    text::split_segments(text)
}

/// `body` as it stands in place of lines of which the last one is `last_line`:
/// where that line ends in a line feed, so does a body that is not empty.
pub open spec fn fitted(last_line: Seq<char>, body: Seq<char>) -> Seq<char> {
    if last_line.len() > 0 && last_line.last() == '\n' && body.len() > 0 && body.last() != '\n' {
        body.push('\n')
    } else {
        body
    }
}

/// `body`, ended like the line that it replaces.
pub fn fit(last_line: &str, body: &str) -> (r: String)
    ensures
        r@ == fitted(last_line@, body@),
{
    let line = text::to_chars(last_line);
    let b = text::to_chars(body);
    let mut out = text::owned(body);
    if line.len() > 0 && line[line.len() - 1] == '\n' && b.len() > 0 && b[b.len() - 1] != '\n' {
        out.push('\n');
    }
    out
}

/// `text` with lines `start` to `end` replaced.
pub open spec fn replaced(text: Seq<char>, start: nat, end: nat, replacement: Seq<char>) -> Option<
    Seq<char>,
> {
    let lines = text::segments(text);
    if start == 0 || start > end || end > lines.len() {
        None
    } else {
        Some(
            text::concat_all(lines.take(start - 1)) + fitted(lines[end - 1], replacement) + text::concat_all(
                lines.skip(end as int),
            ),
        )
    }
}

/// Replaces the lines `start_line` to `end_line`, both counted from one and
/// both replaced.
pub fn replace_lines(text: &str, start_line: usize, end_line: usize, replacement: &str) -> (r:
    Option<String>)
    ensures
        r is Some == replaced(text@, start_line as nat, end_line as nat, replacement@) is Some,
        r matches Some(s) ==> s@ == replaced(
            text@,
            start_line as nat,
            end_line as nat,
            replacement@,
        )->0,
{
    if start_line == 0 || start_line > end_line {
        return None;
    }
    let lines = split_lines_preserving_endings(text);
    proof {
        assert(lines@.len() == text::segments(text@).len());
    }
    if end_line > lines.len() {
        return None;
    }
    let body = fit(lines[end_line - 1].as_str(), replacement);
    proof {
        assert(text::segments(text@)[end_line - 1] == lines@[end_line - 1]@);
        assert(text::texts(lines@.subrange(0, start_line - 1)) =~= text::segments(text@).take(start_line - 1));
        assert(text::texts(lines@.subrange(end_line as int, lines@.len() as int)) =~= text::segments(text@).skip(
            end_line as int,
        ));
    }
    let mut out = text::concat_texts(slice_subrange(lines.as_slice(), 0, start_line - 1));
    out.push_str(body.as_str());
    let after = text::concat_texts(slice_subrange(lines.as_slice(), end_line, lines.len()));
    out.push_str(after.as_str());
    Some(out)
}

/// Every line that `render` shows can be verified by its number and tag.
pub proof fn law_rendered_lines_verify(lines: Seq<HashLine>, source: Seq<char>, i: int)
    requires
        is_rendering(lines, source),
        0 <= i < lines.len(),
    ensures
        verified(source, lines[i].line as nat, lines[i].tag@),
{
}

proof fn lemma_tag_chars(tag: Seq<char>)
    requires
        is_tag(tag),
    ensures
        text::utf8_len(tag) == 3,
        !text::has_blank(tag),
        forall|i: int| 0 <= i < 3 ==> #[trigger] tag[i] != '|',
{
    assert forall|i: int| 0 <= i < 3 implies (#[trigger] tag[i]) != '|' && !text::is_whitespace(
        tag[i],
    ) && text::char_width(tag[i]) == 1 by {
        assert(is_hex_char(tag[i]));
    }
    assert(tag.drop_last().drop_last().drop_last().len() == 0);
    assert(text::char_width(tag[0]) == 1 && text::char_width(tag[1]) == 1 && text::char_width(tag[2]) == 1);
    reveal_with_fuel(text::utf8_len, 4);
}

/// The anchor in front of a shown line is read back as that line's number and tag.
pub proof fn law_shown_anchor_is_read_back(number: nat, tag: Seq<char>)
    requires
        0 < number <= usize::MAX,
        is_tag(tag),
    ensures
        parsed_anchor(shown_line(number, tag, Seq::empty())) == Some((number, tag)),
{
    let digits = text::decimal(number);
    let value = shown_line(number, tag, Seq::empty());
    text::lemma_decimal(number);
    lemma_tag_chars(tag);
    assert forall|j: int| 0 <= j < digits.len() implies #[trigger] value[j] != ':' by {
        assert(value[j] == digits[j]);
        assert(text::is_digit(digits[j]));
    }
    text::lemma_index_of_is(value, ':', digits.len() as int);
    assert(value.take(digits.len() as int) =~= digits);
    let rest = tag + seq!['|'];
    assert(value.skip(digits.len() as int + 1) =~= rest);
    assert forall|j: int| 0 <= j < 3 implies #[trigger] rest[j] != '|' by {
        assert(rest[j] == tag[j]);
    }
    text::lemma_index_of_is(rest, '|', 3);
    assert(rest.take(3) =~= tag);
    assert(rest.skip(4) =~= Seq::empty());
}

/// Replacing lines by what they already hold changes nothing.
pub proof fn law_replacing_by_itself_is_identity(source: Seq<char>, start: nat, end: nat)
    requires
        0 < start <= end <= text::segments(source).len(),
    ensures
        replaced(
            source,
            start,
            end,
            text::concat_all(text::segments(source).subrange(start - 1, end as int)),
        ) == Some(source),
{
    let lines = text::segments(source);
    let part = lines.subrange(start - 1, end as int);
    let body = text::concat_all(part);
    text::lemma_segments_concat(source);
    text::lemma_concat_all_add(lines.take(start - 1), part);
    text::lemma_concat_all_add(lines.take(start - 1) + part, lines.skip(end as int));
    assert(lines.take(start - 1) + part + lines.skip(end as int) =~= lines);
    assert(part.last() == lines[end - 1]);
    if lines[end - 1].len() > 0 {
        assert(body.last() == lines[end - 1].last());
    }
    assert(fitted(lines[end - 1], body) == body);
}

/// The lines from the first to the last that are named give way to the new text, which
/// ends like them; the lines before and behind stay. Lines that are not there are not
/// replaced.
pub proof fn law_named_lines_are_replaced(
    before: Seq<Seq<char>>,
    named: Seq<Seq<char>>,
    after: Seq<Seq<char>>,
    new: Seq<char>,
    start: nat,
    end: nat,
)
    requires
        text::are_lines(before + named + after),
        named.len() > 0,
    ensures
        ({
            let source = text::concat_all(before + named + after);
            let head = text::concat_all(before);
            let tail = text::concat_all(after);
            let ended = named.last().last() == '\n';
            &&& new.len() == 0 || new.last() == '\n' || !ended ==> replaced(
                source,
                before.len() + 1,
                before.len() + named.len(),
                new,
            ) == Some(head + new + tail)
            &&& new.len() > 0 && new.last() != '\n' && ended ==> replaced(
                source,
                before.len() + 1,
                before.len() + named.len(),
                new,
            ) == Some(head + new.push('\n') + tail)
            &&& start == 0 || start > end || end > (before + named + after).len() ==> replaced(
                source,
                start,
                end,
                new,
            ) is None
        }),
{
    let all = before + named + after;
    text::law_lines_are_told_apart(all);
    let last = before.len() + named.len();
    assert(all.take(before.len() as int) =~= before);
    assert(all.skip(last as int) =~= after);
    assert(all[last - 1] == named.last());
    assert(all[last - 1].len() > 0);
}

/// A line is verified by the tag that it has now, under the number that it has counted
/// from one, and under no other.
pub proof fn law_tags_name_the_line_as_it_is(
    before: Seq<Seq<char>>,
    line: Seq<char>,
    after: Seq<Seq<char>>,
    tag: Seq<char>,
    number: nat,
)
    requires
        text::are_lines(before.push(line) + after),
    ensures
        verified(text::concat_all(before.push(line) + after), before.len() + 1, tag) <==> tag
            == line_tag(text::without_ending(line)),
        number == 0 || number > (before.push(line) + after).len() ==> !verified(
            text::concat_all(before.push(line) + after),
            number,
            tag,
        ),
{
    let all = before.push(line) + after;
    text::law_lines_are_told_apart(all);
    assert(all[before.len() as int] == line);
}

} // verus!
