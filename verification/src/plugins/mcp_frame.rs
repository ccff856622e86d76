//! The frames in which messages travel to and from a server: a header that gives
//! the length of the message, or a single line of JSON.
use crate::bytes;
use crate::text;
use vstd::prelude::*;
use vstd::slice::slice_subrange;

verus! {

/// What can be wrong with a frame.
#[derive(Clone, Copy, Debug, PartialEq, Eq, Structural)]
pub enum FrameError {
    NotText,
    HeaderTooLong,
    HeadersTooLong,
    FrameTooLong,
    DuplicateLength,
    InvalidLength,
    MalformedHeader,
    EndInHeaders,
    MissingLength,
    EndInBody,
}

/// How an error is put into words.
pub open spec fn frame_complaint(e: FrameError) -> Seq<char> {
    match e {
        FrameError::NotText => "stream did not contain valid UTF-8"@,
        FrameError::HeaderTooLong => "MCP header exceeds limit"@,
        FrameError::HeadersTooLong => "MCP headers exceed limit"@,
        FrameError::FrameTooLong => "MCP frame exceeds limit"@,
        FrameError::DuplicateLength => "duplicate Content-Length"@,
        FrameError::InvalidLength => "invalid Content-Length"@,
        FrameError::MalformedHeader => "malformed MCP header"@,
        FrameError::EndInHeaders => "EOF in MCP headers"@,
        FrameError::MissingLength => "missing Content-Length"@,
        FrameError::EndInBody => "failed to fill whole buffer"@,
    }
}

impl FrameError {
    /// The error in words.
    pub fn message(self) -> (r: &'static str)
        ensures
            r@ == frame_complaint(self),
    {
        match self {
            FrameError::NotText => "stream did not contain valid UTF-8",
            FrameError::HeaderTooLong => "MCP header exceeds limit",
            FrameError::HeadersTooLong => "MCP headers exceed limit",
            FrameError::FrameTooLong => "MCP frame exceeds limit",
            FrameError::DuplicateLength => "duplicate Content-Length",
            FrameError::InvalidLength => "invalid Content-Length",
            FrameError::MalformedHeader => "malformed MCP header",
            FrameError::EndInHeaders => "EOF in MCP headers",
            FrameError::MissingLength => "missing Content-Length",
            FrameError::EndInBody => "failed to fill whole buffer",
        }
    }
}

// ---------------------------------------------------------------------------
// Lines
// ---------------------------------------------------------------------------

/// Where the line that starts at `from` ends, its line feed included.
pub open spec fn line_end(b: Seq<u8>, from: int) -> int
    decreases b.len() - from,
{
    if from >= b.len() {
        b.len() as int
    } else if b[from] == 10 {
        from + 1
    } else {
        line_end(b, from + 1)
    }
}

/// What stands at a place where a line is read.
pub ghost enum LineView {
    /// The line is not complete yet.
    More,
    /// Nothing follows.
    End,
    NotText,
    /// The text of the line, and where it ends.
    Line(Seq<char>, int),
}

/// The line that starts at `from`, where `ended` says whether all has been read.
pub open spec fn line_at(b: Seq<u8>, from: int, ended: bool) -> LineView {
    let end = line_end(b, from);
    let whole = end > from && b[end - 1] == 10;
    if !whole && !ended {
        LineView::More
    } else if end <= from {
        LineView::End
    } else if !vstd::utf8::valid_utf8(b.subrange(from, end)) {
        LineView::NotText
    } else {
        LineView::Line(vstd::utf8::decode_utf8(b.subrange(from, end)), end)
    }
}

proof fn lemma_line_end(b: Seq<u8>, from: int)
    requires
        0 <= from <= b.len(),
    ensures
        from <= line_end(b, from) <= b.len(),
        from < b.len() ==> from < line_end(b, from),
        line_end(b, from) < b.len() ==> b[line_end(b, from) - 1] == 10,
    decreases b.len() - from,
{
    if from < b.len() && b[from] != 10 {
        lemma_line_end(b, from + 1);
    }
}

proof fn lemma_line_end_is(b: Seq<u8>, from: int, end: int)
    requires
        0 <= from < end <= b.len(),
        b[end - 1] == 10,
        forall|j: int| from <= j < end - 1 ==> #[trigger] b[j] != 10,
    ensures
        line_end(b, from) == end,
    decreases end - from,
{
    if from + 1 < end {
        assert(b[from] != 10);
        lemma_line_end_is(b, from + 1, end);
    }
}

enum Line {
    More,
    End,
    NotText,
    Text(String, usize),
}

spec fn line_view(line: Line) -> LineView {
    match line {
        Line::More => LineView::More,
        Line::End => LineView::End,
        Line::NotText => LineView::NotText,
        Line::Text(t, end) => LineView::Line(t@, end as int),
    }
}

fn read_line(b: &[u8], from: usize, ended: bool) -> (r: Line)
    requires
        from <= b@.len(),
    ensures
        line_view(r) == line_at(b@, from as int, ended),
        r matches Line::Text(_, end) ==> from < end <= b@.len(),
{
    let mut end: usize = from;
    let mut whole = false;
    while end < b.len() && !whole
        invariant
            from <= end <= b@.len(),
            whole ==> end > from && b@[end - 1] == 10 && line_end(b@, from as int) == end,
            !whole ==> line_end(b@, from as int) == line_end(b@, end as int),
            !whole && end > from ==> b@[end - 1] != 10,
        decreases b@.len() - end,
    {
        whole = b[end] == 10;
        end += 1;
    }
    if !whole && !ended {
        return Line::More;
    }
    if end == from {
        return Line::End;
    }
    let ghost piece = b@.subrange(from as int, end as int);
    match text::utf8_text(bytes::copy_bytes(slice_subrange(b, from, end))) {
        Ok(t) => {
            proof {
                vstd::utf8::encode_utf8_decode_utf8(t@);
            }
            Line::Text(t, end)
        },
        Err(_) => Line::NotText,
    }
}

// ---------------------------------------------------------------------------
// Headers
// ---------------------------------------------------------------------------

pub open spec fn is_line_char(c: char) -> bool {
    c == '\r' || c == '\n'
}

/// A line without the characters that end it.
pub open spec fn bare(line: Seq<char>) -> Seq<char> {
    text::trim_end_by(line, |c: char| is_line_char(c))
}

/// Whether two texts are the same but for the case of ASCII letters.
pub open spec fn same_ignoring_case(a: Seq<char>, b: Seq<char>) -> bool {
    a.len() == b.len() && forall|i: int|
        0 <= i < a.len() ==> text::ascii_lower(#[trigger] a[i]) == text::ascii_lower(b[i])
}

/// The length of the body after a header, where `length` was known before it.
pub open spec fn header_length(line: Seq<char>, length: Option<nat>) -> Result<Option<nat>, FrameError> {
    match text::split_once(line, ':') {
        None => Err(FrameError::MalformedHeader),
        Some((name, value)) => if !same_ignoring_case(name, "Content-Length"@) {
            Ok(length)
        } else if length is Some {
            Err(FrameError::DuplicateLength)
        } else {
            match text::parsed_upto(text::trimmed(value), usize::MAX as nat) {
                Some(n) => Ok(Some(n)),
                None => Err(FrameError::InvalidLength),
            }
        },
    }
}

fn same_name(a: &str, b: &str) -> (r: bool)
    ensures
        r == same_ignoring_case(a@, b@),
{
    let x = text::to_chars(a);
    let y = text::to_chars(b);
    if x.len() != y.len() {
        return false;
    }
    let mut i: usize = 0;
    while i < x.len()
        invariant
            x@ == a@,
            y@ == b@,
            x@.len() == y@.len(),
            i <= x@.len(),
            forall|j: int| 0 <= j < i ==> text::ascii_lower(#[trigger] a@[j]) == text::ascii_lower(b@[j]),
        decreases x@.len() - i,
    {
        if text::lower(x[i]) != text::lower(y[i]) {
            assert(text::ascii_lower(a@[i as int]) != text::ascii_lower(b@[i as int]));
            return false;
        }
        i += 1;
    }
    true
}

fn strip_line(line: &str) -> (r: String)
    ensures
        r@ == bare(line@),
{
    let cs = text::to_chars(line);
    let mut n: usize = cs.len();
    while n > 0 && (cs[n - 1] == '\r' || cs[n - 1] == '\n')
        invariant
            cs@ == line@,
            n <= cs@.len(),
            forall|j: int| n <= j < line@.len() ==> is_line_char(#[trigger] line@[j]),
        decreases n,
    {
        n -= 1;
    }
    proof {
        text::lemma_trim_end_at(line@, |c: char| is_line_char(c), n as int);
    }
    text::from_chars(slice_subrange(cs.as_slice(), 0, n))
}

spec fn opt_nat(n: Option<usize>) -> Option<nat> {
    match n {
        Some(n) => Some(n as nat),
        None => None,
    }
}

fn read_header(line: &str, length: Option<usize>) -> (r: Result<Option<usize>, FrameError>)
    ensures
        match r {
            Ok(n) => header_length(line@, opt_nat(length)) == Ok::<Option<nat>, FrameError>(
                opt_nat(n),
            ),
            Err(e) => header_length(line@, opt_nat(length)) == Err::<Option<nat>, FrameError>(e),
        },
{
    match text::split_at_char(line, ':') {
        None => Err(FrameError::MalformedHeader),
        Some((name, value)) => {
            if !same_name(name, "Content-Length") {
                return Ok(length);
            }
            if length.is_some() {
                return Err(FrameError::DuplicateLength);
            }
            match text::parse_usize(text::trim(value)) {
                Some(n) => Ok(Some(n)),
                None => Err(FrameError::InvalidLength),
            }
        },
    }
}

// ---------------------------------------------------------------------------
// Frames
// ---------------------------------------------------------------------------

/// What the bytes that have come in so far hold.
pub ghost enum FrameView {
    /// Part of a frame.
    More,
    /// Nothing, and nothing more will come.
    End,
    Failed(FrameError),
    /// A message, and where its frame ends.
    Frame(Seq<u8>, int),
}

/// The body that starts at `at`.
pub open spec fn body_at(b: Seq<u8>, at: int, length: Option<nat>, ended: bool, max: nat) -> FrameView {
    match length {
        None => FrameView::Failed(FrameError::MissingLength),
        Some(n) => if n > max {
            FrameView::Failed(FrameError::FrameTooLong)
        } else if n <= b.len() - at {
            FrameView::Frame(b.subrange(at, at + n), at + n)
        } else if ended {
            FrameView::Failed(FrameError::EndInBody)
        } else {
            FrameView::More
        },
    }
}

/// The frame whose headers go on with `line`, from `start` to `end`, after
/// `total` bytes of headers that gave `length`.
pub open spec fn headers_at(
    b: Seq<u8>,
    line: Seq<char>,
    start: int,
    end: int,
    total: nat,
    length: Option<nat>,
    ended: bool,
    max: nat,
) -> FrameView
    decreases b.len() - end,
{
    let sum = (total + (end - start)) as nat;
    if sum > max {
        FrameView::Failed(FrameError::HeadersTooLong)
    } else if bare(line).len() == 0 {
        body_at(b, end, length, ended, max)
    } else {
        match header_length(bare(line), length) {
            Err(e) => FrameView::Failed(e),
            Ok(known) => match line_at(b, end, ended) {
                LineView::More => FrameView::More,
                LineView::End => FrameView::Failed(FrameError::EndInHeaders),
                LineView::NotText => FrameView::Failed(FrameError::NotText),
                LineView::Line(next, stop) => if stop - end > max {
                    FrameView::Failed(FrameError::HeaderTooLong)
                } else if end < stop <= b.len() {
                    headers_at(b, next, end, stop, sum, known, ended, max)
                } else {
                    FrameView::End
                },
            },
        }
    }
}

/// The frame that starts at `from`. Blank lines before it are passed over.
pub open spec fn frame_at(b: Seq<u8>, from: int, ended: bool, max: nat) -> FrameView
    decreases b.len() - from,
{
    match line_at(b, from, ended) {
        LineView::More => FrameView::More,
        LineView::End => FrameView::End,
        LineView::NotText => FrameView::Failed(FrameError::NotText),
        LineView::Line(line, end) => if end - from > max {
            FrameView::Failed(FrameError::HeaderTooLong)
        } else if text::is_blank(line) {
            if from < end <= b.len() {
                frame_at(b, end, ended, max)
            } else {
                FrameView::End
            }
        } else if text::starts_with(
            text::trim_start_by(line, |c: char| text::is_whitespace(c)),
            seq!['{'],
        ) {
            let body = vstd::utf8::encode_utf8(bare(line));
            if body.len() > max {
                FrameView::Failed(FrameError::FrameTooLong)
            } else {
                FrameView::Frame(body, end)
            }
        } else {
            headers_at(b, line, from, end, 0, None, ended, max)
        },
    }
}

/// What the bytes that have come in so far hold.
#[derive(Debug, PartialEq, Eq)]
pub enum FrameStep {
    /// Part of a frame.
    More,
    /// Nothing, and nothing more will come.
    End,
    Failed(FrameError),
    /// A message, and how many bytes its frame takes.
    Frame(Vec<u8>, usize),
}

impl View for FrameStep {
    type V = FrameView;

    open spec fn view(&self) -> FrameView {
        match *self {
            FrameStep::More => FrameView::More,
            FrameStep::End => FrameView::End,
            FrameStep::Failed(e) => FrameView::Failed(e),
            FrameStep::Frame(body, end) => FrameView::Frame(body@, end as int),
        }
    }
}

fn read_body(b: &[u8], at: usize, length: Option<usize>, ended: bool, max: usize) -> (r: FrameStep)
    requires
        at <= b@.len(),
    ensures
        r@ == body_at(b@, at as int, opt_nat(length), ended, max as nat),
{
    match length {
        None => FrameStep::Failed(FrameError::MissingLength),
        Some(n) => {
            if n > max {
                FrameStep::Failed(FrameError::FrameTooLong)
            } else if n <= b.len() - at {
                FrameStep::Frame(bytes::copy_bytes(slice_subrange(b, at, at + n)), at + n)
            } else if ended {
                FrameStep::Failed(FrameError::EndInBody)
            } else {
                FrameStep::More
            }
        },
    }
}

fn read_headers(
    b: &[u8],
    first: String,
    start: usize,
    first_end: usize,
    ended: bool,
    max: usize,
) -> (r: FrameStep)
    requires
        start < first_end <= b@.len(),
    ensures
        r@ == headers_at(
            b@,
            first@,
            start as int,
            first_end as int,
            0,
            None,
            ended,
            max as nat,
        ),
{
    let ghost wanted = headers_at(
        b@,
        first@,
        start as int,
        first_end as int,
        0,
        None,
        ended,
        max as nat,
    );
    let mut line: String = first;
    let mut begin: usize = start;
    let mut end: usize = first_end;
    let mut total: usize = 0;
    let mut length: Option<usize> = None;
    loop
        invariant
            begin < end <= b@.len(),
            total <= max,
            wanted == headers_at(
                b@,
                first@,
                start as int,
                first_end as int,
                0,
                None,
                ended,
                max as nat,
            ),
            wanted == headers_at(
                b@,
                line@,
                begin as int,
                end as int,
                total as nat,
                opt_nat(length),
                ended,
                max as nat,
            ),
        decreases b@.len() - end,
    {
        if end - begin > max - total {
            return FrameStep::Failed(FrameError::HeadersTooLong);
        }
        let sum: usize = total + (end - begin);
        let header = strip_line(line.as_str());
        if header.as_str().is_empty() {
            return read_body(b, end, length, ended, max);
        }
        let known = match read_header(header.as_str(), length) {
            Ok(n) => n,
            Err(e) => return FrameStep::Failed(e),
        };
        match read_line(b, end, ended) {
            Line::More => return FrameStep::More,
            Line::End => return FrameStep::Failed(FrameError::EndInHeaders),
            Line::NotText => return FrameStep::Failed(FrameError::NotText),
            Line::Text(next, stop) => {
                if stop - end > max {
                    return FrameStep::Failed(FrameError::HeaderTooLong);
                }
                line = next;
                begin = end;
                end = stop;
                total = sum;
                length = known;
            },
        }
    }
}

fn opens_object(line: &str) -> (r: bool)
    ensures
        r == text::starts_with(
            text::trim_start_by(line@, |c: char| text::is_whitespace(c)),
            seq!['{'],
        ),
{
    let cs = text::to_chars(line);
    let mut i: usize = 0;
    proof {
        assert(line@.skip(0) =~= line@);
    }
    while i < cs.len() && text::whitespace(cs[i])
        invariant
            cs@ == line@,
            i <= cs@.len(),
            text::trim_start_by(line@, |c: char| text::is_whitespace(c)) == text::trim_start_by(
                line@.skip(i as int),
                |c: char| text::is_whitespace(c),
            ),
        decreases cs@.len() - i,
    {
        proof {
            assert(line@.skip(i as int)[0] == line@[i as int]);
            assert(line@.skip(i as int).drop_first() =~= line@.skip(i + 1));
        }
        i += 1;
    }
    proof {
        let rest = line@.skip(i as int);
        if i < cs@.len() {
            assert(rest[0] == line@[i as int]);
            if cs@[i as int] == '{' {
                assert(rest.subrange(0, 1) =~= seq!['{']);
            } else {
                assert(rest.subrange(0, 1)[0] != seq!['{'][0]);
            }
        }
    }
    i < cs.len() && cs[i] == '{'
}

/// Reads the first frame in the bytes that have come in so far. `ended` says
/// that no more will come.
pub fn read_frame(b: &[u8], ended: bool, max: usize) -> (r: FrameStep)
    ensures
        r@ == frame_at(b@, 0, ended, max as nat),
{
    let mut from: usize = 0;
    loop
        invariant
            from <= b@.len(),
            frame_at(b@, 0, ended, max as nat) == frame_at(b@, from as int, ended, max as nat),
        decreases b@.len() - from,
    {
        match read_line(b, from, ended) {
            Line::More => return FrameStep::More,
            Line::End => return FrameStep::End,
            Line::NotText => return FrameStep::Failed(FrameError::NotText),
            Line::Text(line, end) => {
                if end - from > max {
                    return FrameStep::Failed(FrameError::HeaderTooLong);
                }
                if text::blank(line.as_str()) {
                    from = end;
                } else if opens_object(line.as_str()) {
                    let body = strip_line(line.as_str());
                    let encoded = body.as_str().as_bytes();
                    if encoded.len() > max {
                        return FrameStep::Failed(FrameError::FrameTooLong);
                    }
                    return FrameStep::Frame(bytes::copy_bytes(encoded), end);
                } else {
                    return read_headers(b, line, from, end, ended, max);
                }
            },
        }
    }
}

// ---------------------------------------------------------------------------
// Writing frames
// ---------------------------------------------------------------------------

/// The header of a message of `n` bytes.
pub open spec fn header(n: nat) -> Seq<char> {
    "Content-Length: "@ + text::decimal(n) + "\r\n\r\n"@
}

/// A message in its frame.
pub open spec fn framed(body: Seq<u8>) -> Seq<u8> {
    vstd::utf8::encode_utf8(header(body.len())) + body
}

/// Puts a message into a frame.
pub fn frame(body: &[u8]) -> (r: Vec<u8>)
    ensures
        r@ == framed(body@),
{
    let head = text::cat3(
        "Content-Length: ",
        text::usize_text(body.len()).as_str(),
        "\r\n\r\n",
    );
    let mut out = bytes::copy_bytes(head.as_str().as_bytes());
    bytes::extend(&mut out, body);
    out
}

// ---------------------------------------------------------------------------
// Laws
// ---------------------------------------------------------------------------

proof fn lemma_line_end_extends(b: Seq<u8>, c: Seq<u8>, from: int)
    requires
        0 <= from < b.len(),
        b[line_end(b, from) - 1] == 10,
    ensures
        line_end(b + c, from) == line_end(b, from),
    decreases b.len() - from,
{
    assert((b + c)[from] == b[from]);
    if b[from] != 10 {
        assert(line_end(b, from) == line_end(b, from + 1));
        if from + 1 < b.len() {
            lemma_line_end_extends(b, c, from + 1);
        }
    }
}

proof fn lemma_line_at_extends(b: Seq<u8>, c: Seq<u8>, from: int, ended: bool)
    requires
        0 <= from <= b.len(),
        !(line_at(b, from, false) is More),
    ensures
        line_at(b + c, from, ended) == line_at(b, from, false),
        line_at(b, from, false) matches LineView::Line(_, end) ==> from < end <= b.len(),
{
    lemma_line_end(b, from);
    lemma_line_end_extends(b, c, from);
    let end = line_end(b, from);
    assert((b + c).subrange(from, end) =~= b.subrange(from, end));
}

proof fn lemma_headers_extend(
    b: Seq<u8>,
    c: Seq<u8>,
    line: Seq<char>,
    start: int,
    end: int,
    total: nat,
    length: Option<nat>,
    ended: bool,
    max: nat,
)
    requires
        0 <= start < end <= b.len(),
        !(headers_at(b, line, start, end, total, length, false, max) is More),
    ensures
        headers_at(b + c, line, start, end, total, length, ended, max) == headers_at(
            b,
            line,
            start,
            end,
            total,
            length,
            false,
            max,
        ),
    decreases b.len() - end,
{
    let sum = (total + (end - start)) as nat;
    if sum > max {
    } else if bare(line).len() == 0 {
        if let Some(n) = length {
            if n <= b.len() - end {
                assert((b + c).subrange(end, end + n) =~= b.subrange(end, end + n));
            }
        }
    } else if let Ok(known) = header_length(bare(line), length) {
        lemma_line_at_extends(b, c, end, ended);
        if let LineView::Line(next, stop) = line_at(b, end, false) {
            if stop - end <= max {
                lemma_headers_extend(b, c, next, end, stop, sum, known, ended, max);
            }
        }
    }
}

proof fn lemma_frame_extends(b: Seq<u8>, c: Seq<u8>, from: int, ended: bool, max: nat)
    requires
        0 <= from <= b.len(),
        !(frame_at(b, from, false, max) is More),
    ensures
        frame_at(b + c, from, ended, max) == frame_at(b, from, false, max),
    decreases b.len() - from,
{
    lemma_line_at_extends(b, c, from, ended);
    if let LineView::Line(line, end) = line_at(b, from, false) {
        if end - from > max {
        } else if text::is_blank(line) {
            lemma_frame_extends(b, c, end, ended, max);
        } else if !text::starts_with(
            text::trim_start_by(line, |ch: char| text::is_whitespace(ch)),
            seq!['{'],
        ) {
            lemma_headers_extend(b, c, line, from, end, 0, None, ended, max);
        }
    }
}

/// Once a frame is read, or refused, nothing that comes in later changes it: the
/// frames do not depend on the pieces in which the bytes arrive.
pub proof fn law_frames_do_not_depend_on_pieces(
    arrived: Seq<u8>,
    later: Seq<u8>,
    ended: bool,
    max: nat,
)
    requires
        !(frame_at(arrived, 0, false, max) is More),
    ensures
        frame_at(arrived + later, 0, ended, max) == frame_at(arrived, 0, false, max),
{
    lemma_frame_extends(arrived, later, 0, ended, max);
}

/// A body that is read is never longer than the limit.
pub proof fn law_frames_keep_the_limit(b: Seq<u8>, from: int, ended: bool, max: nat)
    requires
        0 <= from <= b.len(),
    ensures
        frame_at(b, from, ended, max) matches FrameView::Frame(body, _) ==> body.len() <= max,
    decreases b.len() - from,
{
    lemma_line_end(b, from);
    if let LineView::Line(line, end) = line_at(b, from, ended) {
        if end - from > max {
        } else if text::is_blank(line) {
            if from < end <= b.len() {
                law_frames_keep_the_limit(b, end, ended, max);
            }
        } else if !text::starts_with(
            text::trim_start_by(line, |ch: char| text::is_whitespace(ch)),
            seq!['{'],
        ) {
            lemma_headers_limit(b, line, from, end, 0, None, ended, max);
        }
    }
}

proof fn lemma_headers_limit(
    b: Seq<u8>,
    line: Seq<char>,
    start: int,
    end: int,
    total: nat,
    length: Option<nat>,
    ended: bool,
    max: nat,
)
    requires
        0 <= end <= b.len(),
    ensures
        headers_at(b, line, start, end, total, length, ended, max) matches FrameView::Frame(body, _)
            ==> body.len() <= max,
    decreases b.len() - end,
{
    let sum = (total + (end - start)) as nat;
    if sum > max {
    } else if bare(line).len() == 0 {
        if let Some(n) = length {
            if n <= b.len() - end {
                assert(b.subrange(end, end + n).len() == n);
            }
        }
    } else if let Ok(known) = header_length(bare(line), length) {
        if let LineView::Line(next, stop) = line_at(b, end, ended) {
            if stop - end <= max && end < stop <= b.len() {
                lemma_headers_limit(b, next, end, stop, sum, known, ended, max);
            }
        }
    }
}

proof fn lemma_ascii_encoding(s: Seq<char>)
    requires
        forall|i: int| 0 <= i < s.len() ==> (#[trigger] s[i]) as u32 <= 127,
    ensures
        vstd::utf8::encode_utf8(s) == Seq::new(s.len(), |i: int| (s[i] as u32) as u8),
    decreases s.len(),
{
    let bytes = Seq::new(s.len(), |i: int| (s[i] as u32) as u8);
    if s.len() > 0 {
        let rest = s.drop_first();
        assert forall|i: int| 0 <= i < rest.len() implies (#[trigger] rest[i]) as u32 <= 127 by {
            assert(rest[i] == s[i + 1]);
        }
        lemma_ascii_encoding(rest);
        let v = s[0] as u32;
        assert(v <= 127);
        assert(v <= 127 ==> (v & 0x7F) as u8 == v as u8) by (bit_vector);
        assert(vstd::utf8::encode_scalar(v) =~= seq![v as u8]);
        assert(vstd::utf8::encode_utf8(s) =~= bytes);
    } else {
        assert(vstd::utf8::encode_utf8(s) =~= bytes);
    }
}

proof fn lemma_ascii_piece(whole: Seq<char>, from: int, to: int)
    requires
        0 <= from <= to <= whole.len(),
        forall|i: int| 0 <= i < whole.len() ==> (#[trigger] whole[i]) as u32 <= 127,
    ensures
        vstd::utf8::encode_utf8(whole).len() == whole.len(),
        vstd::utf8::valid_utf8(vstd::utf8::encode_utf8(whole).subrange(from, to)),
        vstd::utf8::decode_utf8(vstd::utf8::encode_utf8(whole).subrange(from, to))
            == whole.subrange(from, to),
{
    let piece = whole.subrange(from, to);
    assert forall|i: int| 0 <= i < piece.len() implies (#[trigger] piece[i]) as u32 <= 127 by {
        assert(piece[i] == whole[i + from]);
    }
    lemma_ascii_encoding(whole);
    lemma_ascii_encoding(piece);
    assert(vstd::utf8::encode_utf8(whole).subrange(from, to) =~= vstd::utf8::encode_utf8(piece));
    vstd::utf8::encode_utf8_valid_utf8(piece);
    vstd::utf8::encode_utf8_decode_utf8(piece);
}

/// The header line of a message of `n` bytes, as it is read.
proof fn lemma_header_line(n: nat)
    requires
        n <= usize::MAX,
    ensures
        ({
            let size = text::decimal(n);
            let first = header(n).subrange(0, 18 + size.len() as int);
            let second = header(n).subrange(18 + size.len() as int, 20 + size.len() as int);
            &&& size.len() > 0
            &&& header(n).len() == 20 + size.len()
            &&& forall|i: int| 0 <= i < header(n).len() ==> (#[trigger] header(n)[i]) as u32 <= 127
            &&& forall|i: int| 0 <= i < 17 + size.len() ==> #[trigger] header(n)[i] != '\n'
            &&& header(n)[17 + size.len() as int] == '\n'
            &&& header(n)[18 + size.len() as int] != '\n'
            &&& header(n)[19 + size.len() as int] == '\n'
            &&& !text::is_blank(first)
            &&& first[0] == 'C'
            &&& bare(first).len() > 0
            &&& header_length(bare(first), None) == Ok::<Option<nat>, FrameError>(Some(n))
            &&& bare(second).len() == 0
        }),
{
    reveal_strlit("Content-Length: ");
    reveal_strlit("Content-Length");
    reveal_strlit("\r\n\r\n");
    text::lemma_decimal(n);
    let size = text::decimal(n);
    let h = header(n);
    let k = size.len() as int;
    assert forall|i: int| 16 <= i < 16 + k implies text::is_digit(#[trigger] h[i]) by {
        assert(h[i] == size[i - 16]);
    }
    let first = h.subrange(0, 18 + k);
    let p = |c: char| is_line_char(c);
    text::lemma_trim_end_at(first, p, 16 + k);
    let name = first.take(16 + k);
    assert(bare(first) == name);
    assert forall|j: int| 0 <= j < 14 implies #[trigger] name[j] != ':' by {
        assert(name[j] == "Content-Length: "@[j]);
    }
    text::lemma_index_of_is(name, ':', 14);
    assert(name.take(14) =~= "Content-Length"@);
    let value = name.skip(15);
    assert(value.len() == 1 + k);
    assert(value[0] == ' ');
    assert(value[1] == size[0]);
    assert(value[k] == size[k - 1]);
    text::lemma_trimmed_at(value, 1, 1 + k);
    assert(value.subrange(1, 1 + k) =~= size);
    text::lemma_trim_start_at(first, |c: char| text::is_whitespace(c), 0);
    assert(first.skip(0) =~= first);
    text::lemma_trim_end_at(first, |c: char| text::is_whitespace(c), 16 + k);
    let second = h.subrange(18 + k, 20 + k);
    text::lemma_trim_end_at(second, p, 0);
}

/// A message that was put into a frame is read back as it was, whatever follows
/// it, where the limit leaves room for its header and for itself.
pub proof fn law_framed_messages_are_read_back(body: Seq<u8>, rest: Seq<u8>, ended: bool, max: nat)
    requires
        body.len() <= usize::MAX,
        body.len() <= max,
        header(body.len()).len() <= max,
    ensures
        frame_at(framed(body) + rest, 0, ended, max) == FrameView::Frame(
            body,
            framed(body).len() as int,
        ),
{
    let n = body.len();
    let h = header(n);
    lemma_header_line(n);
    lemma_ascii_encoding(h);
    let e = vstd::utf8::encode_utf8(h);
    let b = framed(body) + rest;
    let one = h.len() - 2;
    let two = h.len() as int;
    lemma_ascii_piece(h, 0, one);
    lemma_ascii_piece(h, one, two);
    assert forall|j: int| 0 <= j < two implies #[trigger] b[j] == h[j] as u32 as u8 by {
        assert(b[j] == e[j]);
    }
    assert forall|j: int| 0 <= j < one - 1 implies #[trigger] b[j] != 10 by {
        assert(h[j] != '\n');
        assert(h[j] as u32 != 10) by {
            if h[j] as u32 == 10 {
                vstd::utf8::char_u32_cast(h[j], 10u32);
            }
        }
        let v = h[j] as u32;
        assert(v <= 127 && v != 10 ==> v as u8 != 10) by (bit_vector);
    }
    lemma_line_end_is(b, 0, one);
    assert(b[one] != 10) by {
        if h[one] as u32 == 10 {
            vstd::utf8::char_u32_cast(h[one], 10u32);
        }
        let v = h[one] as u32;
        assert(v <= 127 && v != 10 ==> v as u8 != 10) by (bit_vector);
    }
    lemma_line_end_is(b, one, two);
    assert(b.subrange(0, one) =~= e.subrange(0, one));
    assert(b.subrange(one, two) =~= e.subrange(one, two));
    let first = h.subrange(0, one);
    let second = h.subrange(one, two);
    assert(line_at(b, 0, ended) == LineView::Line(first, one));
    assert(line_at(b, one, ended) == LineView::Line(second, two));
    text::lemma_trim_start_at(first, |c: char| text::is_whitespace(c), 0);
    assert(first.skip(0) =~= first);
    assert(!text::starts_with(first, seq!['{'])) by {
        if text::starts_with(first, seq!['{']) {
            assert(first.subrange(0, 1)[0] == seq!['{'][0]);
        }
    }
    assert(b.subrange(two, two + n) =~= body);
    assert(headers_at(b, second, one, two, one as nat, Some(n), ended, max) == body_at(
        b,
        two,
        Some(n),
        ended,
        max,
    ));
    assert(headers_at(b, first, 0, one, 0, None, ended, max) == headers_at(
        b,
        second,
        one,
        two,
        one as nat,
        Some(n),
        ended,
        max,
    ));
}

/// The length of a body is told under its name, however that is spelled, once and as a
/// number. Other headers say nothing of it, and every header has a name.
pub proof fn law_lengths_are_told_once(name: Seq<char>, value: Seq<char>, n: nat, known: Option<nat>)
    requires
        !name.contains(':'),
        n <= usize::MAX,
    ensures
        text::ascii_lowered(name) == text::ascii_lowered("Content-Length"@) ==> header_length(
            name + seq![':'] + text::decimal(n),
            None,
        ) == Ok::<Option<nat>, FrameError>(Some(n)),
        text::ascii_lowered(name) == text::ascii_lowered("Content-Length"@) && known is Some
            ==> header_length(name + seq![':'] + value, known) == Err::<Option<nat>, FrameError>(
            FrameError::DuplicateLength,
        ),
        text::ascii_lowered(name) != text::ascii_lowered("Content-Length"@) ==> header_length(
            name + seq![':'] + value,
            known,
        ) == Ok::<Option<nat>, FrameError>(known),
        header_length(name, known) == Err::<Option<nat>, FrameError>(FrameError::MalformedHeader),
{
    let wanted = "Content-Length"@;
    text::law_texts_are_cut_at_separators(name, ':', value);
    text::law_texts_are_cut_at_separators(name, ':', text::decimal(n));
    if same_ignoring_case(name, wanted) {
        assert(text::ascii_lowered(name) =~= text::ascii_lowered(wanted));
    }
    if text::ascii_lowered(name) == text::ascii_lowered(wanted) {
        assert(text::ascii_lowered(name).len() == name.len());
        assert forall|i: int| 0 <= i < name.len() implies text::ascii_lower(#[trigger] name[i])
            == text::ascii_lower(wanted[i]) by {
            assert(text::ascii_lowered(name)[i] == text::ascii_lowered(wanted)[i]);
        }
        assert(same_ignoring_case(name, wanted));
    }
    text::lemma_decimal(n);
    let d = text::decimal(n);
    assert(text::is_digit(d[0]) && text::is_digit(d[d.len() - 1]));
    text::law_blanks_are_trimmed(Seq::empty(), d, Seq::empty());
    assert(Seq::<char>::empty() + d + Seq::<char>::empty() =~= d);
    text::law_numbers_are_written_in_tens(n, 0, usize::MAX as nat);
}

/// A body is as long as was told, no longer than is allowed, and complete; what is not
/// there yet is waited for as long as something can still come.
pub proof fn law_bodies_are_as_long_as_told(
    before: Seq<u8>,
    body: Seq<u8>,
    after: Seq<u8>,
    missing: nat,
    ended: bool,
    max: nat,
)
    requires
        missing > 0,
    ensures
        body.len() <= max ==> body_at(
            before + body + after,
            before.len() as int,
            Some(body.len()),
            ended,
            max,
        ) == FrameView::Frame(body, before.len() as int + body.len()),
        body.len() > max ==> body_at(
            before + body + after,
            before.len() as int,
            Some(body.len()),
            ended,
            max,
        ) == FrameView::Failed(FrameError::FrameTooLong),
        body.len() + missing <= max ==> body_at(
            before + body,
            before.len() as int,
            Some(body.len() + missing),
            ended,
            max,
        ) == (if ended {
            FrameView::Failed(FrameError::EndInBody)
        } else {
            FrameView::More
        }),
        body_at(before + body, before.len() as int, None, ended, max) == FrameView::Failed(
            FrameError::MissingLength,
        ),
{
    let n = before.len() as int;
    assert((before + body + after).subrange(n, n + body.len()) =~= body);
}

} // verus!
