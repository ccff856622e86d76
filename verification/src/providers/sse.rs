//! Server-sent events: frames that end with an empty line, each with lines of data.
use crate::bytes;
use crate::model;
use crate::model::Error;
use crate::text;
use vstd::prelude::*;
use vstd::slice::slice_subrange;
use vstd::string::StrSliceExecFns;

verus! {

/// Whether two line feeds stand at `i`.
pub open spec fn feeds_at(b: Seq<u8>, i: int) -> bool {
    0 <= i && i + 2 <= b.len() && b[i] == 10 && b[i + 1] == 10
}

/// Whether two carriage returns with their line feeds stand at `i`.
pub open spec fn returns_at(b: Seq<u8>, i: int) -> bool {
    0 <= i && i + 4 <= b.len() && b[i] == 13 && b[i + 1] == 10 && b[i + 2] == 13 && b[i + 3] == 10
}

/// Where, from `i` on, the first frame ends, and how long what separates it is.
pub open spec fn boundary_from(b: Seq<u8>, i: int) -> Option<(int, int)>
    decreases b.len() - i,
{
    if i < 0 || i >= b.len() {
        None
    } else if feeds_at(b, i) {
        Some((i, 2int))
    } else if returns_at(b, i) {
        Some((i, 4int))
    } else {
        boundary_from(b, i + 1)
    }
}

/// Where the first frame ends, and how long what separates it is.
pub open spec fn boundary(b: Seq<u8>) -> Option<(int, int)> {
    boundary_from(b, 0)
}

proof fn lemma_boundary(b: Seq<u8>, i: int)
    requires
        0 <= i <= b.len(),
    ensures
        match boundary_from(b, i) {
            Some((p, d)) => {
                &&& i <= p
                &&& 2 <= d <= 4
                &&& p + d <= b.len()
                &&& d == 2 ==> feeds_at(b, p)
                &&& d == 4 ==> returns_at(b, p)
                &&& d == 2 || d == 4
                &&& forall|k: int|
                    i <= k < p ==> !#[trigger] feeds_at(b, k) && !returns_at(b, k)
            },
            None => forall|k: int| i <= k ==> !#[trigger] feeds_at(b, k) && !returns_at(b, k),
        },
    decreases b.len() - i,
{
    if i < b.len() && !feeds_at(b, i) && !returns_at(b, i) {
        lemma_boundary(b, i + 1);
    }
}

proof fn lemma_boundary_is(b: Seq<u8>, i: int, p: int, d: int)
    requires
        0 <= i <= p < b.len(),
        d == 2 && feeds_at(b, p) || d == 4 && returns_at(b, p),
        forall|k: int| i <= k < p ==> !#[trigger] feeds_at(b, k) && !returns_at(b, k),
    ensures
        boundary_from(b, i) == Some((p, d)),
    decreases p - i,
{
    if i < p {
        assert(!feeds_at(b, i) && !returns_at(b, i));
        lemma_boundary_is(b, i + 1, p, d);
    }
}

proof fn lemma_boundary_stays(a: Seq<u8>, b: Seq<u8>)
    requires
        boundary(a) is Some,
    ensures
        boundary(a + b) == boundary(a),
{
    let (p, d) = boundary(a)->0;
    let whole = a + b;
    lemma_boundary(a, 0);
    assert(boundary_from(a, 0) == Some((p, d)));
    assert forall|k: int| 0 <= k < p implies !#[trigger] feeds_at(whole, k) && !returns_at(
        whole,
        k,
    ) by {
        let earlier = feeds_at(a, k);
        assert(!earlier);
        assert(!returns_at(a, k));
        if returns_at(whole, k) {
            assert(whole[k + 1] == 10 && whole[k + 2] == 13 && whole[k + 3] == 10);
            assert(a[p] == whole[p] && a[p + 1] == whole[p + 1]);
        }
    }
    assert(whole[p] == a[p] && whole[p + 1] == a[p + 1]);
    if d == 4 {
        assert(whole[p + 2] == a[p + 2] && whole[p + 3] == a[p + 3]);
    }
    lemma_boundary_is(whole, 0, p, d);
}

/// Finds where the first frame ends, from `from` on.
fn frame_boundary(b: &[u8], from: usize) -> (r: Option<(usize, usize)>)
    requires
        from <= b@.len(),
    ensures
        match r {
            Some((p, d)) => {
                &&& boundary(b@.skip(from as int)) == Some((p as int, d as int))
                &&& from + p + d <= b@.len()
                &&& d >= 2
            },
            None => boundary(b@.skip(from as int)) is None,
        },
{
    let ghost rest = b@.skip(from as int);
    let n: usize = b.len();
    let mut i: usize = from;
    while i < n
        invariant
            from <= i <= n,
            n == b@.len(),
            rest == b@.skip(from as int),
            boundary(rest) == boundary_from(rest, i - from),
        decreases n - i,
    {
        let left: usize = n - i;
        if left >= 2 && b[i] == 10 && b[i + 1] == 10 {
            proof {
                assert(rest[i - from] == b@[i as int] && rest[i - from + 1] == b@[i + 1]);
                assert(feeds_at(rest, i - from));
            }
            return Some((i - from, 2));
        }
        if left >= 4 && b[i] == 13 && b[i + 1] == 10 && b[i + 2] == 13 && b[i + 3] == 10 {
            proof {
                assert(rest[i - from] == b@[i as int] && rest[i - from + 1] == b@[i + 1]);
                assert(rest[i - from + 2] == b@[i + 2] && rest[i - from + 3] == b@[i + 3]);
                assert(returns_at(rest, i - from));
            }
            return Some((i - from, 4));
        }
        proof {
            let k = i - from;
            if left >= 2 {
                assert(rest[k] == b@[i as int] && rest[k + 1] == b@[i + 1]);
            }
            if left >= 4 {
                assert(rest[k + 2] == b@[i + 2] && rest[k + 3] == b@[i + 3]);
            }
            assert(!feeds_at(rest, k) && !returns_at(rest, k));
        }
        i += 1;
    }
    None
}

// ---------------------------------------------------------------------------
// Data
// ---------------------------------------------------------------------------

/// The data of a line.
pub open spec fn payload(line: Seq<char>) -> Option<Seq<char>> {
    if text::starts_with(line, "data:"@) {
        let rest = line.skip(5);
        if rest.len() > 0 && rest[0] == ' ' {
            Some(rest.skip(1))
        } else {
            Some(rest)
        }
    } else {
        None
    }
}

/// The data of lines.
pub open spec fn payloads(lines: Seq<Seq<char>>) -> Seq<Seq<char>>
    decreases lines.len(),
{
    if lines.len() == 0 {
        Seq::empty()
    } else {
        let before = payloads(lines.drop_last());
        match payload(lines.last()) {
            Some(p) => before.push(p),
            None => before,
        }
    }
}

/// The data of a frame: nothing where it has none, or what is wrong with it.
pub open spec fn data_of(frame: Seq<u8>) -> Result<Option<Seq<char>>, Seq<char>> {
    if !vstd::utf8::valid_utf8(frame) {
        Err("SSE is not valid UTF-8: "@ + text::utf8_complaint(frame))
    } else {
        let data = text::joined(
            payloads(text::lines_of(vstd::utf8::decode_utf8(frame))),
            "\n"@,
        );
        if data.len() == 0 {
            Ok(None)
        } else {
            Ok(Some(data))
        }
    }
}

/// Reads the data of a frame.
pub fn frame_data(frame: &[u8]) -> (r: model::Result<Option<String>>)
    ensures
        match data_of(frame@) {
            Ok(data) => r is Ok && text::opt_text(r->Ok_0) == data,
            Err(m) => r is Err && r->Err_0@ == model::ErrorView::Provider(m),
        },
{
    let content = match text::utf8_text(bytes::copy_bytes(frame)) {
        Ok(t) => t,
        Err(e) => {
            return Err(Error::Provider(text::cat2("SSE is not valid UTF-8: ", e.as_str())));
        },
    };
    proof {
        vstd::utf8::encode_utf8_decode_utf8(content@);
        reveal_strlit("data:");
    }
    let lines = text::split_lines(content.as_str());
    let ghost all = text::texts(lines@);
    let mut found = text::no_texts();
    let mut i: usize = 0;
    proof {
        assert(all.take(0) =~= Seq::empty());
    }
    while i < lines.len()
        invariant
            i <= lines@.len(),
            all == text::texts(lines@),
            "data:"@.len() == 5,
            text::texts(found@) == payloads(all.take(i as int)),
        decreases lines@.len() - i,
    {
        let line = lines[i].as_str();
        proof {
            assert(all.take(i + 1).drop_last() =~= all.take(i as int));
            assert(all.take(i + 1).last() == line@);
        }
        if text::begins(line, "data:") {
            let n: usize = line.unicode_len();
            let rest = line.substring_char(5, n);
            proof {
                assert(rest@ =~= line@.skip(5));
            }
            if n > 5 && rest.get_char(0) == ' ' {
                let data = rest.substring_char(1, n - 5);
                proof {
                    assert(data@ =~= rest@.skip(1));
                }
                text::push_text(&mut found, data);
            } else {
                text::push_text(&mut found, rest);
            }
        }
        i += 1;
    }
    proof {
        assert(all.take(i as int) =~= all);
    }
    let data = text::join(found.as_slice(), "\n");
    if data.as_str().is_empty() {
        Ok(None)
    } else {
        Ok(Some(data))
    }
}

// ---------------------------------------------------------------------------
// Decoding
// ---------------------------------------------------------------------------

/// One datum or none, as a list.
pub open spec fn listed(data: Option<Seq<char>>) -> Seq<Seq<char>> {
    match data {
        Some(d) => seq![d],
        None => Seq::empty(),
    }
}

/// The data of the frames that are complete, or what is wrong with the first that
/// cannot be read; and the bytes behind what was read.
pub open spec fn taken(b: Seq<u8>) -> (Result<Seq<Seq<char>>, Seq<char>>, Seq<u8>)
    decreases b.len(),
{
    match boundary(b) {
        None => (Ok(Seq::empty()), b),
        Some((p, d)) => if p < 0 || d <= 0 || p + d > b.len() {
            (Ok(Seq::empty()), b)
        } else {
            match data_of(b.take(p)) {
                Err(m) => (Err(m), b.skip(p + d)),
                Ok(data) => {
                    let (more, rest) = taken(b.skip(p + d));
                    match more {
                        Err(m) => (Err(m), rest),
                        Ok(list) => (Ok(listed(data) + list), rest),
                    }
                },
            }
        },
    }
}

/// What is taken at the end of a stream: what is left is a frame too.
pub open spec fn taken_at_end(b: Seq<u8>) -> (Result<Seq<Seq<char>>, Seq<char>>, Seq<u8>) {
    let (data, rest) = taken(b);
    match data {
        Err(m) => (Err(m), rest),
        Ok(list) => if rest.len() == 0 {
            (Ok(list), rest)
        } else {
            match data_of(rest) {
                Err(m) => (Err(m), Seq::empty()),
                Ok(last) => (Ok(list + listed(last)), Seq::empty()),
            }
        },
    }
}

/// Decodes a stream as its pieces arrive.
pub struct SseDecoder {
    pub buffer: Vec<u8>,
}

impl Default for SseDecoder {
    fn default() -> (r: Self)
        ensures
            r.buffer@.len() == 0,
    {
        SseDecoder { buffer: Vec::new() }
    }
}

fn keep(list: &mut Vec<String>, data: Option<String>)
    ensures
        text::texts(final(list)@) == text::texts(old(list)@) + listed(text::opt_text(data)),
{
    let ghost before = text::texts(list@);
    match data {
        Some(d) => {
            text::push_text(list, d.as_str());
            proof {
                assert(before + seq![d@] =~= before.push(d@));
            }
        },
        None => {
            proof {
                assert(before + Seq::<Seq<char>>::empty() =~= before);
            }
        },
    }
}

impl SseDecoder {
    /// Takes the next piece of a stream, and gives the data that it completes.
    pub fn push(&mut self, piece: &[u8]) -> (r: model::Result<Vec<String>>)
        ensures
            ({
                let (data, rest) = taken(old(self).buffer@ + piece@);
                &&& final(self).buffer@ == rest
                &&& match data {
                    Ok(list) => r is Ok && text::texts(r->Ok_0@) == list,
                    Err(m) => r is Err && r->Err_0@ == model::ErrorView::Provider(m),
                }
            }),
    {
        bytes::extend(&mut self.buffer, piece);
        self.take_frames()
    }

    fn take_frames(&mut self) -> (r: model::Result<Vec<String>>)
        ensures
            ({
                let (data, rest) = taken(old(self).buffer@);
                &&& final(self).buffer@ == rest
                &&& match data {
                    Ok(list) => r is Ok && text::texts(r->Ok_0@) == list,
                    Err(m) => r is Err && r->Err_0@ == model::ErrorView::Provider(m),
                }
            }),
    {
        let ghost all = self.buffer@;
        let n: usize = self.buffer.len();
        let mut frames = text::no_texts();
        let mut from: usize = 0;
        proof {
            assert(all.skip(0) =~= all);
            if let Ok(list) = taken(all).0 {
                assert(text::texts(frames@) + list =~= list);
            }
        }
        loop
            invariant
                from <= n,
                n == all.len(),
                all == old(self).buffer@,
                self.buffer@ == all,
                taken(all).1 == taken(all.skip(from as int)).1,
                match taken(all.skip(from as int)).0 {
                    Ok(list) => taken(all).0 == Ok::<Seq<Seq<char>>, Seq<char>>(
                        text::texts(frames@) + list,
                    ),
                    Err(m) => taken(all).0 == Err::<Seq<Seq<char>>, Seq<char>>(m),
                },
            ensures
                boundary(all.skip(from as int)) is None,
            decreases n - from,
        {
            let (position, length): (usize, usize) = match frame_boundary(
                self.buffer.as_slice(),
                from,
            ) {
                Some(found) => found,
                None => {
                    break;
                },
            };
            let ghost rest = all.skip(from as int);
            let ghost before = text::texts(frames@);
            let data = frame_data(slice_subrange(self.buffer.as_slice(), from, from + position));
            let next: usize = from + position + length;
            proof {
                assert(all.subrange(from as int, from + position) =~= rest.take(position as int));
                assert(rest.skip(position + length) =~= all.skip(next as int));
            }
            match data {
                Err(e) => {
                    let left = bytes::copy_bytes(slice_subrange(self.buffer.as_slice(), next, n));
                    proof {
                        assert(left@ =~= all.skip(next as int));
                    }
                    self.buffer = left;
                    return Err(e);
                },
                Ok(data) => {
                    let ghost one = listed(text::opt_text(data));
                    keep(&mut frames, data);
                    proof {
                        if let Ok(list) = taken(all.skip(next as int)).0 {
                            assert(before + (one + list) =~= text::texts(frames@) + list);
                        }
                    }
                },
            }
            from = next;
        }
        let left = bytes::copy_bytes(slice_subrange(self.buffer.as_slice(), from, n));
        proof {
            assert(left@ =~= all.skip(from as int));
            assert(text::texts(frames@) + Seq::<Seq<char>>::empty() =~= text::texts(frames@));
        }
        self.buffer = left;
        Ok(frames)
    }

    /// Ends the stream, and gives the data of what is left.
    pub fn finish(&mut self) -> (r: model::Result<Vec<String>>)
        ensures
            ({
                let (data, rest) = taken_at_end(old(self).buffer@);
                &&& final(self).buffer@ == rest
                &&& match data {
                    Ok(list) => r is Ok && text::texts(r->Ok_0@) == list,
                    Err(m) => r is Err && r->Err_0@ == model::ErrorView::Provider(m),
                }
            }),
    {
        let mut frames = match self.take_frames() {
            Ok(f) => f,
            Err(e) => {
                return Err(e);
            },
        };
        if self.buffer.len() > 0 {
            let data = frame_data(self.buffer.as_slice());
            self.buffer = Vec::new();
            proof {
                assert(self.buffer@ =~= Seq::empty());
            }
            match data {
                Err(e) => {
                    return Err(e);
                },
                Ok(data) => {
                    keep(&mut frames, data);
                },
            }
        }
        Ok(frames)
    }
}

/// Decoding does not depend on how a stream arrives: what a first piece completes
/// comes first, and what it leaves is continued by the second. What cannot be read
/// in the first piece cannot be read in both.
pub proof fn law_events_do_not_depend_on_pieces(a: Seq<u8>, b: Seq<u8>)
    ensures
        match taken(a).0 {
            Err(m) => taken(a + b).0 == Err::<Seq<Seq<char>>, Seq<char>>(m),
            Ok(first) => match taken(taken(a).1 + b).0 {
                Err(m) => taken(a + b).0 == Err::<Seq<Seq<char>>, Seq<char>>(m),
                Ok(second) => {
                    &&& taken(a + b).0 == Ok::<Seq<Seq<char>>, Seq<char>>(first + second)
                    &&& taken(a + b).1 == taken(taken(a).1 + b).1
                },
            },
        },
    decreases a.len(),
{
    match boundary(a) {
        None => {
            if let Ok(second) = taken(a + b).0 {
                assert(Seq::<Seq<char>>::empty() + second =~= second);
            }
        },
        Some((p, d)) => {
            lemma_boundary(a, 0);
            lemma_boundary_stays(a, b);
            let rest = a.skip(p + d);
            assert((a + b).take(p) =~= a.take(p));
            assert((a + b).skip(p + d) =~= rest + b);
            law_events_do_not_depend_on_pieces(rest, b);
            if let Ok(data) = data_of(a.take(p)) {
                if let Ok(first) = taken(rest).0 {
                    if let Ok(second) = taken(taken(rest).1 + b).0 {
                        assert(listed(data) + (first + second) =~= (listed(data) + first)
                            + second);
                    }
                }
            }
        },
    }
}

/// What a line says follows its field name, and one blank behind the name does not
/// belong to it. Other lines say nothing. Lines keep their order.
pub proof fn law_data_lines_are_read(
    a: Seq<Seq<char>>,
    b: Seq<Seq<char>>,
    line: Seq<char>,
    said: Seq<char>,
)
    ensures
        payload("data: "@ + said) == Some(said),
        said.len() == 0 || said[0] != ' ' ==> payload("data:"@ + said) == Some(said),
        !text::starts_with(line, "data:"@) ==> payload(line) is None,
        payloads(a + b) == payloads(a) + payloads(b),
        payload(line) matches Some(p) ==> payloads(seq![line]) == seq![p],
        payload(line) is None ==> payloads(seq![line]).len() == 0,
    decreases b.len(),
{
    reveal_strlit("data: ");
    reveal_strlit("data:");
    let x = "data: "@ + said;
    let y = "data:"@ + said;
    assert(x.subrange(0, 5) =~= "data:"@);
    assert(y.subrange(0, 5) =~= "data:"@);
    assert(x.skip(5).skip(1) =~= said);
    assert(y.skip(5) =~= said);
    reveal_with_fuel(payloads, 2);
    assert(seq![line].drop_last() =~= Seq::empty());
    if payload(line) is Some {
        assert(payloads(seq![line]) =~= seq![payload(line)->0]);
    }
    if b.len() == 0 {
        assert(a + b =~= a);
        assert(payloads(a) + payloads(b) =~= payloads(a));
    } else {
        law_data_lines_are_read(a, b.drop_last(), line, said);
        assert((a + b).drop_last() =~= a + b.drop_last());
        assert((a + b).last() == b.last());
        assert(payloads(a + b) =~= payloads(a) + payloads(b));
    }
}

/// An event ends at the first blank line, which is made of two line feeds or of two
/// carriage returns with their line feeds. What is not ended is kept for later.
pub proof fn law_events_end_at_blank_lines(event: Seq<u8>, rest: Seq<u8>)
    requires
        !holds_blank_line(event.push(10u8)),
        !holds_blank_line(event + seq![13u8, 10u8, 13u8]),
        vstd::utf8::valid_utf8(event),
    ensures
        taken(event).0 == Ok::<Seq<Seq<char>>, Seq<char>>(Seq::empty()),
        taken(event).1 == event,
        taken(rest).0 matches Ok(later) ==> {
            let said = text::joined(
                payloads(text::lines_of(vstd::utf8::decode_utf8(event))),
                seq!['\n'],
            );
            let all = if said.len() == 0 {
                later
            } else {
                seq![said] + later
            };
            &&& taken(event + seq![10u8, 10u8] + rest) == (
                Ok::<Seq<Seq<char>>, Seq<char>>(all),
                taken(rest).1,
            )
            &&& taken(event + seq![13u8, 10u8, 13u8, 10u8] + rest) == (
                Ok::<Seq<Seq<char>>, Seq<char>>(all),
                taken(rest).1,
            )
        },
{
    reveal_strlit("\n");
    assert("\n"@ =~= seq!['\n']);
    let n = event.len() as int;
    let a = event + seq![10u8, 10u8] + rest;
    let b = event + seq![13u8, 10u8, 13u8, 10u8] + rest;
    let short = event.push(10u8);
    let long = event + seq![13u8, 10u8, 13u8];
    assert forall|i: int| 0 <= i < n implies #[trigger] no_boundary(event, i) by {
        if feeds_at(event, i) {
            assert(short.subrange(i, i + 2) =~= seq![10u8, 10u8]);
        }
        if returns_at(event, i) {
            assert(short.subrange(i, i + 4) =~= seq![13u8, 10u8, 13u8, 10u8]);
        }
    }
    lemma_boundary_at(event, 0, n);
    assert forall|i: int| 0 <= i < n implies #[trigger] no_boundary(a, i) by {
        if feeds_at(a, i) {
            assert(short.subrange(i, i + 2) =~= seq![10u8, 10u8]);
        }
        if returns_at(a, i) {
            if i + 4 <= n + 1 {
                assert(short.subrange(i, i + 4) =~= seq![13u8, 10u8, 13u8, 10u8]);
            } else {
                assert(a[n] == 10 && a[n + 1] == 10);
                assert(i + 3 == n + 1 || i + 3 == n + 2 || i + 3 >= n);
            }
        }
    }
    assert(feeds_at(a, n));
    lemma_boundary_at(a, 0, n);
    assert(a.take(n) =~= event);
    assert(a.skip(n + 2) =~= rest);
    assert forall|i: int| 0 <= i < n implies #[trigger] no_boundary(b, i) by {
        if feeds_at(b, i) {
            assert(long.subrange(i, i + 2) =~= seq![10u8, 10u8]);
        }
        if returns_at(b, i) {
            if i + 4 <= n + 3 {
                assert(long.subrange(i, i + 4) =~= seq![13u8, 10u8, 13u8, 10u8]);
            }
        }
    }
    assert(returns_at(b, n));
    lemma_boundary_at(b, 0, n);
    assert(b.take(n) =~= event);
    assert(b.skip(n + 4) =~= rest);
    if let Ok(later) = taken(rest).0 {
        assert(Seq::<Seq<char>>::empty() + later =~= later);
    }
}

/// Whether a blank line stands somewhere in the bytes.
pub open spec fn holds_blank_line(b: Seq<u8>) -> bool {
    exists|i: int, j: int|
        #![trigger b.subrange(i, j)]
        0 <= i <= j <= b.len() && (b.subrange(i, j) == seq![10u8, 10u8] || b.subrange(i, j) == seq![
            13u8,
            10u8,
            13u8,
            10u8,
        ])
}

spec fn no_boundary(b: Seq<u8>, i: int) -> bool {
    !feeds_at(b, i) && !returns_at(b, i)
}

proof fn lemma_boundary_at(b: Seq<u8>, from: int, at: int)
    requires
        0 <= from <= at <= b.len(),
        forall|i: int| from <= i < at ==> #[trigger] no_boundary(b, i),
        at < b.len() ==> feeds_at(b, at) || returns_at(b, at),
    ensures
        boundary_from(b, from) == (if at >= b.len() {
            None
        } else if feeds_at(b, at) {
            Some((at, 2int))
        } else {
            Some((at, 4int))
        }),
    decreases at - from,
{
    if from < at {
        assert(no_boundary(b, from));
        lemma_boundary_at(b, from + 1, at);
    }
}

/// What is left at the end of a stream is an event too, if it says anything.
pub proof fn law_the_end_completes_an_event(event: Seq<u8>)
    requires
        !holds_blank_line(event.push(10u8)),
        !holds_blank_line(event + seq![13u8, 10u8, 13u8]),
        vstd::utf8::valid_utf8(event),
    ensures
        ({
            let said = text::joined(
                payloads(text::lines_of(vstd::utf8::decode_utf8(event))),
                seq!['\n'],
            );
            &&& event.len() > 0 && said.len() > 0 ==> taken_at_end(event).0 == Ok::<
                Seq<Seq<char>>,
                Seq<char>,
            >(seq![said])
            &&& event.len() == 0 || said.len() == 0 ==> taken_at_end(event).0 == Ok::<
                Seq<Seq<char>>,
                Seq<char>,
            >(Seq::empty())
            &&& taken_at_end(event).1.len() == 0
        }),
{
    reveal_strlit("\n");
    assert("\n"@ =~= seq!['\n']);
    law_events_end_at_blank_lines(event, Seq::empty());
    let said = text::joined(
        payloads(text::lines_of(vstd::utf8::decode_utf8(event))),
        seq!['\n'],
    );
    assert(Seq::<Seq<char>>::empty() + seq![said] =~= seq![said]);
    assert(Seq::<Seq<char>>::empty() + Seq::<Seq<char>>::empty() =~= Seq::empty());
}

} // verus!
