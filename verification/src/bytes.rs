//! Byte buffers that are read line by line.
use vstd::prelude::*;
use vstd::slice::slice_subrange;

verus! {

/// The text that bytes stand for, with replacement characters in place of
/// what is no UTF-8.
pub uninterp spec fn lossy(bytes: Seq<u8>) -> Seq<char>;

/// Calls `String::from_utf8_lossy`. Claims that the text depends on the bytes
/// alone, and that valid UTF-8 is decoded as it stands.
#[verifier::external_body]
pub(crate) fn lossy_text(bytes: &[u8]) -> (text: String)
    ensures
        text@ == lossy(bytes@),
        vstd::utf8::valid_utf8(bytes@) ==> text@ == vstd::utf8::decode_utf8(bytes@),
{
    String::from_utf8_lossy(bytes).into_owned()
}

/// The position of the first `x`, or the length without one.
pub open spec fn byte_index(b: Seq<u8>, x: u8) -> int
    decreases b.len(),
{
    if b.len() == 0 || b[0] == x {
        0
    } else {
        1 + byte_index(b.drop_first(), x)
    }
}

pub proof fn lemma_byte_index(b: Seq<u8>, x: u8)
    ensures
        0 <= byte_index(b, x) <= b.len(),
        forall|j: int| 0 <= j < byte_index(b, x) ==> #[trigger] b[j] != x,
        byte_index(b, x) < b.len() ==> b[byte_index(b, x)] == x,
    decreases b.len(),
{
    if b.len() > 0 && b[0] != x {
        let t = b.drop_first();
        lemma_byte_index(t, x);
        assert forall|j: int| 0 <= j < byte_index(b, x) implies #[trigger] b[j] != x by {
            if j > 0 {
                assert(t[j - 1] == b[j]);
            }
        }
    }
}

pub proof fn lemma_byte_index_is(b: Seq<u8>, x: u8, i: int)
    requires
        0 <= i <= b.len(),
        forall|j: int| 0 <= j < i ==> #[trigger] b[j] != x,
        i == b.len() || b[i] == x,
    ensures
        byte_index(b, x) == i,
{
    lemma_byte_index(b, x);
    let k = byte_index(b, x);
    if k < i {
        assert(b[k] != x);
    } else if i < k {
        assert(b[i] != x);
    }
}

/// The position of the first `x` at or after `from`, or the length.
pub fn find_byte(b: &[u8], x: u8, from: usize) -> (i: usize)
    requires
        from <= b@.len(),
    ensures
        from <= i <= b@.len(),
        i - from == byte_index(b@.skip(from as int), x),
{
    let mut i: usize = from;
    while i < b.len() && b[i] != x
        invariant
            from <= i <= b@.len(),
            forall|j: int| from <= j < i ==> #[trigger] b@[j] != x,
        decreases b@.len() - i,
    {
        i += 1;
    }
    proof {
        let rest = b@.skip(from as int);
        assert forall|j: int| 0 <= j < i - from implies #[trigger] rest[j] != x by {
            assert(b@[j + from] != x);
        }
        lemma_byte_index_is(rest, x, i - from);
    }
    i
}

/// A copy of bytes.
pub fn copy_bytes(b: &[u8]) -> (r: Vec<u8>)
    ensures
        r@ == b@,
{
    let mut out: Vec<u8> = Vec::new();
    let mut i: usize = 0;
    while i < b.len()
        invariant
            i <= b@.len(),
            out@ == b@.take(i as int),
        decreases b@.len() - i,
    {
        out.push(b[i]);
        i += 1;
    }
    out
}

/// Appends bytes to a buffer.
pub fn extend(buffer: &mut Vec<u8>, b: &[u8])
    ensures
        final(buffer)@ == old(buffer)@ + b@,
{
    let ghost start = buffer@;
    let mut i: usize = 0;
    proof {
        assert(start + b@.take(0) =~= start);
    }
    while i < b.len()
        invariant
            i <= b@.len(),
            buffer@ == start + b@.take(i as int),
        decreases b@.len() - i,
    {
        buffer.push(b[i]);
        proof {
            assert(b@.take(i + 1) =~= b@.take(i as int).push(b@[i as int]));
            assert((start + b@.take(i as int)).push(b@[i as int]) =~= start + b@.take(i + 1));
        }
        i += 1;
    }
    proof {
        assert(b@.take(i as int) =~= b@);
    }
}

/// Whether two slices hold the same bytes.
pub fn same_bytes(a: &[u8], b: &[u8]) -> (r: bool)
    ensures
        r == (a@ == b@),
{
    if a.len() != b.len() {
        return false;
    }
    let mut i: usize = 0;
    while i < a.len()
        invariant
            i <= a@.len(),
            a@.len() == b@.len(),
            forall|j: int| 0 <= j < i ==> a@[j] == b@[j],
        decreases a@.len() - i,
    {
        if a[i] != b[i] {
            return false;
        }
        i += 1;
    }
    proof {
        assert(a@ =~= b@);
    }
    true
}

/// The lines of `b` that are complete, each with its line feed.
pub open spec fn complete_lines(b: Seq<u8>) -> Seq<Seq<u8>>
    decreases b.len(),
{
    let i = byte_index(b, 10);
    if i < 0 || i >= b.len() {
        Seq::empty()
    } else {
        seq![b.take(i + 1)] + complete_lines(b.skip(i + 1))
    }
}

/// What stands behind the last line feed of `b`.
pub open spec fn unfinished(b: Seq<u8>) -> Seq<u8>
    decreases b.len(),
{
    let i = byte_index(b, 10);
    if i < 0 || i >= b.len() {
        b
    } else {
        unfinished(b.skip(i + 1))
    }
}

/// Takes the first complete line out of a buffer.
pub fn take_line(buffer: &mut Vec<u8>) -> (r: Option<Vec<u8>>)
    ensures
        ({
            let i = byte_index(old(buffer)@, 10);
            if i < old(buffer)@.len() {
                &&& r is Some && r->0@ == old(buffer)@.take(i + 1)
                &&& final(buffer)@ == old(buffer)@.skip(i + 1)
            } else {
                r is None && final(buffer)@ == old(buffer)@
            }
        }),
{
    let i: usize = find_byte(buffer.as_slice(), 10, 0);
    proof {
        assert(buffer@.skip(0) =~= buffer@);
    }
    if i == buffer.len() {
        return None;
    }
    let rest = copy_bytes(slice_subrange(buffer.as_slice(), i + 1, buffer.len()));
    let line = copy_bytes(slice_subrange(buffer.as_slice(), 0, i + 1));
    proof {
        assert(rest@ =~= old(buffer)@.skip(i + 1));
        assert(line@ =~= old(buffer)@.take(i + 1));
    }
    *buffer = rest;
    Some(line)
}

/// Reading lines does not depend on how the bytes arrive: what is complete after
/// a first piece comes first, and what it left unfinished is continued by the
/// second piece.
pub proof fn law_lines_do_not_depend_on_pieces(a: Seq<u8>, b: Seq<u8>)
    ensures
        complete_lines(a + b) == complete_lines(a) + complete_lines(unfinished(a) + b),
        unfinished(a + b) == unfinished(unfinished(a) + b),
    decreases a.len(),
{
    lemma_byte_index(a, 10);
    let i = byte_index(a, 10);
    if i < a.len() {
        assert forall|j: int| 0 <= j < i implies #[trigger] (a + b)[j] != 10 by {
            assert((a + b)[j] == a[j]);
        }
        lemma_byte_index_is(a + b, 10, i);
        assert((a + b).take(i + 1) =~= a.take(i + 1));
        assert((a + b).skip(i + 1) =~= a.skip(i + 1) + b);
        law_lines_do_not_depend_on_pieces(a.skip(i + 1), b);
        assert(seq![a.take(i + 1)] + (complete_lines(a.skip(i + 1)) + complete_lines(
            unfinished(a) + b,
        )) =~= complete_lines(a) + complete_lines(unfinished(a) + b));
    } else {
        assert(complete_lines(a) + complete_lines(a + b) =~= complete_lines(a + b));
    }
}

/// Bytes are made of the lines that are complete and of the rest, which has no line end.
/// A line has its end as its last byte and nowhere else.
pub proof fn law_bytes_are_made_of_lines(line: Seq<u8>, rest: Seq<u8>)
    requires
        !line.contains(10u8),
    ensures
        complete_lines(line.push(10u8) + rest) == seq![line.push(10u8)] + complete_lines(rest),
        unfinished(line.push(10u8) + rest) == unfinished(rest),
        complete_lines(line).len() == 0,
        unfinished(line) == line,
{
    let b = line.push(10u8) + rest;
    let n = line.len() as int;
    lemma_index_is(b, n);
    lemma_index_is(line, n);
    assert(b.take(n + 1) =~= line.push(10u8));
    assert(b.skip(n + 1) =~= rest);
}

proof fn lemma_index_is(b: Seq<u8>, n: int)
    requires
        0 <= n <= b.len(),
        !b.take(n).contains(10u8),
        n < b.len() ==> b[n] == 10,
    ensures
        byte_index(b, 10) == n,
    decreases n,
{
    if n > 0 {
        let rest = b.drop_first();
        assert(b.take(n)[0] == b[0]);
        assert(b.take(n).contains(b[0]));
        assert(!rest.take(n - 1).contains(10u8)) by {
            if rest.take(n - 1).contains(10u8) {
                let k = rest.take(n - 1).index_of(10u8);
                assert(b.take(n)[k + 1] == 10u8);
            }
        }
        lemma_index_is(rest, n - 1);
    }
}

} // verus!
