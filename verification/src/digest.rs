//! SHA-256 digests and their hexadecimal spelling.
use sha2::Digest;
use vstd::prelude::*;

verus! {

/// The SHA-256 digest of a message.
pub uninterp spec fn sha256(message: Seq<u8>) -> Seq<u8>;

/// Calls `sha2::Sha256::digest`. Claims that the digest is a function of the
/// message alone, named `sha256`, and that it has 32 bytes.
#[verifier::external_body]
pub(crate) fn sha256_digest(message: &[u8]) -> (digest: Vec<u8>)
    ensures
        digest@ == sha256(message@),
        digest@.len() == 32,
{
    sha2::Sha256::digest(message).to_vec()
}

/// The lower-case hexadecimal digit of `d`.
pub open spec fn hex_digit(d: int) -> char {
    if d < 10 {
        (48 + d) as char
    } else {
        (87 + d) as char
    }
}

/// Bytes in lower-case hexadecimal, two digits each.
pub open spec fn hex(bytes: Seq<u8>) -> Seq<char> {
    Seq::new(
        2 * bytes.len(),
        |i: int| hex_digit(if i % 2 == 0 { bytes[i / 2] as int / 16 } else { bytes[i / 2] as int % 16 }),
    )
}

fn hex_char(d: u8) -> (c: char)
    requires
        d < 16,
    ensures
        c == hex_digit(d as int),
{
    if d < 10 {
        (48u8 + d) as char
    } else {
        (87u8 + d) as char
    }
}

/// Spells the first `count` bytes in hexadecimal.
pub fn hex_prefix(bytes: &[u8], count: usize) -> (s: String)
    requires
        count <= bytes@.len(),
    ensures
        s@ == hex(bytes@.take(count as int)),
{
    let mut out = String::new();
    let mut i: usize = 0;
    while i < count
        invariant
            i <= count <= bytes@.len(),
            out@ == hex(bytes@.take(i as int)),
        decreases count - i,
    {
        out.push(hex_char(bytes[i] / 16));
        out.push(hex_char(bytes[i] % 16));
        proof {
            let a = hex(bytes@.take(i as int));
            let b = hex(bytes@.take(i + 1));
            assert(b.len() == a.len() + 2);
            assert forall|k: int| 0 <= k < a.len() implies a[k] == b[k] by {}
            assert(out@ =~= b);
        }
        i += 1;
    }
    out
}

/// The SHA-256 digest of `bytes` in hexadecimal.
pub fn sha256_hex(bytes: &[u8]) -> (s: String)
    ensures
        s@ == hex(sha256(bytes@)),
        s@.len() == 64,
{
    let digest = sha256_digest(bytes);
    proof {
        assert(digest@.take(32) =~= digest@);
    }
    hex_prefix(digest.as_slice(), 32)
}

/// A byte is written with two digits, the higher half first, and bytes one behind the
/// other.
pub proof fn law_bytes_are_written_in_sixteens(a: Seq<u8>, b: Seq<u8>, x: u8)
    ensures
        hex(seq![x]) == seq![
            "0123456789abcdef"@[x as int / 16],
            "0123456789abcdef"@[x as int % 16],
        ],
        hex(a + b) == hex(a) + hex(b),
{
    reveal_strlit("0123456789abcdef");
    let hi = x as int / 16;
    let lo = x as int % 16;
    assert(hex_digit(hi) == "0123456789abcdef"@[hi]);
    assert(hex_digit(lo) == "0123456789abcdef"@[lo]);
    assert(hex(seq![x]) =~= seq![hex_digit(hi), hex_digit(lo)]);
    assert(hex(a + b).len() == (hex(a) + hex(b)).len());
    assert forall|i: int| 0 <= i < hex(a + b).len() implies hex(a + b)[i] == (hex(a) + hex(
        b,
    ))[i] by {
        if i >= 2 * a.len() {
            let j = i - 2 * a.len();
            assert(i / 2 == a.len() + j / 2 && i % 2 == j % 2);
            assert((a + b)[i / 2] == b[j / 2]);
        } else {
            assert((a + b)[i / 2] == a[i / 2]);
        }
    }
    assert(hex(a + b) =~= hex(a) + hex(b));
}

} // verus!
