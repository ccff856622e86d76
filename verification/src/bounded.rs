//! Texts that may not grow beyond a number of bytes.
use crate::text;
use vstd::prelude::*;
use vstd::slice::slice_subrange;

verus! {

/// How many leading characters of `value` fit into `room` bytes.
pub open spec fn fitting(value: Seq<char>, room: nat) -> nat
    decreases value.len(),
{
    if value.len() == 0 || text::char_width(value[0]) > room {
        0
    } else {
        1 + fitting(value.drop_first(), (room - text::char_width(value[0])) as nat)
    }
}

/// How many bytes are left below `limit`.
pub open spec fn room_for(target: Seq<char>, limit: nat) -> nat {
    if text::utf8_len(target) >= limit {
        0
    } else {
        (limit - text::utf8_len(target)) as nat
    }
}

/// `target` with as many leading characters of `value` behind it as fit.
pub open spec fn extended(target: Seq<char>, value: Seq<char>, limit: nat) -> Seq<char> {
    target + value.take(fitting(value, room_for(target, limit)) as int)
}

/// Not all of `value` fits behind `target`.
pub open spec fn overflows(target: Seq<char>, value: Seq<char>, limit: nat) -> bool {
    text::utf8_len(value) > room_for(target, limit)
}

proof fn lemma_utf8_len_first(s: Seq<char>)
    requires
        s.len() > 0,
    ensures
        text::utf8_len(s) == text::char_width(s[0]) + text::utf8_len(s.drop_first()),
{
    text::lemma_utf8_len_concat(s.take(1), s.drop_first());
    assert(s.take(1) + s.drop_first() =~= s);
    assert(s.take(1).drop_last() =~= Seq::empty());
    reveal_with_fuel(text::utf8_len, 2);
}

/// What fits is the longest prefix of whole characters that keeps to the room.
pub proof fn lemma_fitting(value: Seq<char>, room: nat)
    ensures
        fitting(value, room) <= value.len(),
        text::utf8_len(value.take(fitting(value, room) as int)) <= room,
        fitting(value, room) < value.len() ==> text::utf8_len(
            value.take(fitting(value, room) as int + 1),
        ) > room,
        (text::utf8_len(value) <= room) == (fitting(value, room) == value.len()),
    decreases value.len(),
{
    let n = fitting(value, room) as int;
    if value.len() == 0 {
        assert(value.take(0) =~= value);
    } else {
        lemma_utf8_len_first(value);
        if text::char_width(value[0]) > room {
            assert(value.take(0).len() == 0);
            let one = value.take(1);
            lemma_utf8_len_first(one);
            assert(one[0] == value[0]);
        } else {
            let rest = value.drop_first();
            let left = (room - text::char_width(value[0])) as nat;
            lemma_fitting(rest, left);
            let p = value.take(n);
            lemma_utf8_len_first(p);
            assert(p.drop_first() =~= rest.take(n - 1));
            if n < value.len() {
                let q = value.take(n + 1);
                lemma_utf8_len_first(q);
                assert(q.drop_first() =~= rest.take(n));
            }
        }
    }
}

proof fn lemma_fitting_is(value: Seq<char>, room: nat, n: int)
    requires
        0 <= n <= value.len(),
        text::utf8_len(value.take(n)) <= room,
        n < value.len() ==> text::utf8_len(value.take(n + 1)) > room,
    ensures
        fitting(value, room) == n,
{
    lemma_fitting(value, room);
    let m = fitting(value, room) as int;
    if m < n {
        if m + 1 < n {
            text::lemma_utf8_len_strict(value, m + 1, n);
        }
    } else if n < m {
        if n + 1 < m {
            text::lemma_utf8_len_strict(value, n + 1, m);
        }
    }
}

/// A bounded text never grows beyond its limit, keeps what it held, and takes
/// the whole of what is appended exactly where that fits.
pub proof fn law_bounded_text_keeps_its_limit(target: Seq<char>, value: Seq<char>, limit: nat)
    requires
        text::utf8_len(target) <= limit,
    ensures
        text::utf8_len(extended(target, value, limit)) <= limit,
        extended(target, value, limit).take(target.len() as int) == target,
        overflows(target, value, limit) == (extended(target, value, limit) != target + value),
{
    let room = room_for(target, limit);
    lemma_fitting(value, room);
    let n = fitting(value, room) as int;
    text::lemma_utf8_len_concat(target, value.take(n));
    assert(extended(target, value, limit).take(target.len() as int) =~= target);
    if n == value.len() {
        assert(value.take(n) =~= value);
    } else {
        assert(extended(target, value, limit).len() < (target + value).len());
    }
}

/// Appends as much of `value` as keeps `target` within `limit` bytes, in whole
/// characters. Notes where something was left out.
pub fn append_bounded(target: &mut String, value: &str, limit: usize, truncated: &mut bool)
    ensures
        final(target)@ == extended(old(target)@, value@, limit as nat),
        *final(truncated) == (*old(truncated) || overflows(old(target)@, value@, limit as nat)),
{
    let used: usize = text::byte_len(target.as_str());
    let room: usize = if used >= limit {
        0
    } else {
        limit - used
    };
    proof {
        assert(room == room_for(target@, limit as nat));
        lemma_fitting(value@, room as nat);
    }
    if text::byte_len(value) <= room {
        target.push_str(value);
        proof {
            assert(value@.take(value@.len() as int) =~= value@);
        }
        return;
    }
    let cs = text::to_chars(value);
    let mut n: usize = 0;
    let mut left: usize = room;
    proof {
        assert(cs@.take(0).len() == 0);
    }
    while n < cs.len() && text::width_of(cs[n]) <= left
        invariant
            n <= cs@.len(),
            left <= room,
            text::utf8_len(cs@.take(n as int)) == room - left,
        decreases cs@.len() - n,
    {
        proof {
            assert(cs@.take(n + 1) =~= cs@.take(n as int).push(cs@[n as int]));
            text::lemma_utf8_len_push(cs@.take(n as int), cs@[n as int]);
        }
        left = left - text::width_of(cs[n]);
        n += 1;
    }
    proof {
        if n < cs@.len() {
            assert(cs@.take(n + 1) =~= cs@.take(n as int).push(cs@[n as int]));
            text::lemma_utf8_len_push(cs@.take(n as int), cs@[n as int]);
        }
        lemma_fitting_is(value@, room as nat, n as int);
    }
    let part = text::from_chars(slice_subrange(cs.as_slice(), 0, n));
    target.push_str(part.as_str());
    *truncated = true;
}

/// Only what no longer fits is left out: the next character would go past the limit.
pub proof fn law_bounded_text_takes_all_that_fits(target: Seq<char>, value: Seq<char>, limit: nat)
    requires
        text::utf8_len(target) <= limit,
    ensures
        ({
            let all = extended(target, value, limit);
            let n = all.len() - target.len();
            &&& 0 <= n <= value.len()
            &&& all == target + value.take(n)
            &&& n < value.len() ==> text::utf8_len(all) + text::char_width(value[n]) > limit
        }),
{
    let room = room_for(target, limit);
    lemma_fitting_is_most(value, room);
    let n = fitting(value, room) as int;
    text::lemma_utf8_len_concat(target, value.take(n));
}

proof fn lemma_fitting_is_most(value: Seq<char>, room: nat)
    ensures
        fitting(value, room) <= value.len(),
        fitting(value, room) < value.len() ==> text::utf8_len(
            value.take(fitting(value, room) as int),
        ) + text::char_width(value[fitting(value, room) as int]) > room,
    decreases value.len(),
{
    if value.len() > 0 && text::char_width(value[0]) <= room {
        let rest = value.drop_first();
        let left = (room - text::char_width(value[0])) as nat;
        lemma_fitting_is_most(rest, left);
        let k = fitting(rest, left) as int;
        assert(value.take(k + 1).drop_first() =~= rest.take(k));
        lemma_utf8_len_first(value.take(k + 1));
    } else if value.len() > 0 {
        assert(text::utf8_len(value.take(0)) == 0);
    }
}

} // verus!
