//! Points in time that are all different: the clock in milliseconds, and a number
//! that counts within one millisecond.
use core::cmp::Ordering;
use vstd::prelude::*;
use vstd::std_specs::cmp::PartialOrdSpec;

verus! {

/// A point in time.
#[derive(Clone, Copy, Debug, PartialEq, Eq, Ord, Hash, Structural)]
pub struct TimeSeq {
    pub timestamp: u64,
    pub sequence: u16,
}

/// The largest time that can be told.
pub const TIMESTAMP_MASK: u64 = 0xffff_ffff_ffff;

/// The largest number within a millisecond.
pub const SEQ_MASK: u64 = 0xffff;

impl TimeSeq {
    /// The next point in time; see `TimeSeqGenerator::generate`.
    pub fn new(generator: &mut TimeSeqGenerator) -> (r: Option<TimeSeq>)
        ensures
            match r {
                Some(t) => {
                    &&& comes_next(old(generator).state, t)
                    &&& final(generator).state == place(t)
                    &&& place(t) > old(generator).state
                },
                None => final(generator).state == old(generator).state,
            },
    {
        generator.generate()
    }

    /// The next point in time; see `TimeSeqGenerator::generate`.
    pub fn now(generator: &mut TimeSeqGenerator) -> (r: Option<TimeSeq>)
        ensures
            match r {
                Some(t) => {
                    &&& comes_next(old(generator).state, t)
                    &&& final(generator).state == place(t)
                    &&& place(t) > old(generator).state
                },
                None => final(generator).state == old(generator).state,
            },
    {
        generator.generate()
    }

    pub fn from_parts(timestamp: u64, sequence: u16) -> (r: Self)
        ensures
            r == (TimeSeq { timestamp, sequence }),
    {
        TimeSeq { timestamp, sequence }
    }
}

/// The place of a point in time among all.
pub open spec fn place(t: TimeSeq) -> int {
    t.timestamp * 65536 + t.sequence
}

/// Whether one point in time comes before another.
pub open spec fn before(a: TimeSeq, b: TimeSeq) -> bool {
    a.timestamp < b.timestamp || (a.timestamp == b.timestamp && a.sequence < b.sequence)
}

impl PartialOrd for TimeSeq {
    fn partial_cmp(&self, other: &TimeSeq) -> (r: Option<Ordering>)
    {
        if self.timestamp < other.timestamp {
            Some(Ordering::Less)
        } else if self.timestamp > other.timestamp {
            Some(Ordering::Greater)
        } else if self.sequence < other.sequence {
            Some(Ordering::Less)
        } else if self.sequence > other.sequence {
            Some(Ordering::Greater)
        } else {
            Some(Ordering::Equal)
        }
    }
}

impl vstd::std_specs::cmp::PartialOrdSpecImpl for TimeSeq {
    open spec fn obeys_partial_cmp_spec() -> bool {
        true
    }

    open spec fn partial_cmp_spec(&self, other: &TimeSeq) -> Option<Ordering> {
        if before(*self, *other) {
            Some(Ordering::Less)
        } else if before(*other, *self) {
            Some(Ordering::Greater)
        } else {
            Some(Ordering::Equal)
        }
    }
}

/// Points in time are ordered by their times, and within one millisecond by their
/// numbers. Comparing them tells that order, and equal ones are the same.
pub proof fn law_times_are_ordered(t1: u64, s1: u16, t2: u64, s2: u16)
    ensures
        ({
            let a = TimeSeq { timestamp: t1, sequence: s1 };
            let b = TimeSeq { timestamp: t2, sequence: s2 };
            &&& a.partial_cmp_spec(&b) == Some(Ordering::Less) <==> t1 < t2 || (t1 == t2 && s1
                < s2)
            &&& a.partial_cmp_spec(&b) == Some(Ordering::Greater) <==> b.partial_cmp_spec(&a)
                == Some(Ordering::Less)
            &&& a.partial_cmp_spec(&b) == Some(Ordering::Equal) <==> a == b
            &&& before(a, b) <==> place(a) < place(b)
        }),
{
}

/// What issues points in time.
pub struct TimeSeqGenerator {
    /// The last one that was issued: its time in the upper 48 bits, its number in
    /// the lower 16.
    pub state: u64,
}

/// The point in time that follows the one at `state`, while the clock shows `now`;
/// none where all numbers of the millisecond are used up.
pub open spec fn following(state: u64, now: u64) -> Option<TimeSeq> {
    let timestamp = state as int / 65536;
    let sequence = state as int % 65536;
    if now > timestamp {
        Some(TimeSeq { timestamp: now, sequence: 0 })
    } else if sequence < 65535 {
        Some(TimeSeq { timestamp: timestamp as u64, sequence: (sequence + 1) as u16 })
    } else {
        None
    }
}

/// Whether a point in time is the one that follows `state`, for some time that the
/// clock can show.
pub open spec fn comes_next(state: u64, t: TimeSeq) -> bool {
    exists|now: u64| now <= TIMESTAMP_MASK && #[trigger] following(state, now) == Some(t)
}

/// Calls `std::time::SystemTime::now` and takes the milliseconds since the epoch.
/// The time is the machine's: nothing is claimed of it.
#[verifier::external_body]
fn current_timestamp() -> (now: u64)
{
    std::time::SystemTime::now()
        .duration_since(std::time::UNIX_EPOCH)
        .map(|duration| duration.as_millis() as u64)
        .unwrap_or_default()
}

impl Default for TimeSeqGenerator {
    fn default() -> (r: Self)
        ensures
            r.state == 0,
    {
        TimeSeqGenerator::new()
    }
}

impl TimeSeqGenerator {
    pub fn new() -> (r: Self)
        ensures
            r.state == 0,
    {
        TimeSeqGenerator { state: 0 }
    }

    /// Issues the next point in time, while the clock shows `now`; nothing where the
    /// caller has to wait for the clock.
    pub fn issue(&mut self, now: u64) -> (r: Option<TimeSeq>)
        requires
            now <= TIMESTAMP_MASK,
        ensures
            r == following(old(self).state, now),
            match r {
                Some(t) => place(t) == final(self).state && place(t) > old(self).state,
                None => final(self).state == old(self).state,
            },
    {
        let state: u64 = self.state;
        let last_timestamp: u64 = state >> 16;
        let last_sequence: u64 = state & SEQ_MASK;
        proof {
            assert(state >> 16 == state / 65536) by (bit_vector);
            assert(state & 0xffff == state % 65536) by (bit_vector);
            assert(state >> 16 <= 0xffff_ffff_ffff) by (bit_vector);
        }
        let (timestamp, sequence): (u64, u64) = if now > last_timestamp {
            (now, 0)
        } else if last_sequence < SEQ_MASK {
            (last_timestamp, last_sequence + 1)
        } else {
            return None;
        };
        proof {
            assert(timestamp <= 0xffff_ffff_ffff && sequence <= 0xffff ==> ((timestamp << 16)
                | sequence) == timestamp * 65536 + sequence) by (bit_vector);
        }
        self.state = (timestamp << 16) | sequence;
        Some(TimeSeq::from_parts(timestamp, sequence as u16))
    }

    /// Issues the next point in time. Where all numbers of the millisecond are used
    /// up, it waits until the clock has moved on, for as long as looks at the clock can
    /// be counted in 64 bits. There is nothing where the clock cannot be told in 48
    /// bits, or did not move on in all that time.
    pub fn generate(&mut self) -> (r: Option<TimeSeq>)
        ensures
            match r {
                Some(t) => {
                    &&& comes_next(old(self).state, t)
                    &&& final(self).state == place(t)
                    &&& place(t) > old(self).state
                },
                None => final(self).state == old(self).state,
            },
    {
        let mut looks: u64 = u64::MAX;
        while looks > 0
            invariant
                self.state == old(self).state,
            decreases looks,
        {
            let now: u64 = current_timestamp();
            if now > TIMESTAMP_MASK {
                return None;
            }
            let issued = self.issue(now);
            if issued.is_some() {
                proof {
                    assert(following(old(self).state, now) == issued);
                }
                return issued;
            }
            looks = looks - 1;
        }
        None
    }
}

/// Whatever the clock does, even where it goes back, each point in time that is
/// issued comes after the one before it.
pub proof fn law_issued_times_increase(
    state: u64,
    first_now: u64,
    first: TimeSeq,
    second_now: u64,
    second: TimeSeq,
)
    requires
        first_now <= TIMESTAMP_MASK,
        following(state, first_now) == Some(first),
        following(place(first) as u64, second_now) == Some(second),
    ensures
        before(first, second),
        first != second,
{
}

/// The clock decides where it has moved on; otherwise the numbers go on counting.
pub proof fn law_only_a_full_millisecond_waits(state: u64, now: u64)
    ensures
        following(state, now) is None <==> now <= state as int / 65536 && state as int % 65536
            == 65535,
{
}

/// What is issued while the clock shows one time after the other. Where there is
/// nothing to issue, the next time is waited for.
pub open spec fn issued(state: u64, clock: Seq<u64>) -> Seq<TimeSeq>
    decreases clock.len(),
{
    if clock.len() == 0 {
        Seq::empty()
    } else {
        match following(state, clock[0]) {
            Some(t) => seq![t] + issued(place(t) as u64, clock.drop_first()),
            None => issued(state, clock.drop_first()),
        }
    }
}

/// However the clock moves, of all points in time that are issued each comes after
/// all that were issued before it: none is issued twice.
pub proof fn law_no_time_is_issued_twice(state: u64, clock: Seq<u64>)
    requires
        forall|i: int| 0 <= i < clock.len() ==> #[trigger] clock[i] <= TIMESTAMP_MASK,
    ensures
        forall|i: int|
            0 <= i < issued(state, clock).len() ==> place(#[trigger] issued(state, clock)[i])
                > state,
        forall|i: int, j: int|
            #![trigger issued(state, clock)[i], issued(state, clock)[j]]
            0 <= i < j < issued(state, clock).len() ==> before(
                issued(state, clock)[i],
                issued(state, clock)[j],
            ) && issued(state, clock)[i] != issued(state, clock)[j],
    decreases clock.len(),
{
    if clock.len() > 0 {
        let rest = clock.drop_first();
        assert forall|i: int| 0 <= i < rest.len() implies #[trigger] rest[i]
            <= TIMESTAMP_MASK by {
            assert(rest[i] == clock[i + 1]);
        }
        assert(clock[0] <= TIMESTAMP_MASK);
        match following(state, clock[0]) {
            Some(t) => {
                let next = place(t) as u64;
                assert(place(t) <= u64::MAX);
                assert(place(t) > state);
                law_no_time_is_issued_twice(next, rest);
                let later = issued(next, rest);
                let all = issued(state, clock);
                assert(all == seq![t] + later);
                assert(all[0] == t);
                assert forall|i: int| 1 <= i < all.len() implies #[trigger] all[i] == later[i
                    - 1] && place(all[i]) > place(t) by {
                    assert(all[i] == later[i - 1]);
                }
                assert forall|i: int, j: int|
                    #![trigger all[i], all[j]]
                    0 <= i < j < all.len() implies before(all[i], all[j]) && all[i]
                    != all[j] by {
                    if i > 0 {
                        assert(all[i] == later[i - 1] && all[j] == later[j - 1]);
                        assert(before(later[i - 1], later[j - 1]));
                    } else {
                        assert(place(all[j]) > place(t));
                    }
                }
            },
            None => {
                law_no_time_is_issued_twice(state, rest);
                assert(issued(state, clock) == issued(state, rest));
            },
        }
    }
}

} // verus!
