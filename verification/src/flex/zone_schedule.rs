//! Time windows of GTFS-Flex activity between zones.
use vstd::prelude::*;
use vstd::multiset::Multiset;

use core::cmp::Ordering;
use skiplist::OrderedSkipList;
use vstd::std_specs::cmp::PartialOrdSpecImpl;

use crate::temporal::{NANOS_PER_SEC, SECS_PER_DAY, Time, time_le};
use crate::transit::schedule::{
    skiplist_contents, skiplist_insert, skiplist_items, skiplist_len, skiplist_new,
};

verus! {

broadcast use vstd::multiset::group_multiset_axioms;

/// A time range of supported GTFS-Flex activity between two zones, in times of
/// day. A relation holds its ranges by their (start, end) pair, and accepts a time
/// that any of them holds, so the order of the ranges decides nothing; a query for a
/// time is the range that starts (and ends) at that time.
#[derive(Clone, Copy, Debug, PartialEq, Eq, Structural)]
pub struct ZoneSchedule {
    pub start_time: Time,
    pub end_time: Time,
}

/// A window as the pair of its start and end in nanoseconds since midnight (a leap
/// second's further second of nanoseconds included).
pub open spec fn window_key(s: ZoneSchedule) -> (i128, i128) {
    (
        (s.start_time.secs * NANOS_PER_SEC + s.start_time.frac) as i128,
        (s.end_time.secs * NANOS_PER_SEC + s.end_time.frac) as i128,
    )
}

/// The window `[start, end)` of a key holds the instant `t` (nanoseconds since
/// midnight).
pub open spec fn key_contains(k: (i128, i128), t: int) -> bool {
    k.0 <= t < k.1
}

/// The instant lies within a day, in nanoseconds.
pub open spec fn day_instant(t: int) -> bool {
    0 <= t < SECS_PER_DAY * NANOS_PER_SEC
}

impl ZoneSchedule {
    /// Both ends are times of day.
    pub open spec fn wf(self) -> bool {
        self.start_time.wf() && self.end_time.wf()
    }

    pub fn new(start_time: Time, end_time: Time) -> (r: ZoneSchedule)
        ensures
            r.start_time == start_time,
            r.end_time == end_time,
    {
        ZoneSchedule { start_time, end_time }
    }

    /// The query value for a time: a range starting and ending at it.
    pub fn query(time: Time) -> (r: ZoneSchedule)
        ensures
            r.start_time == time,
            r.end_time == time,
    {
        ZoneSchedule { start_time: time, end_time: time }
    }

    /// Whether the time lies within the half-open range `[start, end)`, in time order.
    pub fn contains(&self, time: &Time) -> (r: bool)
        ensures
            r == (time_le(self.start_time, *time) && !time_le(self.end_time, *time)),
    {
        self.start_time.at_or_before(time) && !self.end_time.at_or_before(time)
    }

    /// Whether an instant, in nanoseconds since midnight, lies within the half-open
    /// range `[start, end)`.
    pub fn contains_instant(&self, nanos_of_day: u64) -> (r: bool)
        requires
            self.wf(),
        ensures
            r == key_contains(window_key(*self), nanos_of_day as int),
    {
        let start = self.start_time.secs as u64 * 1_000_000_000u64 + self.start_time.frac as u64;
        let end = self.end_time.secs as u64 * 1_000_000_000u64 + self.end_time.frac as u64;
        start <= nanos_of_day && nanos_of_day < end
    }

    /// The key under which a list stores this window.
    fn key(&self) -> (r: (i128, i128))
        ensures
            r == window_key(*self),
    {
        (
            self.start_time.secs as i128 * 1_000_000_000i128 + self.start_time.frac as i128,
            self.end_time.secs as i128 * 1_000_000_000i128 + self.end_time.frac as i128,
        )
    }
}

/// Time ranges are ordered by their start times alone, in time order.
impl PartialOrd for ZoneSchedule {
    fn partial_cmp(&self, other: &Self) -> (r: Option<Ordering>) {
        if !other.start_time.at_or_before(&self.start_time) {
            Some(Ordering::Less)
        } else if self.start_time.at_or_before(&other.start_time) {
            Some(Ordering::Equal)
        } else {
            Some(Ordering::Greater)
        }
    }
}

impl PartialOrdSpecImpl for ZoneSchedule {
    open spec fn obeys_partial_cmp_spec() -> bool {
        true
    }

    open spec fn partial_cmp_spec(&self, other: &Self) -> Option<Ordering> {
        if !time_le(other.start_time, self.start_time) {
            Some(Ordering::Less)
        } else if time_le(self.start_time, other.start_time) {
            Some(Ordering::Equal)
        } else {
            Some(Ordering::Greater)
        }
    }
}

/// A collection of time windows, held by their (start, end) pairs.
pub struct ScheduleList {
    list: OrderedSkipList<(i128, i128)>,
}

impl ScheduleList {
    /// The windows held, by key.
    pub closed spec fn windows(self) -> Multiset<(i128, i128)> {
        skiplist_contents(self.list)
    }

    /// A list holding the two windows.
    pub fn from_pair(first: ZoneSchedule, second: ZoneSchedule) -> (r: ScheduleList)
        ensures
            r.windows() =~= Multiset::empty().insert(window_key(first)).insert(window_key(second)),
    {
        let mut list = skiplist_new();
        skiplist_insert(&mut list, first.key());
        skiplist_insert(&mut list, second.key());
        ScheduleList { list }
    }

    /// The number of windows held.
    pub fn len(&self) -> (r: usize)
        ensures
            r == self.windows().len(),
    {
        skiplist_len(&self.list)
    }

    /// Adds a window.
    pub fn insert(&mut self, schedule: ZoneSchedule)
        requires
            old(self).windows().len() < usize::MAX,
        ensures
            final(self).windows() =~= old(self).windows().insert(window_key(schedule)),
    {
        skiplist_insert(&mut self.list, schedule.key());
    }

    /// Whether some window held contains the instant (nanoseconds since midnight).
    pub fn any_contains(&self, nanos_of_day: u64) -> (r: bool)
        ensures
            r == exists|k: (i128, i128)| self.windows().contains(k) && key_contains(k, nanos_of_day as int),
    {
        let items = skiplist_items(&self.list);
        let ghost t = nanos_of_day as int;
        proof {
            items@.to_multiset_ensures();
        }
        let mut i: usize = 0;
        while i < items.len()
            invariant
                i <= items@.len(),
                t == nanos_of_day as int,
                items@.to_multiset() =~= self.windows(),
                forall|a: (i128, i128)| items@.contains(a) <==> #[trigger] items@.to_multiset().count(a) > 0,
                forall|j: int| 0 <= j < i ==> !key_contains(#[trigger] items@[j], t),
            decreases items@.len() - i,
        {
            let k = items[i];
            if k.0 <= nanos_of_day as i128 && (nanos_of_day as i128) < k.1 {
                proof {
                    assert(items@[i as int] == k);
                    assert(items@.contains(k));
                    assert(items@.to_multiset().count(k) > 0);
                    assert(self.windows().contains(k) && key_contains(k, t));
                }
                return true;
            }
            i += 1;
        }
        proof {
            assert forall|k: (i128, i128)| !(self.windows().contains(k) && key_contains(k, t)) by {
                if self.windows().contains(k) {
                    assert(items@.contains(k));
                    let j = choose|j: int| 0 <= j < items@.len() && items@[j] == k;
                    assert(!key_contains(items@[j], t));
                }
            }
        }
        false
    }
}

} // verus!
