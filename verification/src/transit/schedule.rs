//! Departures and per-route departure schedules.
//!
//! A schedule keeps its departures in a `skiplist::OrderedSkipList` ordered by
//! departure instant alone, where a departure added later goes before those already
//! held that leave at the same instant. Each departure is stored under the pair of
//! its departure instant in nanoseconds and its place of addition negated; pairs are
//! ordered lexicographically, which gives that order.
use vstd::prelude::*;
use vstd::multiset::Multiset;

use core::cmp::Ordering;
use skiplist::OrderedSkipList;
use vstd::std_specs::cmp::PartialOrdSpecImpl;

use crate::temporal::{DateTime, MAX_DATETIME_NANOS, MIN_DATETIME_NANOS, TimeDelta};

verus! {

broadcast use {vstd::multiset::group_multiset_axioms, vstd::seq_lib::group_to_multiset_ensures};

#[verifier::external_type_specification]
#[verifier::external_body]
#[verifier::reject_recursive_types(T)]
pub struct ExOrderedSkipList<T>(OrderedSkipList<T>);

/// The elements held by a skiplist of integer pairs.
pub uninterp spec fn skiplist_contents(list: OrderedSkipList<(i128, i128)>) -> Multiset<(i128, i128)>;

/// Lexicographic `<=` on integer pairs, the order of Rust tuples.
pub open spec fn pair_le(a: (i128, i128), b: (i128, i128)) -> bool {
    a.0 < b.0 || (a.0 == b.0 && a.1 <= b.1)
}

/// The key under which a schedule's list stores the `i`-th departure added: its
/// departure instant, then its place negated, so that of two departures leaving at the
/// same instant the one added later sorts first.
pub open spec fn held_key(s: Seq<(i128, i128)>, i: int) -> (i128, i128) {
    (s[i].0, (0 - i) as i128)
}

/// The keys of all departures added, in the order they were added.
pub open spec fn held_keys(s: Seq<(i128, i128)>) -> Seq<(i128, i128)> {
    Seq::new(s.len(), |i: int| held_key(s, i))
}

/// The `i`-th departure added is the one a search from `t` finds: it leaves at or after
/// `t`, none leaving at or after `t` leaves before it, and of those leaving at the same
/// instant it was added last.
pub open spec fn is_next_held(s: Seq<(i128, i128)>, t: int, i: int) -> bool {
    &&& 0 <= i < s.len()
    &&& t <= s[i].0
    &&& forall|j: int|
        0 <= j < s.len() && t <= #[trigger] s[j].0 ==> s[i].0 < s[j].0 || (s[i].0 == s[j].0
            && j <= i)
}

/// The departure a search from `t` finds among the departures added, in the order they
/// were added; `None` when every one leaves before `t`.
pub open spec fn next_held(s: Seq<(i128, i128)>, t: int) -> Option<(i128, i128)> {
    if exists|i: int| is_next_held(s, t, i) {
        Some(s[choose|i: int| is_next_held(s, t, i)])
    } else {
        None
    }
}

/// At most one departure added is the one a search from a given instant finds.
pub proof fn lemma_next_held_unique(s: Seq<(i128, i128)>, t: int, i: int, k: int)
    requires
        is_next_held(s, t, i),
        is_next_held(s, t, k),
    ensures
        i == k,
{
    assert(t <= s[k].0 && t <= s[i].0);
}

/// When some departure added leaves at or after `t`, a search from `t` finds one.
pub proof fn lemma_next_held_exists(s: Seq<(i128, i128)>, t: int, i: int)
    requires
        0 <= i < s.len(),
        t <= s[i].0,
    ensures
        exists|k: int| is_next_held(s, t, k),
    decreases s.len(),
{
    let n = s.len() - 1;
    let rest = s.drop_last();
    if exists|j: int| 0 <= j < n && t <= s[j].0 {
        let j = choose|j: int| 0 <= j < n && t <= s[j].0;
        assert(rest[j] == s[j]);
        lemma_next_held_exists(rest, t, j);
        let k = choose|k: int| is_next_held(rest, t, k);
        assert(rest[k] == s[k]);
        if t <= s[n].0 && s[n].0 <= s[k].0 {
            assert forall|m: int| 0 <= m < s.len() && t <= #[trigger] s[m].0 implies s[n].0 < s[m].0
                || (s[n].0 == s[m].0 && m <= n) by {
                if m < n {
                    assert(rest[m] == s[m]);
                }
            }
            assert(is_next_held(s, t, n));
        } else {
            assert forall|m: int| 0 <= m < s.len() && t <= #[trigger] s[m].0 implies s[k].0 < s[m].0
                || (s[k].0 == s[m].0 && m <= k) by {
                if m < n {
                    assert(rest[m] == s[m]);
                }
            }
            assert(is_next_held(s, t, k));
        }
    } else {
        assert(is_next_held(s, t, n));
    }
}

/// What a read gives back of a write: once a departure is held, a search at or before
/// its departure instant finds a held departure, leaving at or after the searched
/// instant and no later than that one.
pub proof fn lemma_held_departure_found(s: Seq<(i128, i128)>, i: int, t: int)
    requires
        0 <= i < s.len(),
        t <= s[i].0,
    ensures
        next_held(s, t) matches Some(f) && t <= f.0 <= s[i].0 && s.contains(f),
{
    lemma_next_held_exists(s, t, i);
    let k = choose|k: int| is_next_held(s, t, k);
    assert(s.contains(s[k]));
}

/// A search at the departure instant of the departure added last finds that very
/// departure, whatever else leaves at the same instant.
pub proof fn lemma_added_departure_found(s: Seq<(i128, i128)>, key: (i128, i128))
    ensures
        next_held(s.push(key), key.0 as int) == Some(key),
{
    let p = s.push(key);
    let n = s.len() as int;
    assert(p[n] == key);
    assert(is_next_held(p, key.0 as int, n));
    let k = choose|k: int| is_next_held(p, key.0 as int, k);
    lemma_next_held_unique(p, key.0 as int, n, k);
}

/// Two sequences holding the same elements, each as often, still do once the same
/// function is applied to every element.
pub proof fn lemma_same_multiset_map<A, B>(a: Seq<A>, b: Seq<A>, f: spec_fn(A) -> B)
    requires
        a.to_multiset() == b.to_multiset(),
    ensures
        a.map_values(f).to_multiset() == b.map_values(f).to_multiset(),
    decreases a.len(),
{
    a.to_multiset_ensures();
    b.to_multiset_ensures();
    if a.len() == 0 {
        assert(b.len() == 0);
        assert(a.map_values(f) =~= Seq::empty());
        assert(b.map_values(f) =~= Seq::empty());
    } else {
        let x = a.last();
        let a1 = a.drop_last();
        assert(a1.push(x) =~= a);
        assert(a[a.len() - 1] == x);
        assert(a.contains(x));
        assert(a.to_multiset().count(x) > 0);
        assert(b.to_multiset().count(x) > 0);
        assert(b.contains(x));
        let j = choose|j: int| 0 <= j < b.len() && b[j] == x;
        let b1 = b.remove(j);
        assert(a1.to_multiset() =~= b1.to_multiset());
        lemma_same_multiset_map(a1, b1, f);
        assert(a.map_values(f) =~= a1.map_values(f).push(f(x)));
        assert(b1.map_values(f) =~= b.map_values(f).remove(j));
        assert(b.map_values(f)[j] == f(x));
        assert(b.map_values(f).to_multiset() =~= b1.map_values(f).to_multiset().insert(f(x)));
    }
}

/// The pairs of instants of a sequence of departures.
pub open spec fn keys_of(ds: Seq<Departure>) -> Seq<(i128, i128)> {
    ds.map_values(|d: Departure| d.key())
}

/// `out` lists departures held in `s`, the `i`-th of them being the `ix[i]`-th added;
/// none is listed twice, and of two listed that leave at the same instant the one
/// added later comes first.
pub open spec fn lists_held(s: Seq<(i128, i128)>, out: Seq<(i128, i128)>, ix: Seq<int>) -> bool {
    &&& ix.len() == out.len()
    &&& forall|i: int| 0 <= i < out.len() ==> 0 <= #[trigger] ix[i] < s.len() && out[i] == s[ix[i]]
    &&& forall|i: int, j: int| 0 <= i < j < out.len() ==> #[trigger] ix[i] != #[trigger] ix[j]
    &&& forall|i: int, j: int|
        0 <= i < j < out.len() && #[trigger] out[i].0 == #[trigger] out[j].0 ==> ix[i] > ix[j]
}

/// An instant lies within the representable date-time range.
pub open spec fn instant_ok(n: int) -> bool {
    MIN_DATETIME_NANOS <= n <= MAX_DATETIME_NANOS
}

/// `skiplist::OrderedSkipList::new`: an empty list.
#[verifier::external_body]
pub(crate) fn skiplist_new() -> (r: OrderedSkipList<(i128, i128)>)
    ensures
        skiplist_contents(r) =~= Multiset::empty(),
{
    OrderedSkipList::new()
}

/// `skiplist::OrderedSkipList::len`: the number of elements inserted.
#[verifier::external_body]
pub(crate) fn skiplist_len(list: &OrderedSkipList<(i128, i128)>) -> (r: usize)
    ensures
        r == skiplist_contents(*list).len(),
{
    list.len()
}

/// `skiplist::OrderedSkipList::insert`: adds one element, keeping all others.
/// The length counter is a `usize`, so the list must not already hold `usize::MAX`
/// elements.
#[verifier::external_body]
pub(crate) fn skiplist_insert(list: &mut OrderedSkipList<(i128, i128)>, item: (i128, i128))
    requires
        skiplist_contents(*old(list)).len() < usize::MAX,
    ensures
        skiplist_contents(*final(list)) =~= skiplist_contents(*old(list)).insert(item),
{
    list.insert(item)
}

/// `skiplist::OrderedSkipList::lower_bound` with an inclusive bound: the least element
/// that is not below `query`, or `None` when every element is below it.
#[verifier::external_body]
pub(crate) fn skiplist_lower_bound(list: &OrderedSkipList<(i128, i128)>, query: (i128, i128)) -> (r: Option<
    (i128, i128),
>)
    ensures
        r is None <==> (forall|e: (i128, i128)|
            skiplist_contents(*list).contains(e) ==> !pair_le(query, e)),
        r matches Some(f) ==> {
            &&& skiplist_contents(*list).contains(f)
            &&& pair_le(query, f)
            &&& forall|e: (i128, i128)|
                skiplist_contents(*list).contains(e) && pair_le(query, e) ==> pair_le(f, e)
        },
{
    list.lower_bound(std::ops::Bound::Included(&query)).cloned()
}

/// `skiplist::OrderedSkipList::iter`, collected: every element in ascending order.
#[verifier::external_body]
pub(crate) fn skiplist_items(list: &OrderedSkipList<(i128, i128)>) -> (r: Vec<(i128, i128)>)
    ensures
        r@.to_multiset() =~= skiplist_contents(*list),
        forall|i: int, j: int| 0 <= i < j < r@.len() ==> pair_le(r@[i], r@[j]),
{
    list.iter().cloned().collect()
}

/// A single departure from a source location, recorded as its departure time from
/// there and its arrival time at the destination.
#[derive(Clone, Copy, Debug, PartialEq, Eq, Structural)]
pub struct Departure {
    pub src_departure_time: DateTime,
    pub dst_arrival_time: DateTime,
}

/// Adds a span to an instant, clamping at the ends of the representable range:
/// below it gives the earliest instant, above it the latest.
pub open spec fn clamped_add(t: int, d: int) -> int {
    if instant_ok(t + d) {
        t + d
    } else if d < 0 {
        MIN_DATETIME_NANOS as int
    } else {
        MAX_DATETIME_NANOS as int
    }
}

/// Adds a time delta to a date-time, clamping to the earliest or latest
/// representable value on overflow.
fn add_time_to_datetime(date_time: &DateTime, time_delta: &TimeDelta) -> (r: DateTime)
    requires
        date_time.wf(),
        time_delta.wf(),
    ensures
        r.nanos == clamped_add(date_time.nanos as int, time_delta.nanos as int),
        r.wf(),
{
    match date_time.checked_add_signed(time_delta) {
        Some(v) => v,
        None => {
            if time_delta.nanos < 0 {
                DateTime::min_value()
            } else {
                DateTime::max_value()
            }
        },
    }
}

impl Departure {
    /// Both instants are representable.
    pub open spec fn wf(self) -> bool {
        self.src_departure_time.wf() && self.dst_arrival_time.wf()
    }

    /// The pair of instants under which a schedule stores this departure.
    pub open spec fn key(self) -> (i128, i128) {
        (self.src_departure_time.nanos, self.dst_arrival_time.nanos)
    }

    /// The departure stored under a pair of instants.
    pub open spec fn from_key(k: (i128, i128)) -> Departure {
        Departure {
            src_departure_time: DateTime { nanos: k.0 },
            dst_arrival_time: DateTime { nanos: k.1 },
        }
    }

    /// A query value for schedule searches: both instants are `datetime`.
    pub fn construct_query(datetime: DateTime) -> (r: Departure)
        ensures
            r.src_departure_time == datetime,
            r.dst_arrival_time == datetime,
    {
        Departure { src_departure_time: datetime, dst_arrival_time: datetime }
    }

    /// Positive infinity in the time space of departures: both instants are the
    /// latest representable value.
    pub fn infinity() -> (r: Departure)
        ensures
            r.src_departure_time.nanos == MAX_DATETIME_NANOS,
            r.dst_arrival_time.nanos == MAX_DATETIME_NANOS,
            r.wf(),
    {
        Departure {
            src_departure_time: DateTime::max_value(),
            dst_arrival_time: DateTime::max_value(),
        }
    }

    /// The departure sits at positive infinity, which happens when adding extreme
    /// time deltas.
    pub fn is_pos_infinity(&self) -> (r: bool)
        ensures
            r <==> (self.src_departure_time.nanos == MAX_DATETIME_NANOS
                || self.dst_arrival_time.nanos == MAX_DATETIME_NANOS),
    {
        self.src_departure_time.nanos == MAX_DATETIME_NANOS || self.dst_arrival_time.nanos
            == MAX_DATETIME_NANOS
    }

    /// The departure sits at negative infinity, which happens when adding extreme
    /// time deltas.
    pub fn is_neg_infinity(&self) -> (r: bool)
        ensures
            r <==> (self.src_departure_time.nanos == MIN_DATETIME_NANOS
                || self.dst_arrival_time.nanos == MIN_DATETIME_NANOS),
    {
        self.src_departure_time.nanos == MIN_DATETIME_NANOS || self.dst_arrival_time.nanos
            == MIN_DATETIME_NANOS
    }

    /// Shifts both instants by `rhs`, each clamped at the ends of the representable
    /// range.
    pub fn add(self, rhs: &TimeDelta) -> (r: Departure)
        requires
            self.wf(),
            rhs.wf(),
        ensures
            r.src_departure_time.nanos == clamped_add(
                self.src_departure_time.nanos as int,
                rhs.nanos as int,
            ),
            r.dst_arrival_time.nanos == clamped_add(
                self.dst_arrival_time.nanos as int,
                rhs.nanos as int,
            ),
            r.wf(),
    {
        let src_departure_time = add_time_to_datetime(&self.src_departure_time, rhs);
        let dst_arrival_time = add_time_to_datetime(&self.dst_arrival_time, rhs);
        Departure { src_departure_time, dst_arrival_time }
    }
}

/// Departures are ordered by their departure time alone.
impl PartialOrd for Departure {
    fn partial_cmp(&self, other: &Self) -> (r: Option<Ordering>) {
        if self.src_departure_time.nanos < other.src_departure_time.nanos {
            Some(Ordering::Less)
        } else if self.src_departure_time.nanos == other.src_departure_time.nanos {
            Some(Ordering::Equal)
        } else {
            Some(Ordering::Greater)
        }
    }
}

impl PartialOrdSpecImpl for Departure {
    open spec fn obeys_partial_cmp_spec() -> bool {
        true
    }

    open spec fn partial_cmp_spec(&self, other: &Self) -> Option<Ordering> {
        if self.src_departure_time.nanos < other.src_departure_time.nanos {
            Some(Ordering::Less)
        } else if self.src_departure_time.nanos == other.src_departure_time.nanos {
            Some(Ordering::Equal)
        } else {
            Some(Ordering::Greater)
        }
    }
}

/// The ordered list of departures of one route over one edge. The list orders
/// departures by departure instant alone, and of departures leaving at the same instant
/// it puts the one added later first; beside it the schedule keeps the departures in
/// the order they were added.
pub struct Schedule {
    list: OrderedSkipList<(i128, i128)>,
    held: Vec<(i128, i128)>,
}

impl Schedule {
    /// The departures held, each as its pair of instants, in the order they were added.
    pub closed spec fn held(self) -> Seq<(i128, i128)> {
        self.held@
    }

    /// The departures held, each as its pair of instants.
    pub closed spec fn departures(self) -> Multiset<(i128, i128)> {
        self.held@.to_multiset()
    }

    /// The list stores each departure added under its key.
    pub closed spec fn keyed(self) -> bool {
        skiplist_contents(self.list) =~= held_keys(self.held@).to_multiset()
    }

    /// The list matches the departures added, and every departure held has
    /// representable instants.
    pub open spec fn wf(self) -> bool {
        &&& self.keyed()
        &&& forall|e: (i128, i128)|
            #[trigger] self.departures().contains(e) ==> instant_ok(e.0 as int) && instant_ok(
                e.1 as int,
            )
    }

    /// No departure held arrives before it leaves.
    pub open spec fn all_ordered(self) -> bool {
        forall|e: (i128, i128)| #[trigger] self.departures().contains(e) ==> e.0 <= e.1
    }

    /// An empty schedule.
    pub fn new() -> (r: Schedule)
        ensures
            r.departures() =~= Multiset::empty(),
            r.held() =~= Seq::empty(),
            r.wf(),
            r.all_ordered(),
    {
        let r = Schedule { list: skiplist_new(), held: Vec::new() };
        proof {
            assert(held_keys(r.held@) =~= Seq::empty());
        }
        r
    }

    /// The number of departures held.
    pub fn len(&self) -> (r: usize)
        ensures
            r == self.departures().len(),
            r == self.held().len(),
    {
        self.held.len()
    }

    /// Adds one departure.
    pub fn insert(&mut self, departure: Departure)
        requires
            old(self).wf(),
            departure.wf(),
            old(self).departures().len() < usize::MAX,
        ensures
            final(self).departures() =~= old(self).departures().insert(departure.key()),
            final(self).held() == old(self).held().push(departure.key()),
            final(self).wf(),
    {
        let ghost before = self.departures();
        let ghost h = self.held@;
        let n = self.held.len();
        let key = (departure.src_departure_time.nanos, 0i128 - n as i128);
        skiplist_insert(&mut self.list, key);
        self.held.push((departure.src_departure_time.nanos, departure.dst_arrival_time.nanos));
        proof {
            assert(held_keys(self.held@) =~= held_keys(h).push(key));
            assert forall|e: (i128, i128)| #[trigger] self.departures().contains(e) implies instant_ok(
                e.0 as int,
            ) && instant_ok(e.1 as int) by {
                if e != departure.key() {
                    assert(before.contains(e));
                }
            }
        }
    }

    /// A schedule holding exactly the given departures, added in the given order.
    pub fn from_departures(departures: Vec<Departure>) -> (r: Schedule)
        requires
            forall|i: int| 0 <= i < departures@.len() ==> #[trigger] departures@[i].wf(),
        ensures
            r.held() =~= departures@.map_values(|d: Departure| d.key()),
            r.departures() =~= departures@.map_values(|d: Departure| d.key()).to_multiset(),
            r.wf(),
    {
        let mut s = Schedule::new();
        let mut i: usize = 0;
        while i < departures.len()
            invariant
                i <= departures@.len(),
                forall|j: int| 0 <= j < departures@.len() ==> #[trigger] departures@[j].wf(),
                s.wf(),
                s.held() =~= departures@.subrange(0, i as int).map_values(|d: Departure| d.key()),
                s.departures() =~= s.held().to_multiset(),
            decreases departures@.len() - i,
        {
            let d = departures[i];
            proof {
                let prefix = departures@.subrange(0, i as int).map_values(
                    |d: Departure| d.key(),
                );
                let next = departures@.subrange(0, i + 1).map_values(|d: Departure| d.key());
                assert(next =~= prefix.push(d.key()));
                assert(s.departures().len() == i);
            }
            s.insert(d);
            i = i + 1;
        }
        proof {
            assert(departures@.subrange(0, i as int) =~= departures@);
        }
        s
    }

    /// The first departure leaving at or after `query`'s departure time: among the
    /// departures not leaving earlier, one with the earliest departure time, and among
    /// those the one added last. `None` when every departure leaves earlier.
    pub fn lower_bound(&self, query: &Departure) -> (r: Option<Departure>)
        requires
            self.wf(),
        ensures
            r is None <==> (forall|e: (i128, i128)|
                self.departures().contains(e) ==> e.0 < query.src_departure_time.nanos),
            r is None <==> next_held(self.held(), query.src_departure_time.nanos as int) is None,
            r matches Some(f) ==> {
                &&& next_held(self.held(), query.src_departure_time.nanos as int) == Some(f.key())
                &&& self.departures().contains(f.key())
                &&& f == Departure::from_key(f.key())
                &&& f.wf()
            },
    {
        let q = (query.src_departure_time.nanos, i128::MIN);
        let ghost t = query.src_departure_time.nanos as int;
        let n = self.held.len();
        let ghost h = self.held@;
        let ghost hk = held_keys(h);
        proof {
            h.to_multiset_ensures();
            hk.to_multiset_ensures();
        }
        match skiplist_lower_bound(&self.list, q) {
            Some(k) => {
                proof {
                    assert(hk.to_multiset().count(k) > 0);
                    assert(hk.contains(k));
                }
                let ghost p = choose|p: int| 0 <= p < hk.len() && hk[p] == k;
                assert(hk[p] == held_key(h, p));
                assert(k.1 == 0 - p);
                let idx: usize = (0i128 - k.1) as usize;
                assert(idx == p);
                let d = self.held[idx];
                proof {
                    assert forall|j: int| 0 <= j < h.len() && t <= #[trigger] h[j].0 implies h[p].0
                        < h[j].0 || (h[p].0 == h[j].0 && j <= p) by {
                        assert(hk[j] == held_key(h, j));
                        assert(hk.contains(hk[j]));
                        assert(skiplist_contents(self.list).contains(hk[j]));
                        assert(pair_le(q, hk[j]));
                    }
                    assert(is_next_held(h, t, p));
                    let c = choose|c: int| is_next_held(h, t, c);
                    lemma_next_held_unique(h, t, p, c);
                    assert(h.contains(d));
                    assert(h.to_multiset().count(d) > 0);
                    assert(self.departures().contains(d) && t <= d.0);
                }
                Some(
                    Departure {
                        src_departure_time: DateTime { nanos: d.0 },
                        dst_arrival_time: DateTime { nanos: d.1 },
                    },
                )
            },
            None => {
                assert forall|e: (i128, i128)|
                    self.departures().contains(e) implies e.0 < t by {
                    assert(h.contains(e));
                    let j = choose|j: int| 0 <= j < h.len() && h[j] == e;
                    assert(hk[j] == held_key(h, j));
                    assert(hk.contains(hk[j]));
                    assert(skiplist_contents(self.list).contains(hk[j]));
                    assert(!pair_le(q, hk[j]));
                }
                assert forall|i: int| !is_next_held(h, t, i) by {
                    if 0 <= i < h.len() {
                        assert(hk[i] == held_key(h, i));
                        assert(hk.contains(hk[i]));
                        assert(skiplist_contents(self.list).contains(hk[i]));
                        assert(!pair_le(q, hk[i]));
                    }
                }
                None
            },
        }
    }

    /// Every departure held, in ascending order of departure time; of departures
    /// leaving at the same instant, the one added later comes first.
    pub fn iter(&self) -> (r: Vec<Departure>)
        requires
            self.wf(),
        ensures
            r@.map_values(|d: Departure| d.key()).to_multiset() =~= self.departures(),
            forall|i: int, j: int|
                0 <= i < j < r@.len() ==> r@[i].src_departure_time.nanos
                    <= r@[j].src_departure_time.nanos,
            exists|ix: Seq<int>| #[trigger] lists_held(self.held(), keys_of(r@), ix),
            forall|i: int| 0 <= i < r@.len() ==> #[trigger] r@[i].wf(),
    {
        let items = skiplist_items(&self.list);
        let n = self.held.len();
        let ghost h = self.held@;
        let ghost hk = held_keys(h);
        proof {
            h.to_multiset_ensures();
            hk.to_multiset_ensures();
            items@.to_multiset_ensures();
            assert forall|i: int| 0 <= i < items@.len() implies 0 <= 0 - #[trigger] items@[i].1 < h.len()
                && items@[i] == hk[0 - items@[i].1] by {
                assert(items@.contains(items@[i]));
                assert(items@.to_multiset().count(items@[i]) > 0);
                assert(skiplist_contents(self.list).count(items@[i]) > 0);
                assert(hk.to_multiset().count(items@[i]) > 0);
                let j = choose|j: int| 0 <= j < hk.len() && hk[j] == items@[i];
                assert(hk[j] == held_key(h, j));
            }
        }
        let mut out: Vec<Departure> = Vec::new();
        let mut i: usize = 0;
        while i < items.len()
            invariant
                i <= items@.len(),
                out@.len() == i,
                h == self.held@,
                n == h.len(),
                hk == held_keys(h),
                forall|m: int| 0 <= m < items@.len() ==> 0 <= 0 - #[trigger] items@[m].1 < h.len()
                    && items@[m] == hk[0 - items@[m].1],
                forall|j: int| 0 <= j < i ==> #[trigger] out@[j].key() == h[0 - items@[j].1],
            decreases items@.len() - i,
        {
            let k = items[i];
            assert(0 <= 0 - items@[i as int].1 < h.len());
            let idx: usize = (0i128 - k.1) as usize;
            let d = self.held[idx];
            out.push(
                Departure {
                    src_departure_time: DateTime { nanos: d.0 },
                    dst_arrival_time: DateTime { nanos: d.1 },
                },
            );
            i = i + 1;
        }
        proof {
            let keys = keys_of(out@);
            let g = |k: (i128, i128)| h[0 - k.1];
            assert(keys =~= items@.map_values(g));
            assert(hk.map_values(g) =~= h);
            lemma_same_multiset_map(items@, hk, g);
            assert forall|j: int| 0 <= j < out@.len() implies #[trigger] out@[j].wf() by {
                assert(out@[j].key() == h[0 - items@[j].1]);
                assert(0 <= 0 - items@[j].1 < h.len());
                assert(h.contains(h[0 - items@[j].1]));
                assert(h.to_multiset().count(h[0 - items@[j].1]) > 0);
                assert(self.departures().contains(h[0 - items@[j].1]));
            }
            assert(hk.no_duplicates());
            hk.lemma_multiset_has_no_duplicates();
            items@.lemma_multiset_has_no_duplicates_conv();
            let ix = Seq::new(items@.len(), |m: int| 0 - items@[m].1);
            assert forall|a: int, b: int| 0 <= a < b < keys.len() implies #[trigger] ix[a] != #[trigger] ix[b] by {
                assert(items@[a] != items@[b]);
            }
            assert forall|a: int, b: int|
                0 <= a < b < keys.len() && #[trigger] keys[a].0 == #[trigger] keys[b].0 implies ix[a]
                > ix[b] by {
                assert(items@[a] != items@[b]);
                assert(pair_le(items@[a], items@[b]));
            }
            assert(lists_held(h, keys, ix));
            assert(lists_held(self.held(), keys_of(out@), ix));
            assert forall|a: int, b: int| 0 <= a < b < out@.len() implies out@[a].src_departure_time.nanos
                <= out@[b].src_departure_time.nanos by {
                assert(pair_le(items@[a], items@[b]));
                assert(out@[a].key() == h[0 - items@[a].1]);
                assert(out@[b].key() == h[0 - items@[b].1]);
                assert(hk[0 - items@[a].1] == held_key(h, 0 - items@[a].1));
                assert(hk[0 - items@[b].1] == held_key(h, 0 - items@[b].1));
            }
        }
        out
    }
}

} // verus!
