//! A directed graph between GTFS-Flex zones. A flex traversal looks up its current
//! location in a spatial index and its source zone in its state; with both, the
//! graph tells whether a trip may depart, and whether the current zone is a
//! destination of the trip.
use vstd::prelude::*;

use crate::category::first_position;
use crate::flex::relation::{RelationView, ZonalRelation, ZonalRelationRecord, record_relation};
use crate::flex::zone_id::{ZoneError, ZoneId};
use crate::flex::zone_schedule::window_key;
use crate::temporal::DateTime;

verus! {

/// The ids of a list of keyed entries.
pub open spec fn keys_of<T>(entries: Seq<(ZoneId, T)>) -> Seq<Seq<char>> {
    entries.map_values(|e: (ZoneId, T)| e.0@)
}

/// Appending a name changes the first position of no other name, and gives the
/// appended name the last position when it was absent.
pub proof fn lemma_first_position_push(names: Seq<Seq<char>>, x: Seq<char>, name: Seq<char>)
    ensures
        first_position(names.push(x), name) == match first_position(names, name) {
            Some(i) => Some(i),
            None => if x == name {
                Some(names.len() as int)
            } else {
                None
            },
        },
{
    assert(names.push(x).drop_last() =~= names);
}

/// The relation from `src` to `dst` in a list of source entries, if there is one.
pub open spec fn relation_in(
    entries: Seq<(ZoneId, Vec<(ZoneId, ZonalRelation)>)>,
    src: Seq<char>,
    dst: Seq<char>,
) -> Option<RelationView> {
    match first_position(keys_of(entries), src) {
        None => None,
        Some(i) => match first_position(keys_of(entries[i].1@), dst) {
            None => None,
            Some(k) => Some(entries[i].1@[k].1.view()),
        },
    }
}

/// Replacing the relations of the source at `i` by relations with the same keys,
/// equal but at position `k`, changes the relation of that source and the key at
/// `k` only.
proof fn lemma_relation_update(
    old_e: Seq<(ZoneId, Vec<(ZoneId, ZonalRelation)>)>,
    new_e: Seq<(ZoneId, Vec<(ZoneId, ZonalRelation)>)>,
    i: int,
    k: int,
)
    requires
        0 <= i < old_e.len(),
        new_e.len() == old_e.len(),
        forall|j: int| 0 <= j < old_e.len() && j != i ==> new_e[j] == old_e[j],
        new_e[i].0@ == old_e[i].0@,
        first_position(keys_of(old_e), old_e[i].0@) == Some(i),
        keys_of(new_e[i].1@) == keys_of(old_e[i].1@),
        0 <= k < old_e[i].1@.len(),
        first_position(keys_of(old_e[i].1@), old_e[i].1@[k].0@) == Some(k),
        forall|m: int| 0 <= m < old_e[i].1@.len() && m != k ==> new_e[i].1@[m] == old_e[i].1@[m],
    ensures
        relation_in(new_e, old_e[i].0@, old_e[i].1@[k].0@) == Some(new_e[i].1@[k].1.view()),
        forall|s: Seq<char>, d: Seq<char>|
            !(s == old_e[i].0@ && d == old_e[i].1@[k].0@) ==> #[trigger] relation_in(new_e, s, d)
                == relation_in(old_e, s, d),
{
    assert(keys_of(new_e) =~= keys_of(old_e));
    assert forall|s: Seq<char>, d: Seq<char>|
        !(s == old_e[i].0@ && d == old_e[i].1@[k].0@) implies #[trigger] relation_in(new_e, s, d)
        == relation_in(old_e, s, d) by {
        crate::category::lemma_first_position(keys_of(old_e), s);
        crate::category::lemma_first_position(keys_of(old_e[i].1@), d);
    }
}

/// Appending a relation under a key that the source at `i` lacks gives that source
/// the relation under that key and changes nothing else.
proof fn lemma_relation_push_destination(
    old_e: Seq<(ZoneId, Vec<(ZoneId, ZonalRelation)>)>,
    new_e: Seq<(ZoneId, Vec<(ZoneId, ZonalRelation)>)>,
    i: int,
    entry: (ZoneId, ZonalRelation),
)
    requires
        0 <= i < old_e.len(),
        new_e.len() == old_e.len(),
        forall|j: int| 0 <= j < old_e.len() && j != i ==> new_e[j] == old_e[j],
        new_e[i].0@ == old_e[i].0@,
        first_position(keys_of(old_e), old_e[i].0@) == Some(i),
        new_e[i].1@ == old_e[i].1@.push(entry),
        first_position(keys_of(old_e[i].1@), entry.0@) is None,
    ensures
        relation_in(new_e, old_e[i].0@, entry.0@) == Some(entry.1.view()),
        forall|s: Seq<char>, d: Seq<char>|
            !(s == old_e[i].0@ && d == entry.0@) ==> #[trigger] relation_in(new_e, s, d)
                == relation_in(old_e, s, d),
{
    assert(keys_of(new_e) =~= keys_of(old_e));
    assert(keys_of(new_e[i].1@) =~= keys_of(old_e[i].1@).push(entry.0@));
    lemma_first_position_push(keys_of(old_e[i].1@), entry.0@, entry.0@);
    assert forall|s: Seq<char>, d: Seq<char>|
        !(s == old_e[i].0@ && d == entry.0@) implies #[trigger] relation_in(new_e, s, d)
        == relation_in(old_e, s, d) by {
        crate::category::lemma_first_position(keys_of(old_e), s);
        crate::category::lemma_first_position(keys_of(old_e[i].1@), d);
        lemma_first_position_push(keys_of(old_e[i].1@), entry.0@, d);
        if let Some(m) = first_position(keys_of(old_e[i].1@), d) {
            assert(new_e[i].1@[m] == old_e[i].1@[m]);
        }
    }
}

/// Appending a source absent from the list, with one relation, gives it that
/// relation and changes nothing else.
proof fn lemma_relation_push_source(
    old_e: Seq<(ZoneId, Vec<(ZoneId, ZonalRelation)>)>,
    entry: (ZoneId, Vec<(ZoneId, ZonalRelation)>),
)
    requires
        first_position(keys_of(old_e), entry.0@) is None,
        entry.1@.len() == 1,
    ensures
        relation_in(old_e.push(entry), entry.0@, entry.1@[0].0@) == Some(entry.1@[0].1.view()),
        forall|s: Seq<char>, d: Seq<char>|
            !(s == entry.0@ && d == entry.1@[0].0@) ==> #[trigger] relation_in(
                old_e.push(entry),
                s,
                d,
            ) == relation_in(old_e, s, d),
{
    let new_e = old_e.push(entry);
    assert(keys_of(new_e) =~= keys_of(old_e).push(entry.0@));
    lemma_first_position_push(keys_of(old_e), entry.0@, entry.0@);
    assert(keys_of(entry.1@) =~= seq![entry.1@[0].0@]);
    assert(seq![entry.1@[0].0@] =~= Seq::<Seq<char>>::empty().push(entry.1@[0].0@));
    lemma_first_position_push(Seq::<Seq<char>>::empty(), entry.1@[0].0@, entry.1@[0].0@);
    assert forall|s: Seq<char>, d: Seq<char>|
        !(s == entry.0@ && d == entry.1@[0].0@) implies #[trigger] relation_in(new_e, s, d)
        == relation_in(old_e, s, d) by {
        lemma_first_position_push(keys_of(old_e), entry.0@, s);
        lemma_first_position_push(Seq::<Seq<char>>::empty(), entry.1@[0].0@, d);
        crate::category::lemma_first_position(keys_of(old_e), s);
    }
}

/// Source keys are distinct, each source's destination keys are distinct, each
/// relation is keyed by its destination and well formed, and none has more than `n`
/// windows.
pub open spec fn entries_wf(entries: Seq<(ZoneId, Vec<(ZoneId, ZonalRelation)>)>, n: int) -> bool {
    &&& forall|i: int, j: int|
        0 <= i < j < entries.len() ==> #[trigger] entries[i].0@ != #[trigger] entries[j].0@
    &&& forall|i: int, k: int, l: int|
        0 <= i < entries.len() && 0 <= k < l < entries[i].1@.len() ==> #[trigger] entries[i].1@[k].0@
            != #[trigger] entries[i].1@[l].0@
    &&& forall|i: int, k: int|
        #![trigger entries[i].1@[k]]
        0 <= i < entries.len() && 0 <= k < entries[i].1@.len() ==> relation_entry_ok(
            entries[i].1@[k],
            n,
        )
}

/// A relation is keyed by its destination, well formed, and has at most `n` windows.
pub open spec fn relation_entry_ok(e: (ZoneId, ZonalRelation), n: int) -> bool {
    &&& e.0@ == e.1.view().dst()
    &&& e.1.wf()
    &&& e.1.view().windows().len() <= n
}

/// Replacing the relation at `k` of the source at `i` by a sound one keeps the list
/// well formed, with one more record counted.
proof fn lemma_wf_update(
    old_e: Seq<(ZoneId, Vec<(ZoneId, ZonalRelation)>)>,
    new_e: Seq<(ZoneId, Vec<(ZoneId, ZonalRelation)>)>,
    i: int,
    k: int,
    n: int,
)
    requires
        entries_wf(old_e, n),
        0 <= i < old_e.len(),
        new_e.len() == old_e.len(),
        forall|j: int| 0 <= j < old_e.len() && j != i ==> new_e[j] == old_e[j],
        new_e[i].0@ == old_e[i].0@,
        keys_of(new_e[i].1@) == keys_of(old_e[i].1@),
        0 <= k < old_e[i].1@.len(),
        forall|m: int| 0 <= m < old_e[i].1@.len() && m != k ==> new_e[i].1@[m] == old_e[i].1@[m],
        relation_entry_ok(new_e[i].1@[k], n + 1),
    ensures
        entries_wf(new_e, n + 1),
{
    assert forall|a: int, b: int| 0 <= a < b < new_e.len() implies #[trigger] new_e[a].0@
        != #[trigger] new_e[b].0@ by {
        assert(old_e[a].0@ != old_e[b].0@);
    }
    assert forall|a: int, p: int, q: int|
        0 <= a < new_e.len() && 0 <= p < q < new_e[a].1@.len() implies #[trigger] new_e[a].1@[p].0@
        != #[trigger] new_e[a].1@[q].0@ by {
        if a == i {
            assert(keys_of(new_e[i].1@).len() == new_e[i].1@.len());
            assert(keys_of(old_e[i].1@).len() == old_e[i].1@.len());
            assert(keys_of(new_e[i].1@)[p] == keys_of(old_e[i].1@)[p]);
            assert(keys_of(new_e[i].1@)[q] == keys_of(old_e[i].1@)[q]);
            assert(0 <= p < q < old_e[i].1@.len());
            assert(old_e[i].1@[p].0@ != old_e[i].1@[q].0@);
        } else {
            assert(old_e[a].1@[p].0@ != old_e[a].1@[q].0@);
        }
    }
    assert forall|a: int, m: int|
        #![trigger new_e[a].1@[m]]
        0 <= a < new_e.len() && 0 <= m < new_e[a].1@.len() implies relation_entry_ok(
        new_e[a].1@[m],
        n + 1,
    ) by {
        if a == i {
            assert(keys_of(new_e[i].1@).len() == new_e[i].1@.len());
            assert(keys_of(old_e[i].1@).len() == old_e[i].1@.len());
            if m != k {
                assert(relation_entry_ok(old_e[i].1@[m], n));
            }
        } else {
            assert(relation_entry_ok(old_e[a].1@[m], n));
        }
    }
}

/// Appending a sound relation under a new key to the source at `i` keeps the list
/// well formed, with one more record counted.
proof fn lemma_wf_push_destination(
    old_e: Seq<(ZoneId, Vec<(ZoneId, ZonalRelation)>)>,
    new_e: Seq<(ZoneId, Vec<(ZoneId, ZonalRelation)>)>,
    i: int,
    entry: (ZoneId, ZonalRelation),
    n: int,
)
    requires
        entries_wf(old_e, n),
        0 <= i < old_e.len(),
        new_e.len() == old_e.len(),
        forall|j: int| 0 <= j < old_e.len() && j != i ==> new_e[j] == old_e[j],
        new_e[i].0@ == old_e[i].0@,
        new_e[i].1@ == old_e[i].1@.push(entry),
        first_position(keys_of(old_e[i].1@), entry.0@) is None,
        relation_entry_ok(entry, n + 1),
    ensures
        entries_wf(new_e, n + 1),
{
    crate::category::lemma_first_position(keys_of(old_e[i].1@), entry.0@);
    assert forall|a: int, b: int| 0 <= a < b < new_e.len() implies #[trigger] new_e[a].0@
        != #[trigger] new_e[b].0@ by {
        assert(old_e[a].0@ != old_e[b].0@);
    }
    assert forall|a: int, p: int, q: int|
        0 <= a < new_e.len() && 0 <= p < q < new_e[a].1@.len() implies #[trigger] new_e[a].1@[p].0@
        != #[trigger] new_e[a].1@[q].0@ by {
        if a == i {
            if q == old_e[i].1@.len() {
                assert(keys_of(old_e[i].1@)[p] != entry.0@);
            } else {
                assert(old_e[i].1@[p].0@ != old_e[i].1@[q].0@);
            }
        } else {
            assert(old_e[a].1@[p].0@ != old_e[a].1@[q].0@);
        }
    }
    assert forall|a: int, m: int|
        #![trigger new_e[a].1@[m]]
        0 <= a < new_e.len() && 0 <= m < new_e[a].1@.len() implies relation_entry_ok(
        new_e[a].1@[m],
        n + 1,
    ) by {
        if a == i {
            if m < old_e[i].1@.len() {
                assert(relation_entry_ok(old_e[i].1@[m], n));
            }
        } else {
            assert(relation_entry_ok(old_e[a].1@[m], n));
        }
    }
}

/// Appending a new source with one sound relation keeps the list well formed, with
/// one more record counted.
proof fn lemma_wf_push_source(
    old_e: Seq<(ZoneId, Vec<(ZoneId, ZonalRelation)>)>,
    entry: (ZoneId, Vec<(ZoneId, ZonalRelation)>),
    n: int,
)
    requires
        entries_wf(old_e, n),
        first_position(keys_of(old_e), entry.0@) is None,
        entry.1@.len() == 1,
        relation_entry_ok(entry.1@[0], n + 1),
    ensures
        entries_wf(old_e.push(entry), n + 1),
{
    let new_e = old_e.push(entry);
    crate::category::lemma_first_position(keys_of(old_e), entry.0@);
    assert forall|a: int, b: int| 0 <= a < b < new_e.len() implies #[trigger] new_e[a].0@
        != #[trigger] new_e[b].0@ by {
        if b == old_e.len() {
            assert(keys_of(old_e)[a] != entry.0@);
        } else {
            assert(old_e[a].0@ != old_e[b].0@);
        }
    }
    assert forall|a: int, p: int, q: int|
        0 <= a < new_e.len() && 0 <= p < q < new_e[a].1@.len() implies #[trigger] new_e[a].1@[p].0@
        != #[trigger] new_e[a].1@[q].0@ by {
        if a < old_e.len() {
            assert(old_e[a].1@[p].0@ != old_e[a].1@[q].0@);
        }
    }
    assert forall|a: int, m: int|
        #![trigger new_e[a].1@[m]]
        0 <= a < new_e.len() && 0 <= m < new_e[a].1@.len() implies relation_entry_ok(
        new_e[a].1@[m],
        n + 1,
    ) by {
        if a < old_e.len() {
            assert(relation_entry_ok(old_e[a].1@[m], n));
        }
    }
}

/// Some relation of the list accepts the instant `t` (nanoseconds since midnight).
pub open spec fn any_valid_at(rs: Seq<RelationView>, t: int) -> bool {
    exists|k: int| 0 <= k < rs.len() && #[trigger] rs[k].valid_at(t)
}

/// The relation from `s` to `d` that inserting the records in order builds: the
/// relation of the first record for that pair, gaining the time window of each later
/// record for the pair that has one.
pub open spec fn folded_relation(records: Seq<ZonalRelationRecord>, s: Seq<char>, d: Seq<char>) -> Option<
    RelationView,
>
    decreases records.len(),
{
    if records.len() == 0 {
        None
    } else {
        let before = folded_relation(records.drop_last(), s, d);
        let r = records.last();
        match record_relation(r) {
            Some(v) => if r.src_zone_id@ == s && v.dst() == d {
                match before {
                    None => Some(v),
                    Some(b) => match crate::flex::relation::record_window(r.start_time, r.end_time) {
                        Some(w) => Some(b.with_window(window_key(w))),
                        None => Some(b),
                    },
                }
            } else {
                before
            },
            None => before,
        }
    }
}

/// The source zones of the records, each once, in order of first appearance.
pub open spec fn record_sources(records: Seq<ZonalRelationRecord>) -> Seq<Seq<char>>
    decreases records.len(),
{
    if records.len() == 0 {
        Seq::empty()
    } else {
        let prev = record_sources(records.drop_last());
        if prev.contains(records.last().src_zone_id@) {
            prev
        } else {
            prev.push(records.last().src_zone_id@)
        }
    }
}

/// Relations from each source zone to destination zones: at most one entry per
/// source zone, and per source at most one relation per destination zone, keyed by
/// the relation's destination.
pub struct ZoneGraph {
    entries: Vec<(ZoneId, Vec<(ZoneId, ZonalRelation)>)>,
    /// the number of records inserted, which bounds the windows of any relation
    n_rows: usize,
}

impl ZoneGraph {
    /// The source zones, in the order they were first seen.
    pub closed spec fn sources(self) -> Seq<Seq<char>> {
        keys_of(self.entries@)
    }

    /// The relation from `src` to `dst`, if the graph holds one.
    pub closed spec fn relation(self, src: Seq<char>, dst: Seq<char>) -> Option<RelationView> {
        relation_in(self.entries@, src, dst)
    }

    /// The relations from `src`, if it is a source zone of the graph.
    pub closed spec fn relations_from(self, src: Seq<char>) -> Option<Seq<RelationView>> {
        match first_position(keys_of(self.entries@), src) {
            None => None,
            Some(i) => Some(self.entries@[i].1@.map_values(|e: (ZoneId, ZonalRelation)| e.1.view())),
        }
    }

    /// Keys are distinct, each relation is keyed by its destination, every
    /// one-window relation's window is made of times of day, and no relation has
    /// more windows than records were inserted.
    pub closed spec fn wf(self) -> bool {
        entries_wf(self.entries@, self.n_rows as int)
    }

    /// The number of records inserted.
    pub closed spec fn rows(self) -> nat {
        self.n_rows as nat
    }

    /// A graph without relations.
    pub fn new() -> (r: ZoneGraph)
        ensures
            r.wf(),
            r.sources() == Seq::<Seq<char>>::empty(),
            r.rows() == 0,
            forall|s: Seq<char>, d: Seq<char>| r.relation(s, d) is None,
    {
        ZoneGraph { entries: Vec::new(), n_rows: 0 }
    }

    /// The source zones of the graph.
    pub fn keys(&self) -> (r: Vec<ZoneId>)
        ensures
            r@.map_values(|z: ZoneId| z@) == self.sources(),
    {
        let mut out: Vec<ZoneId> = Vec::new();
        let mut i: usize = 0;
        while i < self.entries.len()
            invariant
                i <= self.entries@.len(),
                out@.len() == i,
                forall|j: int| 0 <= j < i ==> #[trigger] out@[j]@ == self.entries@[j].0@,
            decreases self.entries@.len() - i,
        {
            out.push(self.entries[i].0.duplicate());
            i = i + 1;
        }
        assert(out@.map_values(|z: ZoneId| z@) =~= self.sources());
        out
    }

    /// The position of a source zone's entry.
    fn find_source(&self, src_zone_id: &ZoneId) -> (r: Option<usize>)
        requires
            self.wf(),
        ensures
            r matches Some(i) ==> first_position(keys_of(self.entries@), src_zone_id@) == Some(
                i as int,
            ) && i < self.entries@.len(),
            r is None ==> first_position(keys_of(self.entries@), src_zone_id@) is None,
    {
        proof {
            crate::category::lemma_first_position(keys_of(self.entries@), src_zone_id@);
        }
        let mut i: usize = 0;
        while i < self.entries.len()
            invariant
                i <= self.entries@.len(),
                forall|j: int| 0 <= j < i ==> #[trigger] keys_of(self.entries@)[j] != src_zone_id@,
                first_position(keys_of(self.entries@), src_zone_id@) matches Some(p) ==> 0 <= p
                    < keys_of(self.entries@).len() && keys_of(self.entries@)[p] == src_zone_id@
                    && forall|j: int| 0 <= j < p ==> keys_of(self.entries@)[j] != src_zone_id@,
                first_position(keys_of(self.entries@), src_zone_id@) is None ==> forall|j: int|
                    0 <= j < keys_of(self.entries@).len() ==> keys_of(self.entries@)[j]
                        != src_zone_id@,
            decreases self.entries@.len() - i,
        {
            if self.entries[i].0.same_as(src_zone_id) {
                proof {
                    assert(keys_of(self.entries@)[i as int] == src_zone_id@);
                    if let Some(p) = first_position(keys_of(self.entries@), src_zone_id@) {
                        if p < i {
                            assert(keys_of(self.entries@)[p] != src_zone_id@);
                        }
                        if p > i {
                            assert(keys_of(self.entries@)[i as int] != src_zone_id@);
                        }
                    }
                }
                return Some(i);
            }
            proof {
                assert(keys_of(self.entries@)[i as int] != src_zone_id@);
            }
            i = i + 1;
        }
        proof {
            if let Some(p) = first_position(keys_of(self.entries@), src_zone_id@) {
                assert(keys_of(self.entries@)[p] != src_zone_id@);
            }
        }
        None
    }

    /// The relations from a source zone, if it has any.
    pub fn get(&self, src_zone_id: &ZoneId) -> (r: Option<&Vec<(ZoneId, ZonalRelation)>>)
        requires
            self.wf(),
        ensures
            r is None <==> self.relations_from(src_zone_id@) is None,
            r matches Some(v) ==> self.relations_from(src_zone_id@) == Some(
                v@.map_values(|e: (ZoneId, ZonalRelation)| e.1.view()),
            ),
    {
        match self.find_source(src_zone_id) {
            Some(i) => Some(&self.entries[i].1),
            None => None,
        }
    }

    /// Whether a trip may depart from a source zone at the time of day of
    /// `current_datetime`: some relation from the zone accepts that time. A zone that
    /// is not a source may not be departed from.
    pub fn valid_departure(&self, src_zone_id: &ZoneId, current_datetime: &DateTime) -> (r: Result<
        bool,
        ZoneError,
    >)
        requires
            self.wf(),
        ensures
            r matches Ok(b) && b == (self.relations_from(src_zone_id@) matches Some(rs)
                && any_valid_at(rs, current_datetime.spec_nanos_of_day())),
    {
        let i = match self.find_source(src_zone_id) {
            None => {
                return Ok(false);
            },
            Some(i) => i,
        };
        let current_time = current_datetime.nanos_of_day();
        let relations = &self.entries[i].1;
        let ghost rs = relations@.map_values(|e: (ZoneId, ZonalRelation)| e.1.view());
        let mut k: usize = 0;
        while k < relations.len()
            invariant
                self.wf(),
                i < self.entries@.len(),
                first_position(keys_of(self.entries@), src_zone_id@) == Some(i as int),
                relations == self.entries@[i as int].1,
                rs == relations@.map_values(|e: (ZoneId, ZonalRelation)| e.1.view()),
                current_time == current_datetime.spec_nanos_of_day(),
                k <= relations@.len(),
                forall|j: int| 0 <= j < k ==> !(#[trigger] rs[j]).valid_at(current_time as int),
            decreases relations@.len() - k,
        {
            assert(self.entries@[i as int].1@[k as int].1.wf());
            if relations[k].1.valid_time(current_time) {
                assert(rs[k as int].valid_at(current_time as int));
                assert(any_valid_at(rs, current_time as int));
                assert(self.relations_from(src_zone_id@) == Some(rs));
                return Ok(true);
            }
            k = k + 1;
        }
        assert(self.relations_from(src_zone_id@) == Some(rs));
        Ok(false)
    }

    /// Whether the graph holds a relation from the source zone to the destination
    /// zone. The time of day is not checked.
    pub fn valid_zonal_trip(
        &self,
        src_zone_id: &ZoneId,
        dst_zone_id: &ZoneId,
        current_time: &DateTime,
    ) -> (r: Result<bool, ZoneError>)
        requires
            self.wf(),
        ensures
            r matches Ok(b) && b == self.relation(src_zone_id@, dst_zone_id@) is Some,
    {
        let i = match self.find_source(src_zone_id) {
            None => {
                return Ok(false);
            },
            Some(i) => i,
        };
        let relations = &self.entries[i].1;
        match find_destination(relations, dst_zone_id) {
            None => Ok(false),
            Some(_) => Ok(true),
        }
    }

    /// Inserts the relation of a record. A new source zone gets an entry; a new
    /// destination of a known source gets the record's relation; a known destination
    /// keeps its relation, which gains the record's time window if it has one. A
    /// record that describes no relation is an error and leaves the graph as it was.
    pub fn insert_row(&mut self, row: &ZonalRelationRecord) -> (r: Result<(), ZoneError>)
        requires
            old(self).wf(),
            row.wf(),
            old(self).rows() < usize::MAX,
        ensures
            final(self).wf(),
            record_relation(*row) is None ==> (r matches Err(ZoneError::Build(m)) && m@
                == crate::flex::relation::invalid_record_message(row.trip_id@)),
            record_relation(*row) is None ==> *final(self) == *old(self),
            record_relation(*row) matches Some(v) ==> {
                let dst = v.dst();
                let before = old(self).relation(row.src_zone_id@, dst);
                &&& r is Ok
                &&& final(self).rows() == old(self).rows() + 1
                &&& final(self).relation(row.src_zone_id@, dst) == match before {
                    None => Some(v),
                    Some(b) => match crate::flex::relation::record_window(
                        row.start_time,
                        row.end_time,
                    ) {
                        Some(w) => Some(b.with_window(window_key(w))),
                        None => Some(b),
                    },
                }
                &&& forall|s: Seq<char>, d: Seq<char>|
                    !(s == row.src_zone_id@ && d == dst) ==> #[trigger] final(self).relation(s, d)
                        == old(self).relation(s, d)
                &&& final(self).sources() == if old(self).sources().contains(row.src_zone_id@) {
                    old(self).sources()
                } else {
                    old(self).sources().push(row.src_zone_id@)
                }
            },
    {
        let relation = match ZonalRelation::try_from_record(row) {
            Ok(rel) => rel,
            Err(e) => {
                return Err(e);
            },
        };
        let schedule_opt = row.get_zone_schedule();
        let lookup = relation.lookup_id().duplicate();
        let ghost old_entries = self.entries@;
        let ghost src = row.src_zone_id@;
        let ghost dst = lookup@;
        let ghost v = relation.view();
        proof {
            crate::category::lemma_first_position(keys_of(old_entries), src);
            assert(keys_of(old_entries).len() == old_entries.len());
        }
        match self.find_source(&row.src_zone_id) {
            Some(i) => {
                let (key, mut rels) = self.entries.remove(i);
                let ghost old_rels = rels@;
                proof {
                    assert(old_rels == old_entries[i as int].1@);
                    assert(keys_of(old_entries)[i as int] == key@);
                    crate::category::lemma_first_position(keys_of(old_rels), dst);
                    assert(keys_of(old_rels).len() == old_rels.len());
                }
                match find_destination(&rels, &lookup) {
                    Some(k) => {
                        let (dkey, mut existing) = rels.remove(k);
                        proof {
                            assert(old_rels[k as int] == (dkey, existing));
                            assert(keys_of(old_rels)[k as int] == dkey@);
                            assert(old_entries[i as int].1@[k as int] == (dkey, existing));
                        }
                        let ghost before_view = existing.view();
                        match schedule_opt {
                            Some(s) => {
                                existing.add_schedule(s);
                            },
                            None => {},
                        }
                        let ghost after_view = existing.view();
                        rels.insert(k, (dkey, existing));
                        let ghost new_rels = rels@;
                        proof {
                            assert(new_rels =~= old_rels.update(
                                k as int,
                                (dkey, new_rels[k as int].1),
                            ));
                            assert(keys_of(new_rels) =~= keys_of(old_rels));
                        }
                        self.entries.insert(i, (key, rels));
                        proof {
                            lemma_relation_update(old_entries, self.entries@, i as int, k as int);
                            assert(relation_entry_ok(old_entries[i as int].1@[k as int], old(self).n_rows as int));
                            lemma_wf_update(
                                old_entries,
                                self.entries@,
                                i as int,
                                k as int,
                                old(self).n_rows as int,
                            );
                        }
                    },
                    None => {
                        let ghost entry = (lookup, relation);
                        rels.push((lookup, relation));
                        proof {
                            assert(rels@ =~= old_rels.push(entry));
                        }
                        self.entries.insert(i, (key, rels));
                        proof {
                            lemma_relation_push_destination(
                                old_entries,
                                self.entries@,
                                i as int,
                                entry,
                            );
                            lemma_wf_push_destination(
                                old_entries,
                                self.entries@,
                                i as int,
                                entry,
                                old(self).n_rows as int,
                            );
                        }
                    },
                }
                proof {
                    assert(keys_of(old_entries).contains(src));
                    assert forall|j: int| 0 <= j < self.entries@.len() implies #[trigger] keys_of(self.entries@)[j]
                        == keys_of(old_entries)[j] by {
                        if j != i {
                            assert(self.entries@[j] == old_entries[j]);
                        }
                    }
                    assert(keys_of(self.entries@) =~= keys_of(old_entries));
                }
                self.n_rows = self.n_rows + 1;
            },
            None => {
                let mut rels: Vec<(ZoneId, ZonalRelation)> = Vec::new();
                rels.push((lookup, relation));
                let ghost entry = (row.src_zone_id, rels);
                let key = row.src_zone_id.duplicate();
                self.entries.push((key, rels));
                proof {
                    lemma_relation_push_source(old_entries, self.entries@.last());
                    assert(self.entries@ =~= old_entries.push(self.entries@.last()));
                    lemma_wf_push_source(old_entries, self.entries@.last(), old(self).n_rows as int);
                    assert(!keys_of(old_entries).contains(src));
                    assert(keys_of(self.entries@) =~= keys_of(old_entries).push(src));
                }
                self.n_rows = self.n_rows + 1;
            },
        }
        Ok(())
    }

    /// The graph of a list of records, inserted in order as [`ZoneGraph::insert_row`]
    /// does: each record's source zone is related to its relation's destination, and
    /// every related pair comes from some record. The first record that describes no
    /// relation is an error.
    pub fn from_records(records: &Vec<ZonalRelationRecord>) -> (r: Result<ZoneGraph, ZoneError>)
        requires
            forall|j: int| 0 <= j < records@.len() ==> #[trigger] records@[j].wf(),
        ensures
            r is Ok <==> forall|j: int|
                0 <= j < records@.len() ==> #[trigger] record_relation(records@[j]) is Some,
            r matches Err(e) ==> exists|j: int|
                0 <= j < records@.len() && #[trigger] record_relation(records@[j]) is None && (forall|
                    l: int,
                | 0 <= l < j ==> record_relation(records@[l]) is Some) && (e matches ZoneError::Build(
                    m,
                ) && m@ == crate::flex::relation::invalid_record_message(records@[j].trip_id@)),
            r matches Ok(g) ==> {
                &&& g.wf()
                &&& g.rows() == records@.len()
                &&& forall|j: int|
                    0 <= j < records@.len() ==> #[trigger] g.relation(
                        records@[j].src_zone_id@,
                        record_relation(records@[j])->Some_0.dst(),
                    ) is Some
                &&& forall|s: Seq<char>, d: Seq<char>|
                    #[trigger] g.relation(s, d) is Some ==> exists|j: int|
                        0 <= j < records@.len() && records@[j].src_zone_id@ == s && #[trigger]
                            record_relation(records@[j])->Some_0.dst() == d
                &&& forall|s: Seq<char>, d: Seq<char>| #[trigger] g.relation(s, d) == folded_relation(records@, s, d)
                &&& g.sources() == record_sources(records@)
            },
    {
        let mut graph = ZoneGraph::new();
        let mut idx: usize = 0;
        while idx < records.len()
            invariant
                idx <= records@.len(),
                forall|j: int| 0 <= j < records@.len() ==> #[trigger] records@[j].wf(),
                forall|j: int| 0 <= j < idx ==> #[trigger] record_relation(records@[j]) is Some,
                graph.wf(),
                graph.rows() == idx,
                forall|j: int|
                    0 <= j < idx ==> #[trigger] graph.relation(
                        records@[j].src_zone_id@,
                        record_relation(records@[j])->Some_0.dst(),
                    ) is Some,
                forall|s: Seq<char>, d: Seq<char>|
                    #[trigger] graph.relation(s, d) is Some ==> exists|j: int|
                        0 <= j < idx && records@[j].src_zone_id@ == s && #[trigger] record_relation(
                            records@[j],
                        )->Some_0.dst() == d,
                forall|s: Seq<char>, d: Seq<char>| #[trigger] graph.relation(s, d) == folded_relation(
                    records@.take(idx as int),
                    s,
                    d,
                ),
                graph.sources() == record_sources(records@.take(idx as int)),
            decreases records@.len() - idx,
        {
            let ghost before = graph;
            let row = &records[idx];
            match graph.insert_row(row) {
                Ok(()) => {},
                Err(e) => {
                    return Err(e);
                },
            }
            proof {
                let v = record_relation(records@[idx as int])->Some_0;
                let pre = records@.take(idx as int);
                let post = records@.take(idx + 1);
                assert(post.drop_last() =~= pre);
                assert(post.last() == records@[idx as int]);
                assert forall|s: Seq<char>, d: Seq<char>| #[trigger] graph.relation(s, d) == folded_relation(
                    post,
                    s,
                    d,
                ) by {
                    assert(before.relation(s, d) == folded_relation(pre, s, d));
                }
                assert(graph.sources() == record_sources(post));
                assert forall|j: int| 0 <= j < idx + 1 implies #[trigger] graph.relation(
                    records@[j].src_zone_id@,
                    record_relation(records@[j])->Some_0.dst(),
                ) is Some by {
                    if j < idx {
                        let s = records@[j].src_zone_id@;
                        let d = record_relation(records@[j])->Some_0.dst();
                        assert(before.relation(s, d) is Some);
                    }
                }
                assert forall|s: Seq<char>, d: Seq<char>| #[trigger]
                    graph.relation(s, d) is Some implies exists|j: int|
                    0 <= j < idx + 1 && records@[j].src_zone_id@ == s && #[trigger] record_relation(
                        records@[j],
                    )->Some_0.dst() == d by {
                    if !(s == records@[idx as int].src_zone_id@ && d == v.dst()) {
                        assert(before.relation(s, d) is Some);
                    } else {
                        assert(records@[idx as int].src_zone_id@ == s);
                    }
                }
            }
            idx = idx + 1;
        }
        proof {
            assert(records@.take(idx as int) =~= records@);
        }
        Ok(graph)
    }
}

/// The position of a destination zone's relation.
fn find_destination(relations: &Vec<(ZoneId, ZonalRelation)>, dst_zone_id: &ZoneId) -> (r: Option<
    usize,
>)
    ensures
        r matches Some(k) ==> first_position(keys_of(relations@), dst_zone_id@) == Some(k as int)
            && k < relations@.len(),
        r is None ==> first_position(keys_of(relations@), dst_zone_id@) is None,
{
    proof {
        crate::category::lemma_first_position(keys_of(relations@), dst_zone_id@);
    }
    let mut k: usize = 0;
    while k < relations.len()
        invariant
            k <= relations@.len(),
            forall|j: int| 0 <= j < k ==> #[trigger] keys_of(relations@)[j] != dst_zone_id@,
            first_position(keys_of(relations@), dst_zone_id@) matches Some(p) ==> 0 <= p
                < keys_of(relations@).len() && keys_of(relations@)[p] == dst_zone_id@ && forall|
                j: int,
            | 0 <= j < p ==> keys_of(relations@)[j] != dst_zone_id@,
            first_position(keys_of(relations@), dst_zone_id@) is None ==> forall|j: int|
                0 <= j < keys_of(relations@).len() ==> keys_of(relations@)[j] != dst_zone_id@,
        decreases relations@.len() - k,
    {
        if relations[k].0.same_as(dst_zone_id) {
            proof {
                assert(keys_of(relations@)[k as int] == dst_zone_id@);
                if let Some(p) = first_position(keys_of(relations@), dst_zone_id@) {
                    if p < k {
                        assert(keys_of(relations@)[p] != dst_zone_id@);
                    }
                    if p > k {
                        assert(keys_of(relations@)[k as int] != dst_zone_id@);
                    }
                }
            }
            return Some(k);
        }
        proof {
            assert(keys_of(relations@)[k as int] != dst_zone_id@);
        }
        k = k + 1;
    }
    proof {
        if let Some(p) = first_position(keys_of(relations@), dst_zone_id@) {
            assert(keys_of(relations@)[p] != dst_zone_id@);
        }
    }
    None
}

} // verus!
