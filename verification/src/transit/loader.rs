//! Building a transit traversal engine from schedule rows, a route enumeration and
//! the archives' date mappings.
use vstd::prelude::*;

use std::collections::{HashMap, HashSet};

use crate::category::{
    CategoricalMapping, all_distinct, duplicate_message, first_position, first_repeat, views_of,
};
use crate::temporal::{DateTime, MAX_DAYS, MIN_DAYS};
use crate::text::{decimal, push_decimal, push_str, string_of};
use crate::transit::engine::TransitTraversalEngine;
use crate::transit::loading_policy::ScheduleLoadingPolicy;
use crate::transit::ops::{TransitError, date_mapping_wf};
use crate::transit::schedule::{Departure, Schedule};

verus! {

broadcast use {
    vstd::std_specs::hash::group_hash_axioms,
    vstd::multiset::group_multiset_axioms,
    vstd::set::group_set_axioms,
};

/// A single scheduled departure and arrival of a route over an edge.
#[derive(Clone, Debug)]
pub struct RawScheduleRow {
    pub edge_id: usize,
    /// fully-qualified route id
    pub fully_qualified_id: String,
    pub src_departure_time: DateTime,
    pub dst_arrival_time: DateTime,
}

impl RawScheduleRow {
    /// The row's departure.
    pub open spec fn departure(self) -> Departure {
        Departure {
            src_departure_time: self.src_departure_time,
            dst_arrival_time: self.dst_arrival_time,
        }
    }

    /// Both instants are representable.
    pub open spec fn wf(self) -> bool {
        self.src_departure_time.wf() && self.dst_arrival_time.wf()
    }
}

/// The departures that the rows give the route `route` over the edge `edge`, in the
/// order of the rows: those of the rows on that edge whose label is `route` and that
/// the policy keeps.
pub open spec fn admitted(
    rows: Seq<RawScheduleRow>,
    labels: Seq<i64>,
    edge: usize,
    route: i64,
    policy: ScheduleLoadingPolicy,
) -> Seq<(i128, i128)>
    decreases rows.len(),
{
    if rows.len() == 0 {
        Seq::empty()
    } else {
        let t = rows.len() - 1;
        let prev = admitted(rows.drop_last(), labels, edge, route, policy);
        if rows[t].edge_id == edge && labels[t] == route && policy.admits(rows[t].departure()) {
            prev.push(rows[t].departure().key())
        } else {
            prev
        }
    }
}

/// The edges that some row runs over.
pub open spec fn edge_set(rows: Seq<RawScheduleRow>) -> Set<usize> {
    Set::new(|e: usize| exists|j: int| 0 <= j < rows.len() && #[trigger] rows[j].edge_id == e)
}

/// The labels of the rows' routes among the enumerated names, where each has one.
pub open spec fn labels_among(rows: Seq<RawScheduleRow>, names: Seq<Seq<char>>) -> Seq<Option<int>> {
    rows.map_values(|r: RawScheduleRow| first_position(names, r.fully_qualified_id@))
}

/// The labels of the rows' routes, where each has one.
pub open spec fn row_labels(rows: Seq<RawScheduleRow>, mapping: CategoricalMapping) -> Seq<
    Option<int>,
> {
    labels_among(rows, mapping.names())
}

/// The edge schedules that the rows give, for routes labelled among `names`: one list
/// per edge `0..n` for the `n` distinct edges, each naming every route that some row on
/// the edge names once, with the departures of that route's rows on that edge that the
/// policy keeps, in departure order.
pub open spec fn schedules_read(
    rows: Seq<RawScheduleRow>,
    names: Seq<Seq<char>>,
    policy: ScheduleLoadingPolicy,
    v: Seq<Vec<(i64, Schedule)>>,
) -> bool {
    let labels = labels_among(rows, names).map_values(|o: Option<int>| o->Some_0 as i64);
    &&& forall|j: int| 0 <= j < rows.len() ==> #[trigger] labels_among(rows, names)[j] is Some
    &&& v.len() == edge_set(rows).len()
    &&& forall|e: usize| #[trigger] edge_set(rows).contains(e) <==> e < v.len()
    &&& forall|e: int, k: int, l: int|
        0 <= e < v.len() && 0 <= k < l < v[e]@.len() ==> #[trigger] v[e]@[k].0 != #[trigger] v[e]@[l].0
    &&& forall|e: int, route: i64|
        0 <= e < v.len() ==> (#[trigger] route_listed(v[e]@, route) <==> route_named(
            rows,
            labels,
            rows.len() as int,
            e,
            route,
        ))
    &&& forall|e: int, k: int|
        #![trigger v[e]@[k]]
        0 <= e < v.len() && 0 <= k < v[e]@.len() ==> {
            &&& v[e]@[k].1.held() =~= admitted(rows, labels, e as usize, v[e]@[k].0, policy)
            &&& v[e]@[k].1.wf()
            &&& v[e]@[k].1.all_ordered()
        }
}

/// The message of a route id without a label.
pub open spec fn unmapped_route_message(id: Seq<char>) -> Seq<char> {
    "Cannot find route id mapping for string "@ + id
}

/// The message of an edge id missing below the number of edges.
pub open spec fn missing_edge_message(edge: int, n_edges: int) -> Seq<char> {
    "Invalid schedules file. Missing edge_id "@ + decimal(edge as nat)
        + " when the maximum edge_id is "@ + decimal(n_edges as nat)
}

/// The labels of the rows' routes; an error naming the first route id that has
/// none.
pub fn label_rows(rows: &Vec<RawScheduleRow>, route_mapping: &CategoricalMapping) -> (r: Result<
    Vec<i64>,
    TransitError,
>)
    requires
        route_mapping.wf(),
    ensures
        r matches Ok(ls) ==> ls@.len() == rows@.len() && forall|j: int|
            0 <= j < rows@.len() ==> Some(#[trigger] ls@[j] as int) == row_labels(
                rows@,
                *route_mapping,
            )[j],
        r is Ok <==> forall|j: int|
            0 <= j < rows@.len() ==> #[trigger] row_labels(rows@, *route_mapping)[j] is Some,
        r matches Err(e) ==> exists|j: int|
            0 <= j < rows@.len() && #[trigger] row_labels(rows@, *route_mapping)[j] is None
                && (forall|l: int| 0 <= l < j ==> row_labels(rows@, *route_mapping)[l] is Some)
                && (e matches TransitError::BuildError(m) && m@ == unmapped_route_message(
                rows@[j].fully_qualified_id@,
            )),
{
    let mut labels: Vec<i64> = Vec::new();
    let mut j: usize = 0;
    while j < rows.len()
        invariant
            route_mapping.wf(),
            j <= rows@.len(),
            labels@.len() == j,
            forall|l: int|
                0 <= l < j ==> Some(#[trigger] labels@[l] as int) == row_labels(
                    rows@,
                    *route_mapping,
                )[l],
        decreases rows@.len() - j,
    {
        match route_mapping.get_label(rows[j].fully_qualified_id.as_str()) {
            Some(l) => {
                labels.push(l);
            },
            None => {
                let mut msg: Vec<char> = Vec::new();
                push_str(&mut msg, "Cannot find route id mapping for string ");
                push_str(&mut msg, rows[j].fully_qualified_id.as_str());
                proof {
                    assert(row_labels(rows@, *route_mapping)[j as int] is None);
                    assert forall|l: int| 0 <= l < j implies row_labels(rows@, *route_mapping)[l] is Some by {
                        assert(Some(labels@[l] as int) == row_labels(rows@, *route_mapping)[l]);
                    }
                }
                return Err(TransitError::BuildError(string_of(&msg)));
            },
        }
        j = j + 1;
    }
    proof {
        assert forall|l: int| 0 <= l < rows@.len() implies #[trigger] row_labels(rows@, *route_mapping)[l] is Some by {
            assert(Some(labels@[l] as int) == row_labels(rows@, *route_mapping)[l]);
        }
    }
    Ok(labels)
}

/// The set of edges that the rows run over.
pub fn edge_ids(rows: &Vec<RawScheduleRow>) -> (r: HashSet<usize>)
    ensures
        r@ =~= edge_set(rows@),
        r@.finite(),
{
    let mut set: HashSet<usize> = HashSet::new();
    let mut j: usize = 0;
    while j < rows.len()
        invariant
            j <= rows@.len(),
            set@.finite(),
            forall|e: usize|
                set@.contains(e) <==> exists|l: int| 0 <= l < j && #[trigger] rows@[l].edge_id == e,
        decreases rows@.len() - j,
    {
        let e = rows[j].edge_id;
        set.insert(e);
        proof {
            assert forall|x: usize| set@.contains(x) <==> exists|l: int|
                0 <= l < j + 1 && #[trigger] rows@[l].edge_id == x by {
                if x == e {
                    assert(rows@[j as int].edge_id == x);
                }
            }
        }
        j = j + 1;
    }
    set
}

/// The set of all `usize` values below `n` has `n` elements.
proof fn lemma_usize_range_len(n: usize)
    ensures
        Set::new(|x: usize| x < n).finite(),
        Set::new(|x: usize| x < n).len() == n,
    decreases n,
{
    if n == 0 {
        assert(Set::new(|x: usize| x < n) =~= Set::<usize>::empty());
    } else {
        let m = (n - 1) as usize;
        lemma_usize_range_len(m);
        assert(Set::new(|x: usize| x < m).insert(m) =~= Set::new(|x: usize| x < n));
    }
}

/// A finite set of `n` values that holds every value below `n` holds no other.
proof fn lemma_dense_set(s: Set<usize>, n: usize)
    requires
        s.finite(),
        s.len() == n,
        forall|i: usize| i < n ==> s.contains(i),
    ensures
        forall|e: usize| s.contains(e) ==> e < n,
{
    lemma_usize_range_len(n);
    let range = Set::new(|x: usize| x < n);
    assert forall|e: usize| s.contains(e) implies e < n by {
        if e >= n {
            let bigger = range.insert(e);
            assert(bigger.subset_of(s));
            vstd::set_lib::lemma_len_subset(bigger, s);
            assert(!range.contains(e));
            assert(bigger.len() == n + 1);
        }
    }
}

/// Checks that every edge id below the number of distinct edges occurs; an error
/// naming the least one missing otherwise.
pub fn check_dense_edges(edges: &HashSet<usize>) -> (r: Result<usize, TransitError>)
    requires
        edges@.finite(),
    ensures
        r matches Ok(n) ==> n == edges@.len() && forall|e: usize| edges@.contains(e) <==> e < n,
        r is Ok <==> forall|i: usize| i < edges@.len() ==> edges@.contains(i),
        r matches Err(e) ==> exists|i: usize|
            i < edges@.len() && !edges@.contains(i) && (forall|k: usize|
                k < i ==> edges@.contains(k)) && (e matches TransitError::BuildError(m) && m@
                == missing_edge_message(i as int, edges@.len() as int)),
{
    let n_edges = edges.len();
    let mut i: usize = 0;
    while i < n_edges
        invariant
            n_edges == edges@.len(),
            i <= n_edges,
            forall|k: usize| k < i ==> edges@.contains(k),
        decreases n_edges - i,
    {
        if !edges.contains(&i) {
            let mut msg: Vec<char> = Vec::new();
            push_str(&mut msg, "Invalid schedules file. Missing edge_id ");
            push_decimal(&mut msg, i as u64);
            push_str(&mut msg, " when the maximum edge_id is ");
            push_decimal(&mut msg, n_edges as u64);
            return Err(TransitError::BuildError(string_of(&msg)));
        }
        i = i + 1;
    }
    proof {
        lemma_dense_set(edges@, n_edges);
    }
    Ok(n_edges)
}

/// The edge's list holds a schedule for the route.
pub open spec fn route_listed(routes: Seq<(i64, Schedule)>, route: i64) -> bool {
    exists|k: int| 0 <= k < routes.len() && #[trigger] routes[k].0 == route
}

/// Some row among the first `t` runs over the edge under the route's label.
pub open spec fn route_named(
    rows: Seq<RawScheduleRow>,
    labels: Seq<i64>,
    t: int,
    edge: int,
    route: i64,
) -> bool {
    exists|j: int| 0 <= j < t && #[trigger] rows[j].edge_id == edge && labels[j] == route
}

/// No row on the edge with the label: the route has no departure there.
proof fn lemma_admitted_empty(
    rows: Seq<RawScheduleRow>,
    labels: Seq<i64>,
    edge: usize,
    route: i64,
    policy: ScheduleLoadingPolicy,
)
    requires
        forall|j: int| 0 <= j < rows.len() ==> !(#[trigger] rows[j].edge_id == edge && labels[j] == route),
    ensures
        admitted(rows, labels, edge, route, policy) =~= Seq::empty(),
    decreases rows.len(),
{
    if rows.len() > 0 {
        let p = rows.drop_last();
        assert forall|j: int| 0 <= j < p.len() implies !(#[trigger] p[j].edge_id == edge && labels[j] == route) by {
            assert(p[j] == rows[j]);
        }
        lemma_admitted_empty(p, labels, edge, route, policy);
    }
}

/// The position of a route's schedule in an edge's list.
fn find_route(routes: &Vec<(i64, Schedule)>, route: i64) -> (r: Option<usize>)
    ensures
        r matches Some(k) ==> k < routes@.len() && routes@[k as int].0 == route,
        r is None ==> forall|k: int| 0 <= k < routes@.len() ==> routes@[k].0 != route,
{
    let mut k: usize = 0;
    while k < routes.len()
        invariant
            k <= routes@.len(),
            forall|j: int| 0 <= j < k ==> routes@[j].0 != route,
        decreases routes@.len() - k,
    {
        if routes[k].0 == route {
            return Some(k);
        }
        k = k + 1;
    }
    None
}

/// The schedules of `n_edges` edges: for each edge, one schedule per route that some
/// row on the edge names, holding the departures that the rows give it and the
/// policy keeps.
pub fn fill_schedules(
    rows: &Vec<RawScheduleRow>,
    labels: &Vec<i64>,
    n_edges: usize,
    policy: ScheduleLoadingPolicy,
) -> (r: Vec<Vec<(i64, Schedule)>>)
    requires
        labels@.len() == rows@.len(),
        rows@.len() < usize::MAX,
        forall|j: int| 0 <= j < rows@.len() ==> #[trigger] rows@[j].wf(),
        forall|j: int| 0 <= j < rows@.len() ==> #[trigger] rows@[j].edge_id < n_edges,
    ensures
        r@.len() == n_edges,
        forall|e: int, k: int, l: int|
            0 <= e < n_edges && 0 <= k < l < r@[e]@.len() ==> #[trigger] r@[e]@[k].0
                != #[trigger] r@[e]@[l].0,
        forall|e: int, route: i64|
            0 <= e < n_edges ==> (#[trigger] route_listed(r@[e]@, route) <==> route_named(
                rows@,
                labels@,
                rows@.len() as int,
                e,
                route,
            )),
        forall|e: int, k: int|
            #![trigger r@[e]@[k]]
            0 <= e < n_edges && 0 <= k < r@[e]@.len() ==> {
                &&& r@[e]@[k].1.held() =~= admitted(
                    rows@,
                    labels@,
                    e as usize,
                    r@[e]@[k].0,
                    policy,
                )
                &&& r@[e]@[k].1.wf()
                &&& r@[e]@[k].1.all_ordered()
            },
{
    let mut out: Vec<Vec<(i64, Schedule)>> = Vec::new();
    let mut i: usize = 0;
    while i < n_edges
        invariant
            i <= n_edges,
            out@.len() == i,
            forall|e: int| 0 <= e < i ==> #[trigger] out@[e]@.len() == 0,
        decreases n_edges - i,
    {
        out.push(Vec::new());
        i = i + 1;
    }
    let mut t: usize = 0;
    while t < rows.len()
        invariant
            labels@.len() == rows@.len(),
            rows@.len() < usize::MAX,
            forall|j: int| 0 <= j < rows@.len() ==> #[trigger] rows@[j].wf(),
            forall|j: int| 0 <= j < rows@.len() ==> #[trigger] rows@[j].edge_id < n_edges,
            t <= rows@.len(),
            out@.len() == n_edges,
            forall|e: int, k: int, l: int|
                0 <= e < n_edges && 0 <= k < l < out@[e]@.len() ==> #[trigger] out@[e]@[k].0
                    != #[trigger] out@[e]@[l].0,
            forall|e: int, route: i64|
                0 <= e < n_edges ==> (#[trigger] route_listed(out@[e]@, route) <==> route_named(
                    rows@,
                    labels@,
                    t as int,
                    e,
                    route,
                )),
            forall|e: int, k: int|
                #![trigger out@[e]@[k]]
                0 <= e < n_edges && 0 <= k < out@[e]@.len() ==> {
                    &&& out@[e]@[k].1.held() =~= admitted(
                        rows@.subrange(0, t as int),
                        labels@,
                        e as usize,
                        out@[e]@[k].0,
                        policy,
                    )
                    &&& out@[e]@[k].1.wf()
                    &&& out@[e]@[k].1.all_ordered()
                    &&& out@[e]@[k].1.departures().len() <= t
                },
        decreases rows@.len() - t,
    {
        let e = rows[t].edge_id;
        let l = labels[t];
        let dep = Departure {
            src_departure_time: rows[t].src_departure_time,
            dst_arrival_time: rows[t].dst_arrival_time,
        };
        let ghost before = out@;
        let k = match find_route(&out[e], l) {
            Some(k) => k,
            None => {
                proof {
                    assert(!route_listed(out@[e as int]@, l));
                    assert(!route_named(rows@, labels@, t as int, e as int, l));
                    assert forall|j: int| 0 <= j < t implies !(#[trigger] rows@[j].edge_id == e
                        && labels@[j] == l) by {}
                    lemma_admitted_empty(rows@.subrange(0, t as int), labels@, e, l, policy);
                }
                out[e].push((l, Schedule::new()));
                out[e].len() - 1
            },
        };
        let ghost mid = out@;
        proof {
            assert(rows@[t as int].wf());
            assert(forall|e2: int| 0 <= e2 < n_edges && e2 != e ==> #[trigger] mid[e2] == before[e2]);
            assert(mid[e as int]@.len() == before[e as int]@.len() || mid[e as int]@.len()
                == before[e as int]@.len() + 1);
            assert(forall|m: int| 0 <= m < before[e as int]@.len() ==> #[trigger] mid[e as int]@[m] == before[e as int]@[m]);
            assert(mid[e as int]@[k as int].0 == l);
            assert(mid[e as int]@.len() == before[e as int]@.len() + 1 ==> k == before[e as int]@.len()
                && mid[e as int]@[k as int].1.held() =~= Seq::empty()
                && !route_listed(before[e as int]@, l));
            assert(mid[e as int]@[k as int].1.held() =~= admitted(
                rows@.subrange(0, t as int),
                labels@,
                e,
                l,
                policy,
            ));
        }
        policy.insert_if_valid(&mut out[e][k].1, dep);
        proof {
            let prefix = rows@.subrange(0, t as int);
            let next = rows@.subrange(0, t + 1);
            assert(next.drop_last() =~= prefix);
            assert(next[t as int] == rows@[t as int]);
            assert(forall|e2: int| 0 <= e2 < n_edges && e2 != e ==> #[trigger] out@[e2] == mid[e2]);
            assert(out@[e as int]@.len() == mid[e as int]@.len());
            assert(forall|m: int| 0 <= m < mid[e as int]@.len() && m != k ==> #[trigger] out@[e as int]@[m] == mid[e as int]@[m]);
            assert(out@[e as int]@[k as int].0 == l);
            assert forall|e2: int, route: i64|
                0 <= e2 < n_edges implies (#[trigger] route_listed(out@[e2]@, route) <==> route_named(
                rows@,
                labels@,
                t + 1,
                e2,
                route,
            )) by {
                if e2 == e && route == l {
                    assert(out@[e2]@[k as int].0 == l);
                    assert(rows@[t as int].edge_id == e2 && labels@[t as int] == route);
                } else {
                    if route_named(rows@, labels@, t + 1, e2, route) {
                        let j = choose|j: int|
                            0 <= j < t + 1 && #[trigger] rows@[j].edge_id == e2 && labels@[j] == route;
                        assert(j != t);
                        assert(route_named(rows@, labels@, t as int, e2, route));
                    }
                    if route_named(rows@, labels@, t as int, e2, route) {
                        let j = choose|j: int|
                            0 <= j < t && #[trigger] rows@[j].edge_id == e2 && labels@[j] == route;
                        assert(rows@[j].edge_id == e2 && labels@[j] == route);
                    }
                    if e2 != e {
                        assert(out@[e2] == before[e2]);
                        assert(route_listed(out@[e2]@, route) == route_listed(before[e2]@, route));
                    } else {
                        if route_listed(out@[e2]@, route) {
                            let m = choose|m: int| 0 <= m < out@[e2]@.len() && #[trigger] out@[e2]@[m].0 == route;
                            assert(m != k);
                            assert(m < before[e2]@.len());
                            assert(before[e2]@[m].0 == route);
                        }
                        if route_listed(before[e2]@, route) {
                            let m = choose|m: int| 0 <= m < before[e2]@.len() && #[trigger] before[e2]@[m].0 == route;
                            assert(out@[e2]@[m].0 == route);
                        }
                    }
                }
            }
            assert forall|e2: int, k2: int|
                #![trigger out@[e2]@[k2]]
                0 <= e2 < n_edges && 0 <= k2 < out@[e2]@.len() implies {
                    &&& out@[e2]@[k2].1.held() =~= admitted(
                        next,
                        labels@,
                        e2 as usize,
                        out@[e2]@[k2].0,
                        policy,
                    )
                    &&& out@[e2]@[k2].1.wf()
                    &&& out@[e2]@[k2].1.all_ordered()
                    &&& out@[e2]@[k2].1.departures().len() <= t + 1
                } by {
                if e2 == e && k2 == k {
                } else if e2 == e {
                    assert(out@[e2]@[k2] == mid[e2]@[k2]);
                    if k2 < before[e2]@.len() {
                        assert(mid[e2]@[k2] == before[e2]@[k2]);
                    }
                } else {
                    assert(out@[e2]@[k2] == before[e2]@[k2]);
                }
            }
            assert forall|e2: int, a: int, b: int|
                0 <= e2 < n_edges && 0 <= a < b < out@[e2]@.len() implies #[trigger] out@[e2]@[a].0
                != #[trigger] out@[e2]@[b].0 by {
                if e2 == e {
                    if b == before[e2]@.len() {
                        assert(before[e2]@[a].0 != l);
                    } else if a == k || b == k {
                        assert(before[e2]@[a].0 != before[e2]@[b].0);
                    } else {
                        assert(before[e2]@[a].0 != before[e2]@[b].0);
                    }
                } else {
                    assert(before[e2]@[a].0 != before[e2]@[b].0);
                }
            }
        }
        t = t + 1;
    }
    proof {
        assert(rows@.subrange(0, t as int) =~= rows@);
    }
    out
}

/// The schedules of every edge, read from schedule rows: each row's route id is
/// given its label by the route enumeration (the first row whose id has none is an
/// error); the edge ids must be exactly `0..n` for the `n` distinct edges (the least
/// missing one is an error); and each edge gets one schedule per route that runs
/// over it, holding the departures of that route's rows on that edge that the policy
/// keeps. An edge seen only in rejected departures still gets an empty schedule.
pub fn read_schedules(
    rows: &Vec<RawScheduleRow>,
    route_mapping: &CategoricalMapping,
    schedule_loading_policy: ScheduleLoadingPolicy,
) -> (r: Result<Vec<Vec<(i64, Schedule)>>, TransitError>)
    requires
        route_mapping.wf(),
        rows@.len() < usize::MAX,
        forall|j: int| 0 <= j < rows@.len() ==> #[trigger] rows@[j].wf(),
    ensures
        (exists|j: int|
            0 <= j < rows@.len() && #[trigger] row_labels(rows@, *route_mapping)[j] is None) ==> (
        r matches Err(TransitError::BuildError(m)) && exists|j: int|
            0 <= j < rows@.len() && #[trigger] row_labels(rows@, *route_mapping)[j] is None && (
            forall|l: int| 0 <= l < j ==> row_labels(rows@, *route_mapping)[l] is Some) && m@
                == unmapped_route_message(rows@[j].fully_qualified_id@)),
        (forall|j: int|
            0 <= j < rows@.len() ==> #[trigger] row_labels(rows@, *route_mapping)[j] is Some) && (
        exists|i: usize|
            i < edge_set(rows@).len() && !edge_set(rows@).contains(i)) ==> (r matches Err(
            TransitError::BuildError(m),
        ) && exists|i: usize|
            i < edge_set(rows@).len() && !edge_set(rows@).contains(i) && (forall|k: usize|
                k < i ==> edge_set(rows@).contains(k)) && m@ == missing_edge_message(
                i as int,
                edge_set(rows@).len() as int,
            )),
        r is Ok <==> (forall|j: int|
            0 <= j < rows@.len() ==> #[trigger] row_labels(rows@, *route_mapping)[j] is Some) && (forall|
            i: usize,
        | i < edge_set(rows@).len() ==> edge_set(rows@).contains(i)),
        r matches Ok(v) ==> schedules_read(rows@, route_mapping.names(), schedule_loading_policy, v@),
{
    let labels = match label_rows(rows, route_mapping) {
        Ok(ls) => ls,
        Err(e) => {
            return Err(e);
        },
    };
    let edges = edge_ids(rows);
    let n_edges = match check_dense_edges(&edges) {
        Ok(n) => n,
        Err(e) => {
            return Err(e);
        },
    };
    proof {
        assert forall|j: int| 0 <= j < rows@.len() implies #[trigger] rows@[j].edge_id < n_edges by {
            assert(edge_set(rows@).contains(rows@[j].edge_id));
        }
        let spec_labels = row_labels(rows@, *route_mapping).map_values(
            |o: Option<int>| o->Some_0 as i64,
        );
        assert forall|j: int| 0 <= j < rows@.len() implies spec_labels[j] == labels@[j] by {
            assert(Some(labels@[j] as int) == row_labels(rows@, *route_mapping)[j]);
        }
        assert(spec_labels =~= labels@);
    }
    Ok(fill_schedules(rows, &labels, n_edges, schedule_loading_policy))
}

/// The map of a list of date pairs, a later pair for the same date overriding an
/// earlier one.
pub open spec fn pairs_map(pairs: Seq<(i32, i32)>) -> Map<i32, i32>
    decreases pairs.len(),
{
    if pairs.len() == 0 {
        Map::empty()
    } else {
        pairs_map(pairs.drop_last()).insert(pairs.last().0, pairs.last().1)
    }
}

/// The position of the first date mapping entry for a route id, if any.
pub open spec fn entry_position(date_mapping: Seq<(String, Vec<(i32, i32)>)>, id: Seq<char>) -> Option<int> {
    first_position(date_mapping.map_values(|e: (String, Vec<(i32, i32)>)| e.0@), id)
}

/// Every mapped date of every entry is representable.
pub open spec fn date_pairs_wf(date_mapping: Seq<(String, Vec<(i32, i32)>)>) -> bool {
    forall|p: int, q: int|
        0 <= p < date_mapping.len() && 0 <= q < date_mapping[p].1@.len() ==> MIN_DAYS
            <= #[trigger] date_mapping[p].1@[q].1 <= MAX_DAYS
}

/// The message of a route id that the enumeration lacks, kept verbatim.
pub open spec fn unenumerated_route_message() -> Seq<char> {
    "fully-qualified route id '{route_id}' has no entry in enumeration table from file"@
}

fn pairs_to_hash_map(pairs: &Vec<(i32, i32)>) -> (r: HashMap<i32, i32>)
    ensures
        r@ == pairs_map(pairs@),
{
    let mut m: HashMap<i32, i32> = HashMap::new();
    let mut q: usize = 0;
    while q < pairs.len()
        invariant
            q <= pairs@.len(),
            m@ == pairs_map(pairs@.subrange(0, q as int)),
        decreases pairs@.len() - q,
    {
        let (d, to) = pairs[q];
        m.insert(d, to);
        proof {
            assert(pairs@.subrange(0, q + 1).drop_last() =~= pairs@.subrange(0, q as int));
        }
        q = q + 1;
    }
    proof {
        assert(pairs@.subrange(0, q as int) =~= pairs@);
    }
    m
}

/// A value of a pair map is the second member of some pair.
proof fn lemma_pairs_map_values(pairs: Seq<(i32, i32)>, d: i32)
    requires
        pairs_map(pairs).contains_key(d),
    ensures
        exists|q: int| 0 <= q < pairs.len() && #[trigger] pairs[q].1 == pairs_map(pairs)[d],
    decreases pairs.len(),
{
    let p = pairs.drop_last();
    if pairs.last().0 == d {
        assert(pairs[pairs.len() - 1].1 == pairs_map(pairs)[d]);
    } else {
        lemma_pairs_map_values(p, d);
        let q = choose|q: int| 0 <= q < p.len() && #[trigger] p[q].1 == pairs_map(p)[d];
        assert(pairs[q].1 == pairs_map(pairs)[d]);
    }
}

/// The date mappings by route label: each route id of the archive metadata is given
/// its label (an error, with the message kept verbatim, for the first one the
/// enumeration lacks), and a route with a date mapping entry maps its label to that
/// entry's date pairs (a later pair for the same date overriding an earlier one).
pub fn build_label_to_date_mapping(
    fq_route_ids: &Vec<String>,
    date_mapping: &Vec<(String, Vec<(i32, i32)>)>,
    route_mapping: &CategoricalMapping,
) -> (r: Result<HashMap<i64, HashMap<i32, i32>>, TransitError>)
    requires
        route_mapping.wf(),
        date_pairs_wf(date_mapping@),
    ensures
        r is Err <==> exists|i: int|
            0 <= i < fq_route_ids@.len() && first_position(
                route_mapping.names(),
                #[trigger] fq_route_ids@[i]@,
            ) is None,
        r matches Err(e) ==> (e matches TransitError::BuildError(m) && m@
            == unenumerated_route_message()),
        r matches Ok(m) ==> {
            &&& date_mapping_wf(m@)
            &&& forall|l: i64|
                #[trigger] m@.contains_key(l) <==> exists|i: int|
                    0 <= i < fq_route_ids@.len() && first_position(
                        route_mapping.names(),
                        #[trigger] fq_route_ids@[i]@,
                    ) == Some(l as int) && entry_position(date_mapping@, fq_route_ids@[i]@) is Some
            &&& forall|l: i64|
                #[trigger] m@.contains_key(l) ==> 0 <= l < route_mapping.names().len() && (
                entry_position(date_mapping@, route_mapping.names()[l as int]) matches Some(p)
                    && m@[l]@ == pairs_map(date_mapping@[p].1@))
        },
{
    let mut result: HashMap<i64, HashMap<i32, i32>> = HashMap::new();
    let ghost keys = date_mapping@.map_values(|e: (String, Vec<(i32, i32)>)| e.0@);
    let mut i: usize = 0;
    while i < fq_route_ids.len()
        invariant
            route_mapping.wf(),
            date_pairs_wf(date_mapping@),
            keys == date_mapping@.map_values(|e: (String, Vec<(i32, i32)>)| e.0@),
            i <= fq_route_ids@.len(),
            forall|j: int|
                0 <= j < i ==> first_position(route_mapping.names(), #[trigger] fq_route_ids@[j]@)
                    is Some,
            date_mapping_wf(result@),
            forall|l: i64|
                #[trigger] result@.contains_key(l) <==> exists|j: int|
                    0 <= j < i && first_position(
                        route_mapping.names(),
                        #[trigger] fq_route_ids@[j]@,
                    ) == Some(l as int) && entry_position(date_mapping@, fq_route_ids@[j]@) is Some,
            forall|l: i64|
                #[trigger] result@.contains_key(l) ==> 0 <= l < route_mapping.names().len() && (
                entry_position(date_mapping@, route_mapping.names()[l as int]) matches Some(p)
                    && result@[l]@ == pairs_map(date_mapping@[p].1@)),
        decreases fq_route_ids@.len() - i,
    {
        let route_id = &fq_route_ids[i];
        let label = match route_mapping.get_label(route_id.as_str()) {
            Some(l) => l,
            None => {
                return Err(
                    TransitError::BuildError(
                        string_of(
                            &crate::text::chars_of(
                                "fully-qualified route id '{route_id}' has no entry in enumeration table from file",
                            ),
                        ),
                    ),
                );
            },
        };
        proof {
            crate::category::lemma_first_position(keys, route_id@);
        }
        let mut p: usize = 0;
        let mut found: Option<usize> = None;
        while p < date_mapping.len()
            invariant
                p <= date_mapping@.len(),
                keys == date_mapping@.map_values(|e: (String, Vec<(i32, i32)>)| e.0@),
                found is None ==> forall|q: int| 0 <= q < p ==> keys[q] != route_id@,
                found matches Some(f) ==> f < p && keys[f as int] == route_id@ && forall|q: int|
                    0 <= q < f ==> keys[q] != route_id@,
            decreases date_mapping@.len() - p,
        {
            if found.is_none() && date_mapping[p].0 == *route_id {
                found = Some(p);
            }
            p = p + 1;
        }
        let ghost before = result@;
        match found {
            None => {
                proof {
                    assert(entry_position(date_mapping@, route_id@) is None) by {
                        if let Some(q) = first_position(keys, route_id@) {
                            assert(keys[q] != route_id@);
                        }
                    }
                }
            },
            Some(f) => {
                proof {
                    assert(entry_position(date_mapping@, route_id@) == Some(f as int)) by {
                        if let Some(q) = first_position(keys, route_id@) {
                            if q < f {
                                assert(keys[q] != route_id@);
                            }
                            if q > f {
                                assert(keys[f as int] != route_id@);
                            }
                        }
                    }
                }
                let inner = pairs_to_hash_map(&date_mapping[f].1);
                result.insert(label, inner);
                proof {
                    assert forall|d: i32| #[trigger] result@[label]@.contains_key(d) implies MIN_DAYS
                        <= result@[label]@[d] <= MAX_DAYS by {
                        lemma_pairs_map_values(date_mapping@[f as int].1@, d);
                        let q = choose|q: int|
                            0 <= q < date_mapping@[f as int].1@.len()
                                && #[trigger] date_mapping@[f as int].1@[q].1 == pairs_map(
                                date_mapping@[f as int].1@,
                            )[d];
                        assert(MIN_DAYS <= date_mapping@[f as int].1@[q].1 <= MAX_DAYS);
                    }
                    assert forall|route: i64, day: i32|
                        #![trigger result@[route]@[day]]
                        result@.contains_key(route) && result@[route]@.contains_key(day) implies MIN_DAYS
                            <= result@[route]@[day] <= MAX_DAYS by {
                        if route != label {
                            assert(before.contains_key(route));
                        }
                    }
                }
            },
        }
        proof {
            assert(route_mapping.names()[label as int] == route_id@);
            assert forall|l: i64| #[trigger] result@.contains_key(l) <==> exists|j: int|
                0 <= j < i + 1 && first_position(
                    route_mapping.names(),
                    #[trigger] fq_route_ids@[j]@,
                ) == Some(l as int) && entry_position(date_mapping@, fq_route_ids@[j]@) is Some by {
                if result@.contains_key(l) && !before.contains_key(l) {
                    assert(fq_route_ids@[i as int]@ == route_id@);
                }
                if exists|j: int|
                    0 <= j < i + 1 && first_position(
                        route_mapping.names(),
                        #[trigger] fq_route_ids@[j]@,
                    ) == Some(l as int) && entry_position(date_mapping@, fq_route_ids@[j]@) is Some {
                    let j = choose|j: int|
                        0 <= j < i + 1 && first_position(
                            route_mapping.names(),
                            #[trigger] fq_route_ids@[j]@,
                        ) == Some(l as int) && entry_position(date_mapping@, fq_route_ids@[j]@) is Some;
                    if j < i {
                        assert(before.contains_key(l));
                    }
                }
            }
            assert forall|l: i64| #[trigger] result@.contains_key(l) implies 0 <= l
                < route_mapping.names().len() && (entry_position(
                date_mapping@,
                route_mapping.names()[l as int],
            ) matches Some(p) && result@[l]@ == pairs_map(date_mapping@[p].1@)) by {
                if l != label || found is None {
                    assert(before.contains_key(l));
                }
            }
        }
        i = i + 1;
    }
    Ok(result)
}

/// Every route id of the archive metadata is enumerated.
pub open spec fn routes_enumerated(names: Seq<Seq<char>>, fq_route_ids: Seq<String>) -> bool {
    forall|i: int| 0 <= i < fq_route_ids.len() ==> first_position(names, #[trigger] fq_route_ids[i]@) is Some
}

/// The parts of an engine fit together: the archive's route ids and every schedule
/// row's route id are enumerated, and the rows' edge ids are `0..n` for the `n`
/// distinct edges.
pub open spec fn engine_parts_ok(names: Seq<Seq<char>>, fq_route_ids: Seq<String>, rows: Seq<RawScheduleRow>) -> bool {
    &&& routes_enumerated(names, fq_route_ids)
    &&& forall|j: int| 0 <= j < rows.len() ==> #[trigger] labels_among(rows, names)[j] is Some
    &&& forall|i: usize| i < edge_set(rows).len() ==> edge_set(rows).contains(i)
}

impl TransitTraversalEngine {
    /// An engine built as the transit model loads one: the route enumeration
    /// `route_ids` gives each route its label (an error when a route id occurs
    /// twice), the archive metadata's route ids and date mappings give the date
    /// mapping by label as [`build_label_to_date_mapping`] does, and the schedule rows
    /// give the edge schedules as [`read_schedules`] does; the first error is returned.
    pub fn from_parts(
        route_ids: Vec<String>,
        fq_route_ids: &Vec<String>,
        date_mapping: &Vec<(String, Vec<(i32, i32)>)>,
        rows: &Vec<RawScheduleRow>,
        schedule_loading_policy: ScheduleLoadingPolicy,
    ) -> (r: Result<TransitTraversalEngine, TransitError>)
        requires
            route_ids@.len() <= i64::MAX,
            date_pairs_wf(date_mapping@),
            rows@.len() < usize::MAX,
            forall|j: int| 0 <= j < rows@.len() ==> #[trigger] rows@[j].wf(),
        ensures
            !all_distinct(views_of(route_ids@)) ==> (r matches Err(TransitError::BuildError(m))
                && exists|j: int|
                #[trigger] first_repeat(views_of(route_ids@), j) && m@ == duplicate_message(
                    views_of(route_ids@)[j],
                )),
            all_distinct(views_of(route_ids@)) ==> (r is Ok <==> engine_parts_ok(
                views_of(route_ids@),
                fq_route_ids@,
                rows@,
            )),
            all_distinct(views_of(route_ids@)) && !routes_enumerated(views_of(route_ids@), fq_route_ids@)
                ==> (r matches Err(TransitError::BuildError(m)) && m@ == unenumerated_route_message()),
            all_distinct(views_of(route_ids@)) && routes_enumerated(views_of(route_ids@), fq_route_ids@)
                && (exists|j: int|
                0 <= j < rows@.len() && #[trigger] labels_among(rows@, views_of(route_ids@))[j] is None)
                ==> (r matches Err(TransitError::BuildError(m)) && exists|j: int|
                0 <= j < rows@.len() && #[trigger] labels_among(rows@, views_of(route_ids@))[j] is None
                    && (forall|l: int| 0 <= l < j ==> labels_among(rows@, views_of(route_ids@))[l] is Some)
                    && m@ == unmapped_route_message(rows@[j].fully_qualified_id@)),
            all_distinct(views_of(route_ids@)) && routes_enumerated(views_of(route_ids@), fq_route_ids@)
                && (forall|j: int|
                0 <= j < rows@.len() ==> #[trigger] labels_among(rows@, views_of(route_ids@))[j] is Some)
                && (exists|i: usize| i < edge_set(rows@).len() && !edge_set(rows@).contains(i)) ==> (r matches Err(
                TransitError::BuildError(m),
            ) && exists|i: usize|
                i < edge_set(rows@).len() && !edge_set(rows@).contains(i) && (forall|k: usize|
                    k < i ==> edge_set(rows@).contains(k)) && m@ == missing_edge_message(
                    i as int,
                    edge_set(rows@).len() as int,
                )),
            r matches Ok(engine) ==> {
                &&& engine.wf()
                &&& schedules_read(rows@, views_of(route_ids@), schedule_loading_policy, engine.edge_schedules@)
                &&& forall|l: i64|
                    #[trigger] engine.date_mapping@.contains_key(l) <==> exists|i: int|
                        0 <= i < fq_route_ids@.len() && first_position(
                            views_of(route_ids@),
                            #[trigger] fq_route_ids@[i]@,
                        ) == Some(l as int) && entry_position(date_mapping@, fq_route_ids@[i]@) is Some
                &&& forall|l: i64|
                    #[trigger] engine.date_mapping@.contains_key(l) ==> 0 <= l < route_ids@.len() && (
                    entry_position(date_mapping@, route_ids@[l as int]@) matches Some(p)
                        && engine.date_mapping@[l]@ == pairs_map(date_mapping@[p].1@))
            },
    {
        let ghost names = crate::category::views_of(route_ids@);
        let route_mapping = match CategoricalMapping::new(route_ids) {
            Ok(m) => m,
            Err(msg) => {
                return Err(TransitError::BuildError(msg));
            },
        };
        let label_dates = match build_label_to_date_mapping(fq_route_ids, date_mapping, &route_mapping) {
            Ok(m) => m,
            Err(e) => {
                return Err(e);
            },
        };
        let edge_schedules = match read_schedules(rows, &route_mapping, schedule_loading_policy) {
            Ok(v) => v,
            Err(e) => {
                return Err(e);
            },
        };
        proof {
            assert(route_mapping.names() == names);
            assert forall|l: i64| #[trigger] label_dates@.contains_key(l) implies 0 <= l
                < names.len() && names[l as int] == route_ids@[l as int]@ by {}
        }
        TransitTraversalEngine::check_wf(edge_schedules, label_dates)
    }

    /// An engine from its parts, once they are known to be well formed.
    fn check_wf(
        edge_schedules: Vec<Vec<(i64, Schedule)>>,
        date_mapping: HashMap<i64, HashMap<i32, i32>>,
    ) -> (r: Result<TransitTraversalEngine, TransitError>)
        requires
            date_mapping_wf(date_mapping@),
            forall|e: int, k: int|
                #![trigger edge_schedules@[e]@[k]]
                0 <= e < edge_schedules@.len() && 0 <= k < edge_schedules@[e]@.len()
                    ==> edge_schedules@[e]@[k].1.wf(),
            forall|e: int, k: int, l: int|
                0 <= e < edge_schedules@.len() && 0 <= k < l < edge_schedules@[e]@.len()
                    ==> #[trigger] edge_schedules@[e]@[k].0 != #[trigger] edge_schedules@[e]@[l].0,
        ensures
            r matches Ok(engine) && engine.wf() && engine.edge_schedules@ == edge_schedules@
                && engine.date_mapping@ == date_mapping@,
    {
        let engine = TransitTraversalEngine { edge_schedules, date_mapping };
        proof {
            assert forall|e: int, k: int|
                0 <= e < engine.edge_schedules@.len() && 0 <= k < engine.edge_schedules@[e]@.len()
                    implies #[trigger] engine.edge_schedules@[e]@[k].1.wf() by {
                assert(edge_schedules@[e]@[k].1.wf());
            }
        }
        Ok(engine)
    }
}

} // verus!
